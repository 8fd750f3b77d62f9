//! The requests an application's adapter sends to the hub, and the rule that
//! a connection opens with a handshake.

use vstd::prelude::*;
use crate::protocol::{
    AppCapabilities, ChangeEvent, ChangeEventView, ClientMessage, ClientMessageView,
    EntityDescriptor, EntityDescriptorView, EntityId, PayloadTransport, PayloadView,
    SharedMemoryDescriptor, UtcTime, is_clock_reading, string_pairs_view, utc_now,
};

verus! {

/// The request registering an entity the application exposes.
pub fn register_entity_message(
    id: EntityId,
    name: String,
    data_type: String,
    source_app: String,
    metadata: Vec<(String, String)>,
) -> (m: ClientMessage)
    ensures
        m@ == ClientMessageView::RegisterEntity(
            EntityDescriptorView {
                id: id@,
                name: name@,
                data_type: data_type@,
                source_app: source_app@,
                metadata: string_pairs_view(metadata@),
            },
        ),
{
    ClientMessage::RegisterEntity(EntityDescriptor { id, name, data_type, source_app, metadata })
}

/// The request for a link from `source_entity` to `target_entity`.
pub fn create_link_message(source_entity: EntityId, target_entity: EntityId) -> (m: ClientMessage)
    ensures
        m@ == (ClientMessageView::CreateLink { source_entity: source_entity@, target_entity: target_entity@ }),
{
    ClientMessage::CreateLink { source_entity, target_entity }
}

/// The change notification carrying `payload`, stamped `timestamp`, with no delta.
pub fn change_message_at(
    entity_id: EntityId,
    version: u64,
    is_transient: bool,
    timestamp: UtcTime,
    payload: PayloadTransport,
) -> (m: ClientMessage)
    ensures
        m@ == ClientMessageView::NotifyChange(
            ChangeEventView {
                entity_id: entity_id@,
                version: version,
                is_transient: is_transient,
                timestamp: timestamp,
                payload: payload@,
                delta: None,
            },
        ),
{
    ClientMessage::NotifyChange(ChangeEvent { entity_id, version, is_transient, timestamp, payload, delta: None })
}

/// The change notification carrying an inlined JSON document (given as its
/// JSON text), stamped now.
pub fn notify_change_inline_message(
    entity_id: EntityId,
    version: u64,
    is_transient: bool,
    payload_json: String,
) -> (m: ClientMessage)
    ensures
        m@ is NotifyChange,
        m@->NotifyChange_0.entity_id == entity_id@,
        m@->NotifyChange_0.version == version,
        m@->NotifyChange_0.is_transient == is_transient,
        m@->NotifyChange_0.payload == PayloadView::Inline(payload_json@),
        m@->NotifyChange_0.delta is None,
        is_clock_reading(m@->NotifyChange_0.timestamp),
{
    let timestamp = utc_now();
    change_message_at(entity_id, version, is_transient, timestamp, PayloadTransport::Inline(payload_json))
}

/// The change notification pointing at a shared memory buffer, stamped now.
pub fn notify_change_shm_message(
    entity_id: EntityId,
    version: u64,
    is_transient: bool,
    shm: SharedMemoryDescriptor,
) -> (m: ClientMessage)
    ensures
        m@ is NotifyChange,
        m@->NotifyChange_0.entity_id == entity_id@,
        m@->NotifyChange_0.version == version,
        m@->NotifyChange_0.is_transient == is_transient,
        m@->NotifyChange_0.payload == PayloadView::SharedMemory(shm@),
        m@->NotifyChange_0.delta is None,
        is_clock_reading(m@->NotifyChange_0.timestamp),
{
    let timestamp = utc_now();
    change_message_at(entity_id, version, is_transient, timestamp, PayloadTransport::SharedMemory(shm))
}

/// The request for the latest state of an entity.
pub fn pull_entity_message(entity_id: EntityId) -> (m: ClientMessage)
    ensures
        m@ == (ClientMessageView::PullEntity { entity_id: entity_id@ }),
{
    ClientMessage::PullEntity { entity_id }
}

/// The handshake opening a connection.
pub fn handshake_message(app_name: &str, app_version: &str, capabilities: AppCapabilities) -> (m: ClientMessage)
    ensures
        m@ == (ClientMessageView::Handshake {
            app_name: app_name@,
            app_version: app_version@,
            capabilities: capabilities@,
        }),
{
    ClientMessage::Handshake {
        app_name: app_name.to_owned(),
        app_version: app_version.to_owned(),
        capabilities,
    }
}

/// Why a connection was refused.
#[derive(Debug, Clone, Copy, PartialEq, Eq, Structural)]
pub enum ConnectionError {
    /// The first message of a connection was not a handshake.
    FirstMessageNotHandshake,
}

/// The application name, version and capabilities declared by the first
/// message of a connection, which must be a handshake.
pub fn accept_handshake(first: ClientMessage) -> (r: Result<(String, String, AppCapabilities), ConnectionError>)
    ensures
        match first@ {
            ClientMessageView::Handshake { app_name, app_version, capabilities } => r matches Ok(t)
                && t.0@ == app_name && t.1@ == app_version && t.2@ == capabilities,
            _ => r == Err::<(String, String, AppCapabilities), ConnectionError>(ConnectionError::FirstMessageNotHandshake),
        },
{
    match first {
        ClientMessage::Handshake { app_name, app_version, capabilities } => Ok((app_name, app_version, capabilities)),
        _ => Err(ConnectionError::FirstMessageNotHandshake),
    }
}

} // verus!
