//! Message schema and data types exchanged between applications and the hub.
//!
//! Payload JSON documents are carried as their JSON text; timestamps as whole
//! seconds and nanoseconds since the UNIX epoch (UTC); UUIDs as their 128 bits.

use vstd::prelude::*;

verus! {

/// Identifier of a connected application session (a UUID held as its 128 bits).
pub type AppSessionId = u128;

/// Version 4 (random) UUID layout: version nibble 4, RFC 4122 variant bits `10`.
pub open spec fn is_v4_uuid(bits: u128) -> bool {
    &&& (bits >> 76u128) & 0xfu128 == 4u128
    &&& (bits >> 62u128) & 0x3u128 == 2u128
}

/// Calls `uuid::Uuid::new_v4` and returns the UUID's 128 bits (`as_u128`).
/// The bits are random; what holds of every outcome is the version-4 layout
/// that `new_v4` writes into them. (`new_v4` panics when the system's random
/// source fails; nothing here rules that out.)
#[verifier::external_body]
pub(crate) fn new_v4_bits() -> (bits: u128)
    ensures
        is_v4_uuid(bits),
{
    uuid::Uuid::new_v4().as_u128()
}

/// A point in time, UTC: whole seconds since the UNIX epoch and the
/// nanoseconds past that second (above 999_999_999 only inside a leap second).
#[derive(Debug, Clone, Copy, PartialEq, Eq, Structural)]
pub struct UtcTime {
    pub secs: i64,
    pub nanos: u32,
}

/// `t` is a reading the clock can give: whole seconds not below zero and a
/// sub-second part under one second.
pub open spec fn is_clock_reading(t: UtcTime) -> bool {
    t.secs >= 0 && t.nanos < 1_000_000_000
}

/// Calls `chrono::Utc::now` and returns its `timestamp()` and
/// `timestamp_subsec_nanos()`. The value is the wall clock, so nothing fixes
/// it; what holds of every outcome is what `now` builds it from, the system
/// time since the UNIX epoch: whole seconds not below zero and a sub-second
/// part under one second. (`now` panics when the system clock is before the
/// epoch; nothing here rules that out.)
#[verifier::external_body]
pub(crate) fn utc_now() -> (t: UtcTime)
    ensures
        t.secs >= 0,
        t.nanos < 1_000_000_000,
{
    let now = chrono::Utc::now();
    UtcTime { secs: now.timestamp(), nanos: now.timestamp_subsec_nanos() }
}

/// Identifier of an entity (document, artboard, layer, clip, ...), such as
/// "amata://doc-1/vector-star-1".
#[derive(Debug)]
pub struct EntityId(pub String);

impl View for EntityId {
    type V = Seq<char>;

    open spec fn view(&self) -> Seq<char> {
        self.0@
    }
}

impl Clone for EntityId {
    fn clone(&self) -> (res: Self)
        ensures
            res == *self,
    {
        EntityId(self.0.clone())
    }
}

impl PartialEq for EntityId {
    fn eq(&self, other: &Self) -> (res: bool) {
        self.0 == other.0
    }
}

impl vstd::std_specs::cmp::PartialEqSpecImpl for EntityId {
    open spec fn obeys_eq_spec() -> bool {
        true
    }

    open spec fn eq_spec(&self, other: &Self) -> bool {
        self.0@ == other.0@
    }
}

impl Eq for EntityId {}

impl EntityId {
    /// Builds an entity identifier from its text.
    pub fn from(s: &str) -> (res: EntityId)
        ensures
            res@ == s@,
    {
        EntityId(s.to_owned())
    }

    /// The identifier's text.
    pub fn as_str(&self) -> (res: &str)
        ensures
            res@ == self@,
    {
        self.0.as_str()
    }
}

/// Identifier of a link between a source entity and a target entity.
#[derive(Debug, Clone, Copy, PartialEq, Eq, Structural)]
pub struct LinkId(pub u128);

impl LinkId {
    /// A fresh random (version 4) link identifier.
    pub fn new() -> (id: LinkId)
        ensures
            is_v4_uuid(id.0),
    {
        LinkId(new_v4_bits())
    }
}

impl Default for LinkId {
    fn default() -> (id: LinkId)
        ensures
            is_v4_uuid(id.0),
    {
        LinkId::new()
    }
}

/// The texts of a list of strings.
pub open spec fn strings_view(v: Seq<String>) -> Seq<Seq<char>> {
    v.map_values(|s: String| s@)
}

/// The texts of a list of key/value string pairs.
pub open spec fn string_pairs_view(v: Seq<(String, String)>) -> Seq<(Seq<char>, Seq<char>)> {
    v.map_values(|p: (String, String)| (p.0@, p.1@))
}

/// Copies a list of strings element by element.
pub fn clone_strings(v: &Vec<String>) -> (res: Vec<String>)
    ensures
        res@ == v@,
{
    let mut res: Vec<String> = Vec::new();
    let mut i: usize = 0;
    while i < v.len()
        invariant
            i <= v.len(),
            res@ == v@.take(i as int),
        decreases v.len() - i,
    {
        res.push(v[i].clone());
        i = i + 1;
    }
    assert(v@.take(v.len() as int) == v@);
    res
}

/// Copies a list of key/value string pairs element by element.
pub fn clone_string_pairs(v: &Vec<(String, String)>) -> (res: Vec<(String, String)>)
    ensures
        res@ == v@,
{
    let mut res: Vec<(String, String)> = Vec::new();
    let mut i: usize = 0;
    while i < v.len()
        invariant
            i <= v.len(),
            res@ == v@.take(i as int),
        decreases v.len() - i,
    {
        let (k, val) = &v[i];
        res.push((k.clone(), val.clone()));
        i = i + 1;
    }
    assert(v@.take(v.len() as int) == v@);
    res
}

/// Abstract value of [`AppCapabilities`].
pub struct AppCapabilitiesView {
    pub supports_live_link: bool,
    pub supports_push_edits: bool,
    pub supports_delta_sync: bool,
    pub supports_link_restoration: bool,
    pub supported_data_types: Seq<Seq<char>>,
}

/// Capabilities an application declares when it connects.
#[derive(Debug)]
pub struct AppCapabilities {
    /// Can notify live, unsaved edits in real time.
    pub supports_live_link: bool,
    /// Can receive and apply remote edits.
    pub supports_push_edits: bool,
    /// Supports delta/patch sync instead of full payloads.
    pub supports_delta_sync: bool,
    /// Can be restored automatically across restarts.
    pub supports_link_restoration: bool,
    /// Supported MIME/data types (e.g. "application/x-moufu-vector").
    pub supported_data_types: Vec<String>,
}

impl View for AppCapabilities {
    type V = AppCapabilitiesView;

    open spec fn view(&self) -> AppCapabilitiesView {
        AppCapabilitiesView {
            supports_live_link: self.supports_live_link,
            supports_push_edits: self.supports_push_edits,
            supports_delta_sync: self.supports_delta_sync,
            supports_link_restoration: self.supports_link_restoration,
            supported_data_types: strings_view(self.supported_data_types@),
        }
    }
}

impl Clone for AppCapabilities {
    fn clone(&self) -> (res: Self)
        ensures
            res@ == self@,
    {
        AppCapabilities {
            supports_live_link: self.supports_live_link,
            supports_push_edits: self.supports_push_edits,
            supports_delta_sync: self.supports_delta_sync,
            supports_link_restoration: self.supports_link_restoration,
            supported_data_types: clone_strings(&self.supported_data_types),
        }
    }
}

impl Default for AppCapabilities {
    /// Live link and link restoration on, push edits and delta sync off,
    /// one supported data type: "application/json".
    fn default() -> (caps: AppCapabilities)
        ensures
            caps@.supports_live_link,
            !caps@.supports_push_edits,
            !caps@.supports_delta_sync,
            caps@.supports_link_restoration,
            caps@.supported_data_types == seq!["application/json"@],
    {
        let mut types: Vec<String> = Vec::new();
        types.push(String::from_str("application/json"));
        let caps = AppCapabilities {
            supports_live_link: true,
            supports_push_edits: false,
            supports_delta_sync: false,
            supports_link_restoration: true,
            supported_data_types: types,
        };
        assert(caps@.supported_data_types =~= seq!["application/json"@]);
        caps
    }
}

/// Abstract value of [`EntityDescriptor`].
pub struct EntityDescriptorView {
    pub id: Seq<char>,
    pub name: Seq<char>,
    pub data_type: Seq<char>,
    pub source_app: Seq<char>,
    pub metadata: Seq<(Seq<char>, Seq<char>)>,
}

/// Registration of an entity exported by an application.
#[derive(Debug)]
pub struct EntityDescriptor {
    pub id: EntityId,
    pub name: String,
    pub data_type: String,
    pub source_app: String,
    /// Key/value metadata.
    pub metadata: Vec<(String, String)>,
}

impl View for EntityDescriptor {
    type V = EntityDescriptorView;

    open spec fn view(&self) -> EntityDescriptorView {
        EntityDescriptorView {
            id: self.id@,
            name: self.name@,
            data_type: self.data_type@,
            source_app: self.source_app@,
            metadata: string_pairs_view(self.metadata@),
        }
    }
}

impl Clone for EntityDescriptor {
    fn clone(&self) -> (res: Self)
        ensures
            res@ == self@,
    {
        EntityDescriptor {
            id: self.id.clone(),
            name: self.name.clone(),
            data_type: self.data_type.clone(),
            source_app: self.source_app.clone(),
            metadata: clone_string_pairs(&self.metadata),
        }
    }
}

/// Abstract value of [`SharedMemoryDescriptor`].
pub struct SharedMemoryDescriptorView {
    pub shm_id: Seq<char>,
    pub size_bytes: usize,
    pub width: u32,
    pub height: u32,
    pub format: Seq<char>,
    pub stride: usize,
}

/// Descriptor of a shared memory buffer (frames, textures).
#[derive(Debug)]
pub struct SharedMemoryDescriptor {
    pub shm_id: String,
    pub size_bytes: usize,
    pub width: u32,
    pub height: u32,
    /// e.g. "RGBA8", "BGRA8", "RAW".
    pub format: String,
    pub stride: usize,
}

impl View for SharedMemoryDescriptor {
    type V = SharedMemoryDescriptorView;

    open spec fn view(&self) -> SharedMemoryDescriptorView {
        SharedMemoryDescriptorView {
            shm_id: self.shm_id@,
            size_bytes: self.size_bytes,
            width: self.width,
            height: self.height,
            format: self.format@,
            stride: self.stride,
        }
    }
}

impl Clone for SharedMemoryDescriptor {
    fn clone(&self) -> (res: Self)
        ensures
            res@ == self@,
    {
        SharedMemoryDescriptor {
            shm_id: self.shm_id.clone(),
            size_bytes: self.size_bytes,
            width: self.width,
            height: self.height,
            format: self.format.clone(),
            stride: self.stride,
        }
    }
}

/// Abstract value of [`PayloadTransport`].
pub enum PayloadView {
    Inline(Seq<char>),
    SharedMemory(SharedMemoryDescriptorView),
}

/// How an event payload travels.
#[derive(Debug)]
pub enum PayloadTransport {
    /// An inlined JSON document, held as its JSON text.
    Inline(String),
    /// A zero-copy shared memory buffer.
    SharedMemory(SharedMemoryDescriptor),
}

impl View for PayloadTransport {
    type V = PayloadView;

    open spec fn view(&self) -> PayloadView {
        match self {
            PayloadTransport::Inline(text) => PayloadView::Inline(text@),
            PayloadTransport::SharedMemory(shm) => PayloadView::SharedMemory(shm@),
        }
    }
}

impl Clone for PayloadTransport {
    fn clone(&self) -> (res: Self)
        ensures
            res@ == self@,
    {
        match self {
            PayloadTransport::Inline(text) => PayloadTransport::Inline(text.clone()),
            PayloadTransport::SharedMemory(shm) => PayloadTransport::SharedMemory(shm.clone()),
        }
    }
}

/// The text of an optional string.
pub open spec fn opt_string_view(s: Option<String>) -> Option<Seq<char>> {
    match s {
        Some(t) => Some(t@),
        None => None,
    }
}

/// Copies an optional string.
pub fn clone_opt_string(s: &Option<String>) -> (res: Option<String>)
    ensures
        res == *s,
{
    match s {
        Some(t) => Some(t.clone()),
        None => None,
    }
}

/// Abstract value of [`ChangeEvent`].
pub struct ChangeEventView {
    pub entity_id: Seq<char>,
    pub version: u64,
    pub is_transient: bool,
    pub timestamp: UtcTime,
    pub payload: PayloadView,
    pub delta: Option<Seq<char>>,
}

/// A change of an entity's state.
#[derive(Debug)]
pub struct ChangeEvent {
    pub entity_id: EntityId,
    pub version: u64,
    /// True for an in-flight, unsaved edit (live preview); false for a
    /// committed (saved) one.
    pub is_transient: bool,
    pub timestamp: UtcTime,
    pub payload: PayloadTransport,
    /// Optional delta/patch, as JSON text.
    pub delta: Option<String>,
}

impl View for ChangeEvent {
    type V = ChangeEventView;

    open spec fn view(&self) -> ChangeEventView {
        ChangeEventView {
            entity_id: self.entity_id@,
            version: self.version,
            is_transient: self.is_transient,
            timestamp: self.timestamp,
            payload: self.payload@,
            delta: opt_string_view(self.delta),
        }
    }
}

impl Clone for ChangeEvent {
    fn clone(&self) -> (res: Self)
        ensures
            res@ == self@,
    {
        ChangeEvent {
            entity_id: self.entity_id.clone(),
            version: self.version,
            is_transient: self.is_transient,
            timestamp: self.timestamp,
            payload: self.payload.clone(),
            delta: clone_opt_string(&self.delta),
        }
    }
}

/// Status of a link.
#[derive(Debug, Clone, Copy, PartialEq, Eq, Structural)]
pub enum LinkStatus {
    Active,
    OutOfSync,
    Broken,
    Paused,
}

/// Abstract value of [`LinkInfo`].
pub struct LinkInfoView {
    pub link_id: u128,
    pub source_app: Seq<char>,
    pub source_entity: Seq<char>,
    pub target_app: Seq<char>,
    pub target_entity: Seq<char>,
    pub data_type: Seq<char>,
    pub status: LinkStatus,
    pub last_synced_version: u64,
    pub created_at: UtcTime,
}

/// A link from a source entity to a target entity.
#[derive(Debug)]
pub struct LinkInfo {
    pub link_id: LinkId,
    pub source_app: String,
    pub source_entity: EntityId,
    pub target_app: String,
    pub target_entity: EntityId,
    pub data_type: String,
    pub status: LinkStatus,
    pub last_synced_version: u64,
    pub created_at: UtcTime,
}

impl View for LinkInfo {
    type V = LinkInfoView;

    open spec fn view(&self) -> LinkInfoView {
        LinkInfoView {
            link_id: self.link_id.0,
            source_app: self.source_app@,
            source_entity: self.source_entity@,
            target_app: self.target_app@,
            target_entity: self.target_entity@,
            data_type: self.data_type@,
            status: self.status,
            last_synced_version: self.last_synced_version,
            created_at: self.created_at,
        }
    }
}

impl Clone for LinkInfo {
    fn clone(&self) -> (res: Self)
        ensures
            res@ == self@,
    {
        LinkInfo {
            link_id: self.link_id,
            source_app: self.source_app.clone(),
            source_entity: self.source_entity.clone(),
            target_app: self.target_app.clone(),
            target_entity: self.target_entity.clone(),
            data_type: self.data_type.clone(),
            status: self.status,
            last_synced_version: self.last_synced_version,
            created_at: self.created_at,
        }
    }
}

/// Abstract value of [`ClientMessage`].
pub enum ClientMessageView {
    Handshake { app_name: Seq<char>, app_version: Seq<char>, capabilities: AppCapabilitiesView },
    RegisterEntity(EntityDescriptorView),
    UnregisterEntity { entity_id: Seq<char> },
    CreateLink { source_entity: Seq<char>, target_entity: Seq<char> },
    DestroyLink { link_id: u128 },
    NotifyChange(ChangeEventView),
    PullEntity { entity_id: Seq<char> },
    Ping,
}

/// Messages from an application to the hub.
#[derive(Debug)]
pub enum ClientMessage {
    /// Opens the connection and declares capabilities.
    Handshake { app_name: String, app_version: String, capabilities: AppCapabilities },
    /// Registers an entity the application owns.
    RegisterEntity(EntityDescriptor),
    /// Unregisters an entity.
    UnregisterEntity { entity_id: EntityId },
    /// Asks for a link from a source entity to a target entity.
    CreateLink { source_entity: EntityId, target_entity: EntityId },
    /// Removes a link.
    DestroyLink { link_id: LinkId },
    /// A live or committed change.
    NotifyChange(ChangeEvent),
    /// Asks for the latest state of an entity.
    PullEntity { entity_id: EntityId },
    /// Heartbeat.
    Ping,
}

impl View for ClientMessage {
    type V = ClientMessageView;

    open spec fn view(&self) -> ClientMessageView {
        match self {
            ClientMessage::Handshake { app_name, app_version, capabilities } => ClientMessageView::Handshake {
                app_name: app_name@,
                app_version: app_version@,
                capabilities: capabilities@,
            },
            ClientMessage::RegisterEntity(d) => ClientMessageView::RegisterEntity(d@),
            ClientMessage::UnregisterEntity { entity_id } => ClientMessageView::UnregisterEntity {
                entity_id: entity_id@,
            },
            ClientMessage::CreateLink { source_entity, target_entity } => ClientMessageView::CreateLink {
                source_entity: source_entity@,
                target_entity: target_entity@,
            },
            ClientMessage::DestroyLink { link_id } => ClientMessageView::DestroyLink { link_id: link_id.0 },
            ClientMessage::NotifyChange(e) => ClientMessageView::NotifyChange(e@),
            ClientMessage::PullEntity { entity_id } => ClientMessageView::PullEntity { entity_id: entity_id@ },
            ClientMessage::Ping => ClientMessageView::Ping,
        }
    }
}

/// Abstract value of [`ServerMessage`].
pub enum ServerMessageView {
    HandshakeAck { session_id: AppSessionId, server_version: Seq<char> },
    EntityUpdated(ChangeEventView),
    LinkStatusChanged(LinkInfoView),
    EntityState { entity_id: Seq<char>, version: u64, payload: PayloadView },
    Error { code: Seq<char>, message: Seq<char> },
    Pong,
}

/// Messages from the hub to an application.
#[derive(Debug)]
pub enum ServerMessage {
    /// Handshake acknowledgement.
    HandshakeAck { session_id: AppSessionId, server_version: String },
    /// An entity linked to this application was updated.
    EntityUpdated(ChangeEvent),
    /// A link was created or its status changed.
    LinkStatusChanged(LinkInfo),
    /// The latest state of an entity.
    EntityState { entity_id: EntityId, version: u64, payload: PayloadTransport },
    /// An error or notice.
    Error { code: String, message: String },
    /// Heartbeat answer.
    Pong,
}

impl View for ServerMessage {
    type V = ServerMessageView;

    open spec fn view(&self) -> ServerMessageView {
        match self {
            ServerMessage::HandshakeAck { session_id, server_version } => ServerMessageView::HandshakeAck {
                session_id: *session_id,
                server_version: server_version@,
            },
            ServerMessage::EntityUpdated(event) => ServerMessageView::EntityUpdated(event@),
            ServerMessage::LinkStatusChanged(link) => ServerMessageView::LinkStatusChanged(link@),
            ServerMessage::EntityState { entity_id, version, payload } => ServerMessageView::EntityState {
                entity_id: entity_id@,
                version: *version,
                payload: payload@,
            },
            ServerMessage::Error { code, message } => ServerMessageView::Error {
                code: code@,
                message: message@,
            },
            ServerMessage::Pong => ServerMessageView::Pong,
        }
    }
}

impl Clone for ServerMessage {
    fn clone(&self) -> (res: Self)
        ensures
            res@ == self@,
    {
        match self {
            ServerMessage::HandshakeAck { session_id, server_version } => ServerMessage::HandshakeAck {
                session_id: *session_id,
                server_version: server_version.clone(),
            },
            ServerMessage::EntityUpdated(event) => ServerMessage::EntityUpdated(event.clone()),
            ServerMessage::LinkStatusChanged(link) => ServerMessage::LinkStatusChanged(link.clone()),
            ServerMessage::EntityState { entity_id, version, payload } => ServerMessage::EntityState {
                entity_id: entity_id.clone(),
                version: *version,
                payload: payload.clone(),
            },
            ServerMessage::Error { code, message } => ServerMessage::Error {
                code: code.clone(),
                message: message.clone(),
            },
            ServerMessage::Pong => ServerMessage::Pong,
        }
    }
}

} // verus!
