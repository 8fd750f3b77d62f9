# moufu

The verified core of the Moufu integration hub, a real-time link hub between
creative applications, written in Verus.

- `src/protocol.rs`: the message schema and data types, each with its abstract view.
- `src/assoc.rs`: association lists (records with unique keys) and the maps they stand for.
- `src/graph.rs`: the link graph (entities, entity states, links, per-entity link indices),
  link restoration and re-binding, and its laws.
- `src/coalesce.rs`: per-frame event coalescing (newest transient event per entity, committed
  events never dropped), and its laws.
- `src/hub.rs`: the hub's decisions as steps from state and request to next state and actions,
  and its laws.
- `src/dashboard.rs`: the control center's picture of the hub, kept from hub events.
- `src/text.rs`: decimal and UUID renderings used in activity logs.
- `src/client.rs`: the requests an application sends, and the handshake rule.
- `src/persistence.rs`: the link registry file location and snapshot.
- `app/`: the program around it: TCP transport, tokio runtime, JSON (serde) copies of the
  types, registry file I/O and the egui control center window.
- `tests/`: tests of the library.
