# p2pmessage

Peer-to-peer messaging between two agents, as a Holochain zome: messages,
delivery and read receipts, pins, file bytes and typing signals.

- `src/` is the verified library (Verus). For each zome function it decides
  the entries committed to the chain and their order (`zome::Commit`, each
  with its entry type), the call made to another agent (`zome::RemoteCall`:
  whom, which function, with what), the signals emitted and what is
  returned, and how the read functions list messages, attach receipts and
  replies, and honour pins. The functions that store an entry they are sent
  (`sync_pins`, `receive_receipt`) commit it first and hand its hash to the
  library. Chain reads, hashes, the clock and the answers of remote calls
  come in as plain values.
  - `table.rs`: a string-keyed table with a map model.
  - `types.rs`: the entries and inputs.
  - `helpers.rs`: listing messages, receipts and replies; lookups on the chain.
  - `queries.rs`: the read functions.
  - `zome.rs`: the functions that write, call and signal.
  - `system_message.rs`: system notifications.
  - `handlers.rs`: messaging with asynchronous delivery.
  - `laws.rs`: properties of the read functions over every chain.
- `app/` is the zome itself: the `hdk` externs, the serde copies of the types,
  and the host calls.
- `tests/` runs the library on concrete chains.
