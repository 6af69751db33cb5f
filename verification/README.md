# rustdesk_rmm

Single-machine remote-management tooling for RustDesk — the agent protocol
server, threshold alerting, the script library and the software inventory —
as a Verus library whose logic is proved against its contracts.

- `src/` — the verified library.
  - `json.rs`: JSON values, their model (`JsonView`), and JSON text.
  - `text.rs`: string comparison, prefixes, trimming, splitting, joining,
    decimal formatting.
  - `rmm/mod.rs`: the option store lookups and the feature switches.
  - `rmm/mcp.rs`: the JSON-RPC request handler and its tools; the write gate.
  - `rmm/monitor.rs`: alert wording, the capped newest-first alert record, the
    watch list, disk usage.
  - `rmm/scripts.rs`: the script library, its file format and text, and its scheduler.
  - `rmm/inventory.rs`: the installed-software listing and the snapshot.
- `app/` — the process side: reading stdin and writing stdout, files, timers, the registry, processes,
  notifications, and the floating-point sampling of CPU, memory and disks.
- `tests/` — tests on concrete values.
