# traverse_cli

The rules of the Traverse command-line host, written in Verus and proved
against their specifications.

`src/` is the verified library. Each module states in `requires`/`ensures`
what its functions compute, over spec functions on `Seq`, `Map` and plain
values:

- `text`, `digest`: character-level building blocks (trimming, splitting,
  decimal and hexadecimal rendering, lexicographic order), FNV-1a and SHA-256.
- `routes`, `http`, `reader`, `auth`, `identity`: request targets, header
  parsing and limits, reading a request chunk by chunk, the connection's
  checks (development listeners, CORS, bearer tokens, media types), JWT
  decoding and verification, scopes and workspace membership.
- `json_members`, `conditions`: the members of a JSON request body, and
  transition conditions over a JSON capability output.
- `app_events`: application commands against their state machine, the event
  log a command or an execution appends, replay after a client's last event,
  and the sessions listing.
- `idempotency`: responses recorded per idempotency key, replayed for a
  retry with the same body and refused for another body.
- `grants`, `registration`, `registry_failures`, `workflow`, `versions`,
  `execute`: runtime grants, registration bodies and filing paths, the
  answers to registry refusals, the cycle of a refused workflow, and the
  latest of a workflow's versions.
- `availability`, `telemetry`, `state_machine`, `agent_package`,
  `federation`, `browser_adapter`, `qr`: application availability, authoring
  telemetry buckets, state-machine manifest checks, agent package checks,
  federation reports, the local browser adapter and the provisioning QR code.

Calls into outside crates (`sha2`, `uuid`, `serde_json`, `ed25519-dalek`,
`qrcode`, `semver`, `zeroize`) and into the standard library's clock and
UTF-8 decoder go through small trusted wrappers, each documented with what
its contract claims.  `chrono` is used by `app/` for the audit log's
timestamps.

`app/` is ordinary Rust around the library: sockets, files, JSON values and
the terminal. It hands the library plain values and writes out its answers.

`tests/` exercises the library on concrete inputs.
