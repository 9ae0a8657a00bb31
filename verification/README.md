# themed

One piece of shared state, the current UI theme, kept in sync across a small
fleet of personal machines. `themed` is a last-write-wins register plus
opportunistic one-hop gossip: the machine where the theme changes pushes it to
the others. No consensus, no heartbeat, no polling.

```console
$ themed set '{"mode":"light"}'   # tell the local daemon; it fans out
$ themed get
{"mode":"light"}
```

Without a subcommand `themed` runs the daemon.

## Layout

- `src/` is the library, verified with Verus: the register, the wire format and
  the state file, version stamps, the client's reading of answers, and how flags
  and defaults become a configuration. `src/fleet.rs` proves what the whole rests
  on: versions never go back, stale news is ignored, and daemons that have had
  the same records hold the same one.
- `app/` is the program around it: command line, sockets, files, threads, the
  reconcile hook and signals.
- `tests/` runs the library, whole fleets in memory included.

## What is trusted

JSON is read, compared and printed by `serde_json`; every call into it stands in
`src/json.rs` with a contract that is not proved. The crate's `float_roundtrip`
feature is on, so that a number prints as it was read. The clock is read in
`src/version.rs`; nothing is claimed of the time it tells.

## Wire format

One JSON object per line, UTF-8; one message per connection.

| To | Message | Reply |
|---|---|---|
| peers | `{"t":"announce","version":<u64>,"blob":<json>}` | none |
| peers | `{"t":"query"}` | `{"t":"state","version":<u64>,"blob":<json>}` |
| control socket | `{"t":"set","blob":<json>}` | `{"t":"ok"}` or `{"t":"err","msg":<string>}` |
| control socket | `{"t":"get"}` | `{"t":"state","version":<u64>,"blob":<json>}` |

Each socket accepts only its own commands. Anything else on a line is dropped.
