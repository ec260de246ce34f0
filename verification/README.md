# Vortex

A laptop that knows its owner's phone: calls, messages, the clipboard, files,
earbuds and Do Not Disturb, shared over Bluetooth and the local network.

`src/` is the library, written in Verus. It holds what is decided and computed,
as functions on plain values with proved contracts:

- the links: `ble_link` and `ble_portable` keep a session up, `ble_scan` finds
  the phone, `arbiter` says which of several phones owns the session, `lan`
  picks an address, `pairing` starts and ends trust;
- what the phone shows here: `call`, `call_control`, `call_log`, `contacts`,
  `sms`, `camera`, `earbuds`, `dnd`;
- what is shared: `clipboard`, `clipboard_sync`, `file_consent`, `fs_cli`;
- the machine: `platform`, `session_lock`, `storage`, `applog`, `diagnostics`,
  `cli`;
- the ground: `text`, `codec`, `keys`.

A long-running dialogue is a state machine. `step` takes what happened and says
what to do next; its contract is a spec function from state and event to state
and action, and the `lemma_…` functions beside it state what holds of every run.

Calls into other crates stand behind small functions marked
`#[verifier::external_body]`, each with a comment that says what is taken for
granted. Most are in `codec` and `text`.

`app/` is the program around the library: files, processes, D-Bus, the display
server, and the loops that perform what the library asks for. It talks to a
phone through the trait in `app/core.rs`.

`tests/` runs the library, with the other crates linked in.
