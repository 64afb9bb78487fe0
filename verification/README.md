# basedbrowser

The verified core of the BasedBrowser embedder, a web browser built on the Servo engine.

- `src/` is the library, written and proved with Verus. It holds the browsing history (with
  deduplication of reloads and a first-in-first-out cap), the bookmarks, the saved tab session and
  its restoration, the tab list, the chrome keyboard shortcuts, address-bar parsing, the history
  search, and the devtools network client: packet framing, the handshake as a step function, and
  the state machine that turns network events into records for the panel.
- `app/` is the thin program around it: reading and writing the JSON files under the user's
  configuration directory, the devtools socket, and the process entry point. It hands the library
  plain values and performs the actions the library decides on.
- `tests/` runs the library on concrete values.

Public proof functions in `src/` state the properties that hold across calls, such as the history
cap, the distinctness of bookmark URLs, the return of tab cycling to its start, the read-back of a
frame's length, and that the details of a network event are asked for at most once.
