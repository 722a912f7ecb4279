# tmux-cmc

Client side of the tmux control-mode protocol (`tmux -CC`), with its protocol
logic verified in Verus.

- `src/` — the verified library: the line parser (`protocol`), notification
  decoding and output unescaping (`notification`), command builders and
  argument escaping (`command`), the reader's response demultiplexing state
  machine (`reader`), the FIFO of waiting callers (`queue`), responses and what
  the client makes of them (`response`), typed ids (`ids`), decimal numbers
  (`number`), character helpers (`text`), connection settings and the
  handshake outcome (`connection`), and the error type (`error`).
- `app/` — the plumbing around it: spawning tmux on a pty, the reader and
  writer threads, the handshake wait, and the `Client` handle.
- `tests/` — tests of the library on concrete inputs.
