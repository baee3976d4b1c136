# litnergy

A Deskflow (Barrier protocol) client whose protocol handling, clipboard
transfer and input-device logic are verified with Verus.

## Layout

- `src/` — the verified library.
  - `wire.rs`: big-endian integers on the wire.
  - `text.rs`: UTF-8 decoding, line-ending normalisation, decimal numbers.
  - `protocol.rs`: message codes, decoding server messages, framing, the
    handshake and the screen-information reply.
  - `clipboard.rs`: reassembling clipboard data from DCLP chunks, taking
    out its text or its bitmap (as a BMP file), and cutting local text into
    chunks, with the reassembly and round-trip laws.
  - `keyset.rs`: an ordered set of key codes.
  - `device.rs`: the keyboard/mouse state machine (held keys, Shift taps,
    emulated Caps Lock, scroll remainders, cursor and buttons) that turns
    server input into events to post.
  - `handler.rs`: one step of the message loop, from state and message to
    the next state and the outputs to carry out.
  - `config.rs`: the resolution argument and defaults.
  - `helper.rs`: screen geometry reported to the server and the Linux key
    code mapping.
- `app/` — the program: command line, TCP connection, message loop,
  clipboard tools and the CoreGraphics input back end.
- `tests/` — tests of the library.
