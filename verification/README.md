# comunicacao

A terminal chat room over TCP. One side hosts the room on port 7878; the
others join it by address. A participant's typed text travels as a frame (a
4-byte big-endian length, then the UTF-8 bytes); the host hands every message
out, as JSON in the same framing, to every participant but its author.

- `src/` is verified with Verus: text handling (`text`), people and messages
  (`utilities`), the wire formats (`framing`), the chat window's layout and
  key decisions (`chat_window`), the start-up choice (`modo`), and the
  per-event logic of the host (`server`) and of a participant (`client`).
- `app/` is the program around it: standard input, sockets, the accepting
  thread, JSON, random colours and the ratatui/crossterm terminal.
