# mad_rust_util

Shared pieces of the mad-rust mouse drivers and their interface, verified with
Verus.

- `src/tokenizer.rs` reads a macro description (`{+SHIFT}a{REPEAT}…`) into the
  tokens played when a button goes down, while it is held and when it is
  released. Its contract is a grammar (`lex_from`) and a machine over the
  lexemes (`interpret`, `finish`).
- `src/connection.rs` cuts a message into UDP datagrams (`encode_frames`) and
  gathers them back (`Packet`), and decides what a server does with a
  datagram and when a silent peer is dropped.
- `src/command.rs`, `src/encoding.rs` and `src/dispatch.rs` are the commands
  exchanged between a driver and the interface, their byte layout and the
  proof that it reads back.
- `src/thread.rs` reads lock results with poisoning ignored, holds a mutex with
  its condition variable (the operations that never block) and finds a second
  running instance in a process table.
- `app/` is the I/O around the library: configuration files, the UDP server
  and client, the process table, X11, the blocking lock and wait operations
  and the two-way broadcast channel.
