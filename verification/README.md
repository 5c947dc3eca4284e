# target_core

The core of a tunnel engine, proved with Verus. Clients come in through listeners (VLESS over
TCP or TLS, SOCKS5, Hysteria 2), rules decide which way out a connection takes (direct, in
fragments, through a VLESS or Hysteria 2 server, or nowhere), and traffic is counted per user
and per connection.

- `src/` decides and computes: what bytes on the wire mean and which bytes are sent, who is
  admitted, where a connection goes, how streams and datagrams are framed, shared and
  forgotten, and what the engine keeps about users and connections. Every function has a
  contract that is proved. Where something has to be done outside in between (a connection, a
  lookup, a pause), a type says what is to be done next and is told what came of it: `Dial`,
  `Handshake`, `Uplink`, `Pump`.
- `app/` does it: sockets, TLS, QUIC, tasks, files, the HTTP interface.
- `tests/` runs the library on concrete values.

The laws of the library, such as that what is written is read back, that an unknown user is
refused or that no datagram is lost between two steps, are the proof functions named `law_..`.

What is believed rather than proved are the contracts of the functions marked
`external_body`: they call the crates `bytes`, `uuid` and `rand`, and a few functions of the
standard library on text.
