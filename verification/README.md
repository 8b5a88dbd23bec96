# mc_server

A small Minecraft server (protocol 763, version 1.20) whose protocol logic is
verified with Verus.

- `src/` is the verified library: VarInt coding (`varint`), big-endian
  integers (`bytes`), packet framing (`packet`), GUID text (`player`), the
  handshake and what follows it (`handshake`), the login start packet
  (`login`), the join-game data (`play`), the status response (`status`)
  and the BSON documents it is written through (`document`).
- `app/` is the server around it: sockets, the settings file and the
  registry codec file.
- `tests/` runs the library on concrete packets.
