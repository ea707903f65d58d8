# mc_http

A Minecraft handshake proxy built on io_uring, with its logic verified by Verus.

- `src/` is the verified library:
  - `gen_vec` — a vector addressed by generational indices (`U16GenVec`, `GenIdx`);
  - `parser` — the handshake parser (`Buffer`, `UnifiedHandshakeFormat::from_bytes`) for both the
    modern and the pre-1.7 handshake formats;
  - `token` — the io_uring user-data layout of operation tokens;
  - `socket` — the checks made when an accept operation completes;
  - `config` — the configuration data and the hostname-to-server routing rule;
  - `utils` — branch hints.
- `app/` is the program: argument handling, configuration loading and watching, the io_uring
  event loop.
- `tests/` exercises the library.
