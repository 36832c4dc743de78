# cyberark-rdp

An RDP client for CyberArk Privilege Cloud `.rdp` files, with its logic as a
verified library and a thin program around it.

- `src/` — the library, with contracts and proofs:
  - `rdp_parser` — `.rdp` files (`key:type:value` lines) and their settings
  - `config` — configuration defaults and resolution strings
  - `connection` — connector settings, direct or gateway route, server key
  - `sia` — RDP Gateway (MS-TSGU): binary packets, HTTP chunked framing and
    decoding, channel and handshake decisions
  - `window` — framebuffer updates, scancodes and pointer flags
  - `ui`, `launch` — dialog answers and the choices made before connecting
  - `text` — characters, trimming and integer syntax shared by the parsers
- `tests/` — tests of the library on concrete values.
- `app/` — the program: command line, files, sockets, TLS, IronRDP session,
  window and dialog.

The entries of an `.rdp` file are held as a vector of (key, value) pairs with
distinct keys rather than a `HashMap<String, _>`: with `String` keys the map's
lookups come with nothing the proofs could use, while the vector's view is a
map that the parser's contract states exactly.
