# kitty_graphics

Support for the Kitty terminal graphics protocol inside a terminal
multiplexer pane, written in Verus: every function of the library carries a
`requires`/`ensures` contract that Verus proves, except a few thin
`external_body` wrappers around calls into std, `base64` and `flate2`
(UTF-8 validation, `String::push`, `char::from_u32`, base64 decoding, zlib
inflation, the clock). Their contracts are assumed, not proved; the clock
wrappers state nothing, and decoding results are named rather than
described. Each wrapper's doc comment says what is assumed.

- `apc_parser` picks graphics APC sequences (`ESC _ G … ESC \`) out of the
  byte stream and hands every other byte back untouched.
- `command` parses the control data (`key=value,…;payload`), `chunked`
  joins transmissions sent in several chunks, `payload` decodes base64 and
  zlib through the `base64` and `flate2` crates.
- `store` keeps a pane's images with their placements and animation frames,
  counts their bytes and evicts the least recently used ones past a limit.
- `transmit`, `query`, `placement`, `delete`, `animation` handle the protocol
  actions; `dispatcher` routes a complete APC to them.
- `placeholder`, `passthrough`, `response`, `cell_size`, `resize`,
  `lifecycle`, `memory` and `scroll_integration` build and read the byte
  sequences exchanged with the host terminal and the panes.
- `encoding`, `integer`, `text` and `accounting` are the shared building
  blocks (decimal rendering and parsing, UTF-8 text, sums of sizes).

`tests/` exercises the library on concrete values; `app/` gives its error
types `Display`.
