# osirs

Verified pieces of a small x86 teaching kernel, written in Verus.

`src/` is the library; Verus proves every function there, apart from the
`pc-keyboard` decoder (`keyboard::KeyDecoder::new` and `decode`), which it
takes on trust:

- `screen`: the 80x25 VGA text buffer as bytes, with cell-level specs.
- `vga`: the scrolling text console; `vga_line`: the one-row console.
- `graphics`: the sixteen VGA colours, background painting, colour bands
  and pictures.
- `snake`: the snake game, the screen included in its state.
- `seed_cycle`: the food seeds run through all 2^64 values, so a free
  cell is always found.
- `malloc`: the first-fit allocator over a 128-byte bus whose first 16
  bytes are the allocation bitmap.
- `keyboard`: interrupt vectors, the scancode ring, and the scancode
  decoder of `pc-keyboard` behind trusted items.
- `clock`: digit entry and the time of day shown from timer ticks.
- `wc`: line, word and byte counts.
- `message`: the text hidden in little-endian integers.

`app/` holds what touches the machine: copying screens into VGA memory, the
I/O ports, the interrupt controllers, the main loops, and the host tools
(`wc`, the message, the allocator exercise). `tests/` exercises the library.
