# riscvrogue

A small text-mode roguelike and the pieces of the bare-metal RISC-V
terminal it runs on, written in Verus: the game logic, the dungeon
generator, the escape-sequence terminal, the keyboard queue and the
framebuffer pixel layout carry contracts that Verus proves.

## Layout

- `src/` — the verified library.
  - `dungeon.rs` — the procedural dungeon game: generation from a seed,
    field of view, rendering, combat, the options menu, and the laws that
    every tick keeps (the player stays on floor, the map never changes,
    hit points never rise, experience counts kills, explored cells stay
    explored).
  - `generate.rs`, `links.rs`, `room.rs`, `tiles.rs`, `union_find.rs`,
    `line.rs`, `rng.rs` — room layout on a three-by-three grid, corridor
    planning that connects every room, tile carving, union-find,
    Bresenham lines, and the seeded xoshiro256++ generator.
  - `engine.rs`, `io.rs`, `input.rs`, `demo.rs`, `map.rs` — the console
    trait, the game context, key decoding, and the walking demo.
  - `terminal.rs`, `keyboard.rs`, `framebuffer.rs`, `devices.rs`,
    `serial.rs`, `boot.rs` — the kernel console's ANSI parser, evdev key
    queue, pixel writes, VirtIO device scan, serial line bytes, and the
    boot seed.
- `tests/` — tests of the library on concrete values.
- `app/` — the program around it: the game loops, the firmware calls,
  the VirtIO framebuffer console, and the boot sequence.
