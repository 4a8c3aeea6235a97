# bar_data

The data layer of a map editor for Beyond All Reason (the Spring / Recoil
engine), written in Verus: every function in `src/` carries a contract that
Verus proves, except a few small wrappers (marked
`#[verifier::external_body]`) that call `ddsfile`, `image` or std and whose
contracts Verus takes on trust; each says in its doc comment what it claims
of the call.

## Layout

- `src/` — the verified library.
  - `le` — little-endian reads and writes over byte sequences.
  - `dxt1` — the DXT1 (BC1) block codec: RGB565 packing, block decode,
    block encode.
  - `smt` — SMT tile files: DXT1 mip chains per 32×32 tile, the minimap
    chain, tile decode, BC1 assembly of a tile grid, SMT read and write.
  - `sd7`, `sd7_write` — SMF map files: header, height/metal/type maps, tile
    index map, minimap and feature placements; read, write, and the
    write-then-read law.
  - `s3o` — S3O model parsing into pieces, vertices and triangle indices.
  - `dds_layout` — where `ddsfile` finds a DDS layer, and the headers on
    which its `u32` size arithmetic stays in range.
  - `skybox`, `textures` — DDS decoding (uncompressed RGB(A) and BC1/2/3,
    2D mip chains and cubemaps) and image decoding by extension.
  - `water_assets`, `bar_install`, `resolution`, `cli`, `log_message`,
    `hash`, `text` — the smaller rules of the editor: engine water entries,
    install layout and start script, resolution badges, knob parsing, log
    text, lattice hashing, and string helpers.
- `tests/` — tests run against the compiled library.
- `app/` — the parts that touch the file system, archives, processes and
  floating point: path-based loaders, the install detector and launcher,
  the thumbnail cache, the log layer, and the `f32` heightmap, colour
  buffer and model views.

Floats that the binary formats carry are kept as their IEEE-754 bits in
`src/`; `app/` reads them as `f32`.
