# tpt-kinetix-av1

An AV1 decoding library, verified with Verus. It parses open bitstream units, sequence
headers and frame headers, decodes symbols and coefficients, reconstructs intra and inter
blocks of eight bit 4:2:0 pictures, deblocks and enhances them, and keeps reference
pictures.

* `src/` is the library. Every function states what it computes over a mathematical
  model: `session.rs` says what decoding a packet comes to, `tile.rs` what decoding a
  superblock does, and so on down to single bits. Functions whose names start with `law_`
  are theorems about these models.
* `tests/` runs the library on concrete values.
* `app/` is ordinary code around it: error texts, threads, traces on disk.

The default probability tables of coefficients and modes are handed to the decoder by its
caller (`tile_group::Tables`).
