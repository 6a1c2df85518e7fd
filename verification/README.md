# pincel_core

The document model and the undoable editing commands of the Pincel
pixel-art editor, written in Verus: every function of the library carries
a contract, and the verifier proves the code against it.

## Layout

- `src/document/` — the sprite model mirroring the Aseprite v1.3 format:
  layers, frames, cels (kept in a key-sorted `CelMap`), palettes, tags,
  tilesets, slices, and the validating `SpriteBuilder`.
- `src/command/` — the commands (pixel, line, rectangle, ellipse and
  flood-fill drawing; layer, frame, slice, tileset and tile editing;
  moving selections; flipping, rotating and reframing the canvas; the
  checks of merging a layer down; the checks and the undo state of
  scaling the image), the
  `Command` trait whose contract ties `apply` to `revert`, and the undo
  `Bus`.
- `src/codec/` — the `.aseprite` reader (on top of the `aseprite-loader`
  parser, reached through the trusted items in `ase_loader.rs`), the
  staging of a sprite for the `.aseprite` writer with all of its checks,
  the data model of the PNG atlas export (frame selection, tag lookup,
  the grid layout and its size checks in their order, laying composed
  frames out on the atlas with its manifest, PNG encoding through the
  `png` crate, the JSON manifest's text), and
  `ase_scan.rs`, a scan of the file framing that finds the user-data
  chunks the parser cannot read safely.
- `tests/` — ordinary Rust tests of the compiled library.
- `app/` — host-side code the verifier does not see: the floating-point
  resampling and slice scaling of `ScaleImage` (its checks and its undo
  state are the library's), and the hand-off of a staged sprite to the
  `aseprite-writer` crate. `ScaleImage` stays outside the `AnyCommand`
  history, since its resampling is floating-point.

Not here: compositing a frame into pixels (layer blending), and with it the
work built on it (the pixels of merging a layer down and of flattening,
composing the frames that the PNG exports encode, text drawing with its
glyph coverage), and shape drawing, whose coverage masks come from the
editor's selection module.

## Trust

Besides Verus and `vstd`, the proofs rest on the contracts of the items in
`src/codec/ase_loader.rs`, each of which names the `aseprite-loader`
function it calls and states what is claimed of it, and on the PNG
encoder item in `src/codec/png.rs`, whose result is named as a function
of the pixels and the size. They leave out, by
their preconditions, the user-data chunks the parser cannot read safely
(a properties block whose size is below 8, or large enough to nest
property values deeper than the scan in `src/codec/ase_scan.rs` allows);
`try_read_aseprite` checks for those first and declines them.
