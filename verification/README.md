# openrailsrs-formats

Readers for Microsoft Train Simulator / Open Rails data files: text
decoding (UTF-16, Windows-1252, UTF-8), SIMISA containers (plain and
zlib-compressed), the binary token format of shape and world files, the
S-expression lexer and reader, tile-name arithmetic, and the text scanners of
the typed file kinds (hazards, signal configuration, car spawners, paths,
includes, world and track-database helpers, cab views, activities).

## Layout

- `src/` — the library, written in Verus. Every function carries a
  `requires` / `ensures` contract over spec functions on bytes, characters and
  sequences, and the laws of the library (round trips, agreement between
  readers, bounds of the block reader) are proof functions.
- `tests/` — executable tests of the library on concrete inputs.
- `app/` — ordinary Rust around the library: reading files from disk,
  case-insensitive path resolution, tile catalogues, and the loaders whose
  values are floating point (shape meshes, cab views, activities, signal
  lamps, car lengths, path positions), built on the verified scanners.

The outside crates `encoding_rs` (legacy encodings) and `flate2` (zlib) are
called from the library through small trusted wrappers whose contracts name
what the call returns; `thiserror` gives the application's error type its
`Display`.

## What the crate leaves out

Several loaders are not part of this crate, because what they compute is
floating point from end to end (positions, rotations, lengths, curve
geometry, physical quantities), and the vehicle loaders would also need a
field catalogue and unit tables, which this crate does not carry:

- the World, TSection, Engine, Wagon, TrackDb, Route and Terrain loaders
  (their tag predicates, include scanners, graph queries and tile-name
  arithmetic are in `src/`);
- the brake-shoe curves and the friction readers' numeric fields, and the
  unit parsers (`parse_mass_kg` and the like);
- the file-kind dispatcher (`parse_msts_file`) and the printed vehicle audit
  report with its catalogue coverage ratios (the symbol classification that
  the audit rests on is `vehicle_audit::classify_vehicle_symbols`, and
  `app/vehicle_audit.rs` runs it on a file with a catalogue passed in).

Where a shape, consist or activity field may hold a decimal numeral, the
library says which atom fills the field and keeps the numeral's text; `app/`
reads that text as `f64`.
