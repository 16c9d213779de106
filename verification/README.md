# imgforge

A library that writes Garmin IMG map files, with every encoder, splitter
and routing helper verified by Verus against its contract.

## Layout

- `src/` — the verified library.
  - `bytes.rs`, `strings.rs`, `text.rs`: little-endian encoding and text helpers.
  - `img/`: the IMG subfiles and their parts. This covers the common header, LBL
    with its label encodings, NET, NOD (route centers, NOD1 to NOD4), the
    polyline, polygon and subdivision records, TDB and MPS, GMP, the
    filesystem block layout, the overview map and the DEM subfile.
    It also holds the area splitter (`splitter.rs`) and the geometry filters
    (`filters/`).
  - `dem/`: elevation input formats (HGT, ASC) and format detection.
  - `parser/`: the types of a Polish-format map and the level list.
  - `routing.rs`: node identifiers and junction finding.
- `tests/` — tests of the library on concrete values.
- `app/` — the command line program. It covers reading files,
  floating-point geometry, reprojection and reports, and calls the library
  for everything else.

## Verification

Each public function states in `requires`/`ensures` what it returns. The laws
that relate several functions are public proof functions, most of them
named `lemma_*`. Verus proves all of them; `#[verifier::external_body]` marks
the few calls into `std` and `byteorder` whose contracts are trusted.
