# zipease-extract

The archive logic of the ZipEase extractor, verified with Verus.

`src/` is the library. Verus checks its functions against their `requires`/`ensures`
contracts, stated over the mathematical models in the same files (spec functions over
`Seq<u8>`, `Seq<char>` and model structs reached through `@`). The exception is the
trusted wrappers marked `#[verifier::external_body]` (about twenty, in `checksum.rs`,
`text.rs`, `paths.rs`, `search/pattern.rs` and `extract/iso.rs`): each wraps a call
into `crc32fast`, `flate2`, `globset` or `std`, and Verus believes its contract
without proof. A few small functions carry no contract at all.

- `repair/` — damage diagnosis and repair of ZIP and RAR archives held in memory:
  signature scanning, header parsing, Central Directory reconstruction, RAR header
  CRC recomputation, the repair engine and the choice of the output path.
- `search/` — substring and glob search over entry names, with cancellation.
- `batch.rs` — which files count as archives, and the bookkeeping of a batch run.
- `extract/` — backend choice, the smart-extraction decision, where an entry may be
  written under the output directory, ZIP entry-name decoding, the choice of an entry
  to preview, ISO 9660 record parsing, and the integer parts
  of zip-bomb detection.
- `notify.rs`, `trash.rs`, `lock_detector.rs` — the text shown to the user.
- `bytes.rs`, `text.rs`, `paths.rs`, `checksum.rs`, `cancel.rs` — small building
  blocks, including the trusted wrappers; where a call's result takes more than a
  few lines to describe, the wrapper's contract gives it a name instead.

`app/` is the unverified shell around it: file and archive I/O through the `zip`,
`cab` and `unrar` crates, the C ABI used by the desktop application, logging,
floating-point progress and ratio computations, and desktop integration.

`tests/` exercises the library on concrete archives built in the tests.
