# justbig2

A JBIG2 (ITU T.88) bi-level image decoder written in Verus: every function of the
library carries a contract, and Verus proves that the code meets it.

## Layout

- `src/` — the verified library.
  - `image.rs`: bitmaps, pixel access, resizing and composition, with laws on reading
    back written pixels, resizing and composing.
  - `arith.rs`, `arith_int.rs`, `arith_iaid.rs`: the QM arithmetic decoder and its
    integer and symbol-ID procedures, each stated as a function of the input bytes.
  - `huffman.rs`: Huffman tables (prefix code assignment, standard and user tables) and
    the Huffman bit reader.
  - `mmr_tables.rs`, `mmr.rs`, `mmr_region.rs`: CCITT Group 4 (MMR) decoding.
  - `generic.rs`, `refinement.rs`, `text.rs`, `halftone.rs`, `symbol_dict.rs`: region
    and dictionary decoding.
  - `bitreader.rs`, `bytes.rs`, `header.rs`, `segment.rs`, `page.rs`: parsing and pages.
  - `decoder.rs`: the streaming decoder; `stream.rs`: what decoding a stream does, step
    by step, as spec functions, with the law that feeding a stream in pieces decodes it
    as feeding it at once.
  - `lib.rs`: one-shot `decode` and `decode_embedded`, and the `Page` type.
- `tests/` — tests of the library.
- `app/` — standard-library glue: an error type with `Display` and `std::error::Error`.

## Segments handled by the streaming decoder

| Type | Segment | Handling |
|------|---------|----------|
| 0 | Symbol dictionary | parameters read; the dictionary gets its slots, glyph bitmaps are not decoded |
| 6, 7 | Immediate text region | decoded (arithmetic coding) and combined into the page |
| 38, 39 | Immediate generic region | decoded (arithmetic or MMR) and combined into the page |
| 42, 43 | Immediate refinement region | the page region at its position is refined and combined back; one that refers to other segments is refused |
| 48 | Page information | a new page |
| 49, 50, 51 | End of page / stripe / file | page completed, end row, end of stream |
| 53 | Code table | checked; refused when the table is malformed |
| 36, 54 | Intermediate generic region, colour palette | refused |
| others | intermediate text and refinement regions, pattern dictionaries, halftone regions, profiles, extensions | read and skipped |
