# tree_buf

Tree-Buf is a compact binary format for trees of data: a document holds a
root branch, the columns of values that stand in arrays, and the lengths of
those columns at its end.

This crate is the format's core, written in Verus: each decoder is proved
against a specification of the bytes it accepts, and each encoder against
the bytes it writes. The round trips of the byte-level encodings (varints,
packed booleans, delta, boolean runs, identifiers, branch ids, type ids, zfp
headers) and of a document's column lengths are proved as lemmas; a round
trip of a whole document is not, since how each type is written is left to
its implementation of the encoding traits.

Layout:

- `src/` — the verified library: type ids, the byte-level encodings
  (varints, packed booleans, run-length, dictionary, delta, gorilla words,
  zfp headers), the root and array branches of a document, the encode
  stream and traits, options, buffers and the size breakdown of a document.
- `tests/` — tests of the library on concrete values.
- `app/` — ordinary Rust around the library: the code generators of the
  derive macros, float columns (gibbon and the zfp C library), and the error
  type with `Display`.
