# symbolar

Typed high-dimensional symbolic representations (vector symbolic architectures),
a small expression language to compose them, and storages that name vectors and
relate them to the columns and rows of a table.

Layout:

- `src/expression/`: expressions (`Value`, `+`, `*`), their rendering, the parser,
  and the evaluation of an expression against a lookup of names. `laws.rs` proves
  that parsing a rendering gives the expression back and that equivalence of
  expressions (sums and products commute) is an equivalence relation.
- `src/vsa/`: sizes, the mathematical model of vectors (`model.rs`), typed vectors
  (`vector.rs`) and the architectures: binary spatter codes over bit vectors and
  multiply-add-permute over integer vectors (`architectures/`). `architectures/laws.rs`
  states what every operation keeps: unbinding, bundling a vector with itself,
  commutativity, and that binding keeps agreement.
- `src/storage/`: named vector storages, queries and selections, tables and their
  columns, and subsets that bundle and bind the vectors of a table's rows.
- `app/`: what surrounds the verified library: cosine similarities as floating-point
  numbers, vectors read from floating-point data, tables read from polars data
  frames, and the floating-point vector-derived transformation binding.
- `tests/`: the tests, run against the compiled library.

Every function under `src/` is verified with Verus; the calls into `bitvec`, `rand`
and `parking_lot` stand behind small trusted wrappers in
`src/vsa/architectures/bits.rs` and `src/vsa/architectures/rng.rs`.
