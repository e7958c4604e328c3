# primitive_dictionary

Reads a primitive Parquet column through its dictionary.

- The predicate reader (`make_primitive_predicate_reader`) asks a predicate once for each
  dictionary and once for each read of plain values. It gives the rows as a boolean filter in which
  a null row is `false`.
- The dictionary reader (`make_primitive_dictionary_reader`) keeps the keys of a dictionary and
  gives the rows as dictionary arrays with 32-bit keys. When keys of another dictionary or plain
  values follow, it goes over to values and packs them once a batch is consumed.

`src/` is the library. Every function there is verified; `arrow.rs` holds what is trusted of
`arrow-array`, `arrow-buffer`, `arrow-schema` and `bytes`, and `shared.rs` what is trusted of `Arc`.
`laws.rs` and `batch_laws.rs` hold what is proved of the readers as a whole, and `question_laws.rs`
how often a predicate is asked. `app/` puts the readers over a source of pages.

| module             | what it holds                                               |
|--------------------|-------------------------------------------------------------|
| `bits`             | packed bitmaps                                              |
| `rle`              | runs of dictionary indices                                  |
| `plain`            | plain values                                                |
| `shared`           | a dictionary that is held in several places                 |
| `nested`           | which types an empty array can be made of                   |
| `types`            | columns and their physical types                            |
| `column`           | what a decoder and a buffer of values are                   |
| `asked`            | a predicate, and what it has been asked                     |
| `predicate`        | the decoder that gives the answers of a predicate           |
| `dictionary`       | the decoder that gives dictionary keys                      |
| `filter`           | answers spread over the rows                                |
| `pack`             | dictionary encoding                                         |
| `rows`             | which rows of a page to go on with                          |
| `record_reader`    | the rows of a column, page after page                       |
| `reader`           | the two readers                                             |
