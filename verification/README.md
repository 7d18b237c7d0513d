# tsfile

A library for the TsFile time-series file format whose core is verified with Verus.

- `src/utils`: the byte-level primitives of the format (big-endian integers through the
  `byteorder` crate, varints, zigzag, length-prefixed text and bytes), an in-memory
  reader, and the bloom filter of series paths.
- `src/common`, `src/error`, `src/compress`: type, encoding and compression codes,
  errors, and the (uncompressed) page compression.
- `src/encoding`: the plain and second-order-difference encoders and decoders.
- `src/file`: statistics, page and chunk headers, their serialisation and reading.
- `src/write`: page, chunk and chunk-group writers, records and the schema.
- `src/read`: time ranges, filters, the page and chunk readers, the sequential scan of
  a file's data region and its footer, columns and blocks of query results with their
  serialisation and reading, rows of several series, data sets read row by row with
  offsets, limits and null rules, the points of a series, the time ranges of a space
  partition, and query descriptions.

Every function in `src` carries a contract that Verus proves, except the few calls into
`byteorder` and `String::from_utf8`, whose contracts are stated beside them. The round-trip laws
(what a read gives back of a write, for pages, statistics, headers, chunks of any
number of pages, columns and blocks) are stated as proof functions next to the readers; laws over sequences
of calls (a page's point count, whether a chunk holds data) stand next to the writers.

Floating-point values are not held in `src`: the writers take no float, and a column
of floats or doubles is not read (`Unsupported`).

`app/` holds what stays outside the verified core: the floating-point sizing of bloom
filters, values that may be floats, and the filters that compare them.
