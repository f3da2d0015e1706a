# duckdb_turbovec

A DuckDB extension for compressed vector search with TurboQuant indexes
(`turbovec`), split in two:

- `src/` — the verified library: reading vectors and integer arguments from
  text, inferring dimensions, the bind and output decisions of each table
  function, k-means seeding and cluster grouping, the inverted-file header
  and id-map byte formats, and the framing of search hits into rows.
- `app/` — the extension itself: the DuckDB table functions, the
  floating-point work (parsing `f32`s, k-means, distances, sorting scores),
  index loading, adding and writing, and the CBLAS shim.

Modules of the library: `text` (list and nested-list reading), `rows`
(joining rows of values), `params` (unsigned integer arguments), `sizing`
(dimensions, seeding, grouping, probes), `codec` (header and id-map files),
`results` (output chunks and hit rows), `index` (creating an index, its
length and removal),
`vtabs` (one type per table function).
