# ndc_spec

A verified library for Hasura's Native Data Connectors (NDC): the data
model of the specification, the query and mutation engine of the reference
connector, and the checks and request generators of the connector test
suite. The functions of `src/` carry contracts that Verus proves; the
few that call `rand`, `url`, `semver`, `regex`, `iso8601` or std's
lower-casing are trusted wrappers, whose contracts state what those
crates document and are not proved.

Layout:

- `src/` — the library.
  - Data model: `json`, `dict`, `schema`, `query`, `capabilities`,
    `relational`, `error`.
  - Reference connector: `state` (the tables and collections),
    `engine` (comparisons, aggregates, values), `semantics` (the meaning
    of a query, as spec functions, with its laws), `evaluate` (the query
    engine, proved against `semantics`), `mutation` (procedures),
    `reference` (capabilities, schema, version header).
  - Test suite: `validate` (responses against requests and schemas),
    `schema_check`, `versions`, `rowset`, `common`, `context`, `fixture`,
    `suite`, `random`, `reporter`.
  - Support: `strings`, `text`, `urls`.
- `tests/` — tests run against the compiled library.
- `app/` — the reference connector as an HTTP service: wire formats,
  data loading, routes and the floating-point arithmetic the library
  leaves to its caller.

Run the service with the data files (`articles.jsonl`, `authors.jsonl`,
`institutions.jsonl`, `countries.jsonl`) in the directory named by
`DATA_DIR`, on the port named by `PORT` (default 8080).
