# linguagraph

A library for knowledge graphs that are built from documents and asked questions in
natural language. It plans what is written to the graph, browses what is there, and
checks a loaded graph against suites of questions. The library under `src/` is
written in Verus: each function carries a contract, and each contract is proved.

## Layout

- `src/graph`: entities, relations, ontologies, the graph builder, projections of a
  live schema, and specifications with their vectors.
- `src/ingest`: planning of insert batches from documents, extracted rows and built
  graphs, deletion plans, and the merging of entities that have no key of their own.
- `src/explore`: queries, row decoding, tables, subgraphs, timelines and exports.
- `src/embeddings`: sparse terms, the vector cache, the vector store and batching.
- `src/e2e`: suites of questions, from prefixes and indexes to reports.
- `src/json.rs`, `src/literal.rs`, `src/db.rs`, `src/dsl.rs`, `src/ast.rs`: the values
  that the rest is about.
- `src/text.rs`, `src/strmap.rs`, `src/textset.rs`, `src/sorting.rs`, `src/seqs.rs`,
  `src/groups.rs`, `src/floats.rs`: texts, maps in key order, sorting and sequences.
- `tests`: tests of the library.
- `app`: files, databases, models and vectors in floating point around the library.

## Conventions

A type `T` has a model `TModel`, which `deep_view` gives, and contracts speak of
models. A floating point number is held by its bits; arithmetic on it is done in
`app`, and the library takes the outcome. What is asynchronous is a step function
here: it takes what is known so far and says what to do next.
