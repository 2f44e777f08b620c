# incdb

A verified core of IncDB, a graph and vector database whose only primitive
entity is the *incidence*: an identified, typed, levelled tuple of arguments
with roles, an optional value and an optional embedding. Types, sets and
categories are patterns of incidences.

Layout:

- `src/` — the library, written in Verus. Every executable function carries
  a contract over a mathematical model (`GraphModel`, `IncidenceModel`,
  `ValueModel`, ...) and is proved to meet it; the laws of the library
  (read after write, index consistency, bisimilarity as the existence of
  a bisimulation and its symmetry and transitivity, Datalog fixed points,
  round trips of the interchange formats, walk and benchmark counts) are
  public proof functions.
  - `model` — values, incidences, the world graph and its laws, events.
  - `foundation` — structures, coinduction, bisimulation, types, universes.
  - `query` — coinductive exploration, Datalog, pattern and vector queries.
  - `vector` — embeddings and the inputs of embedding aggregation.
  - `ir` — JSON-LD and the internal JSON form, and conversions.
  - `api` — what the GraphQL and RPC APIs compute, independent of transport.
- `tests/` — tests of the library on concrete values.
- `app/` — the command-line tool and the GraphQL server around the library:
  argument handling, HTTP, JSON files, clocks, hashing and all
  floating-point work (similarities, averages, timings).

Floating-point numbers never enter the library: an `f32` component is held
by its bit pattern (`u32`), an `f64` value by its bit pattern (`u64`).
Values are compared as `==` compares them: floats as IEEE-754 numbers
(`-0.0` equals `0.0`, a NaN equals nothing), decided on the bits.
