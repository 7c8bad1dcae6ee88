# rrdf

An in-memory RDF triple store with a SPARQL query engine, verified with Verus.

## Layout

- `src/` — the verified library.
  - `store.rs`: the triple store (subjects with their predicate/object entries,
    namespaces, blank nodes, containers, lists, reification, extension functions).
  - `object.rs`: RDF values (`Object`) and their model (`Term`); literal parsing.
  - `namespace.rs`: prefixed names and their expansion and contraction.
  - `operators.rs`, `functions.rs`, `expression.rs`: SPARQL operators, built-in
    functions and expression evaluation.
  - `query.rs`: the query algebra (basic patterns, groups, OPTIONAL, FILTER, BIND),
    solution modifiers (ORDER BY, DISTINCT, LIMIT) and selectors.
  - `sparql.rs`: the SPARQL parser and compiler; `query_spec` states the grammar the
    parser accepts and the query it reads from a text.
  - `solution.rs`: query results.
  - `text.rs`, `number.rs`, `float.rs`, `datetime.rs`: characters and strings, C-style
    number reading, binary64 values kept as bits, and dateTime values (through the
    `time` crate).
- `app/` — binary64 arithmetic and conversions, which the verified library leaves out.
- `tests/` — tests of the library.

Public functions state their behaviour in `ensures` over the models in the spec
functions; laws that relate several operations are public proof functions whose names
begin with `law_`. Two dateTimes are ordered by the instant they name: the fields read as
UTC (through the `time` crate's `timegm`), less the offset. What rests on chance or on
outside code is stated only as far as it can be: RAND, the clock, and the values of
extension functions that users register. Query evaluation is stated exactly for queries
without RAND or calls of such extensions (see `plain_algebra`); otherwise its contracts
state the shape of the result and, for ORDER BY, that the rows are only reordered.
