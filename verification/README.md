# ousia_atscale

Maps every element of an AtScale semantic model (measures, dimensions, keys,
dates, hierarchies, ...) onto a BFO 2020 upper-level category, with a
rationale, and emits the grounding as an annotation overlay, a coverage
report, a diff between two models, and RDF (OWL/XML or Turtle).

The library in `src/` is written in Verus; its functions carry contracts that
Verus proves:

- `model`: the model types and the uniform element view of columns and groups
- `mapper`: the mapping rules and the `bfo_hint` override
- `annotate`: the overlay (one annotation per element name)
- `report`: coverage statistics, with `tally` for sorted per-key counts
- `diff`: element-by-element comparison of two models, joined by lower-cased name
- `rdf`, `turtle`: OWL/XML export, and Turtle export through `oxttl`
- `validate`: locating the `ousia-reason` reasoner and reading its verdict
- `text`, `order`, `error`: string helpers, lexicographic order, errors

`app/` holds the command line (`ground`, `annotate`, `report`, `export`), JSON
reading and writing with serde, printing, running the reasoner, and the four
MCP tools (`ground_model`, `coverage_report`, `diff_models`,
`validate_model`). Each tool is an `mcp_core` `Tool` definition with a
handler to register on an `mcp_core` server, around a synchronous call on the
JSON arguments.

Maps keyed by strings are held in sorted or name-unique vectors
(`annotate::AnnotationMap`, `tally::Tally`, the diff's name index) rather
than in `HashMap`. With a `HashMap<String, usize>`, Verus accepts `insert` but
cannot even show that the map has one entry after one insert, where the same
lines with a `u64` key verify. Keying by an integer id would need a table from
names to ids, which is a vector map again; so the vectors stay, and the
contracts state their contents as sequences of pairs.
