# air

Verified core pieces of the AIR interpreter: stream value matrices, scoped stream maps
and their compaction into the execution trace, canon stream maps, lambdas applied to
call results, and the reading of the interpreter outcome record. Everything under
`src/` is verified by Verus; `app/` holds the edges (conversions to and from
`serde_json`, `fluence-it-types` and the `marine` record) and is plain Rust.

## Modules

- `values_matrix`, `stream`, `stream_map`, `stream_maps_variables`: values by
  generation, streams, stream maps and their scopes; compaction writes the final
  generations into the trace held by `trace_handler`.
- `value_types::canon_stream_map`, `boxed_value::canon_stream_map`: maps built from
  canon streams of key-value pair objects.
- `value_types::jvaluable::resolved_call_result`, `lambda_ast`: lambdas applied to
  values.
- `interpreter_outcome`: the outcome record and the error texts of refused records.
- `json`, `value_aggregate`, `security_tetraplet`, `stream_map_key`, `errors`,
  `generation`: the values these work on.
- `assoc`, `results`, `text`: association lists, collecting results, text building.

## How the data is held

- JSON values and interface-types values are types of this crate (`JValue`, `IValue`)
  with plain fields, so that contracts can speak of them; `app/` converts. A float of
  an interface value is held as the text `{:?}` writes for it, the only thing read of
  it here; `app/` makes that text.
- The generations of a matrix are a `Vec<Vec<T>>` indexed by `GenerationIdx`. A
  `typed_index_collections::TiVec` could only be specified through an uninterpreted
  function generic over the item type, while vstd specifies `Vec` fully.
- Maps keyed by strings (stream maps by name, canon streams by key) are vectors of
  pairs that hold each key once. vstd gives no specification for hash maps with
  `String` keys, and the order in which a `HashMap` is walked is not a function of its
  contents; the order in which compaction visits names is therefore stated through
  `StreamMaps::compaction_order`.
- Values are copied where the interpreter shares them through `Rc`: vstd specifies no
  `Rc::clone`, and a copy has the same value.
- Texts of values whose `Display` lives outside this crate (`ValuesMatrix`,
  `StreamMaps`, the canon stream maps) are built from the texts of their parts, which
  the caller supplies; the parts come from `generations`, `last_descriptors`, `entries`
  and `values`, whose contracts tie them to the values shown.
