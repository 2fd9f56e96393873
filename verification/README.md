# openapi_schema_to_json_schema

Convert an OpenAPI 3.0 Schema Object into a JSON Schema draft-04 document,
with the conversion specified and proved in [Verus](https://github.com/verus-lang/verus).

## Layout

- `src/` — the verified library.
  - `json.rs`: the document model (`Json`) and its mathematical view
    (`JsonV`); object members, truthiness, copying.
  - `schema.rs`: the conversion, written as spec functions; `convert.rs`
    and `steps.rs`: the executable converter, proved equal to it.
  - `parameter.rs`: Parameter and Response Objects.
  - `options.rs`: options, their defaults and resolution.
  - `transform.rs`: the hooks a caller can plug in (`Hooks`, `NoHooks`).
  - `number.rs`: numeric format bounds, compared exactly as doubles.
  - `path.rs`: dotted and bracketed paths for definition keywords, and
    that reading a path after writing it gives the written value.
  - `pattern.rs`, `equality.rs`: the default `patternProperties` handler and
    deep equality.
  - `render.rs`: compact JSON text, used in error messages.
  - `laws.rs`: properties proved of every conversion; `step_laws.rs`:
    what each step (struct keywords, `properties` and `required`,
    definition keywords, `content`) does to the node it is given, and
    that the finishing steps leave their own result unchanged.
- `app/` — the `serde_json::Value` interface: `from_schema`,
  `from_parameter`, and `Options` with closure hooks.
- `tests/` — scenario tests, run against the compiled library.

## Use

```rust
use openapi_schema_to_json_schema::{from_schema, options::Options};

// `schema` is a `json::Json` document.
let converted = from_schema(schema, &Options::new());
```

Every executable function states its result in its contract; `from_schema`
returns exactly `convert_root(NoHooks, resolve(options@), schema@)`.
