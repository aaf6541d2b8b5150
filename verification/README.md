# component-script-rhai

A Greentic component that runs a user-provided Rhai script over an invocation
envelope (`config`, `msg`, `payload`, `state`, `connections`) and returns a
structured result: the payload, the routing (`out`/`err` connections), the
state updates, and any error.

## Layout

- `src/` — the library, verified with Verus.
  - `json.rs`: the library's JSON documents (`JsonValue`), their values (`Json`),
    JSON equality and well-formedness.
  - `model.rs`: configuration, envelope and result types; reading the
    `__greentic` routing directives.
  - `state_updates.rs`: the state updates between two states, with the laws
    that unchanged states report nothing, that the updates name exactly the
    new or changed keys, and that applying them to the old state gives the new
    one when no key goes missing.
  - `rhai_value.rs`: what the library reads of Rhai values, the calls into
    `rhai` that build and read them, and the conversions to and from JSON.
  - `script_engine.rs`: running a script in the invocation's scope and reading
    the outcome (the state persists even when the script raises an error). With
    `on_error: continue` a script error does not fail the component.
  - `component.rs`: checking the input and configuration, building the result,
    and the component manifest.
- `app/` — JSON text and serde forms of the types, the WebAssembly guest
  bindings, and the `hash-wasm` tool.
- `tests/` — the conformance tests and tests of the library's functions.
