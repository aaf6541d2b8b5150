//! Handling an invocation: checking its input and configuration, running the script
//! and building the result; and the component's manifest.
use vstd::prelude::*;

use crate::json::{
    json_wf, keys_unique, lemma_value_of_index, lemma_view_entries, obj_get, view_entries, Json,
    JsonValue,
};
use crate::model::{
    config_error, envelope_wf, null_to_empty_object, opt_view, ComponentControl, ComponentError,
    ComponentResult, ControlView, DirectivesView, ErrorView, GreenticDirectives, InvocationEnvelope,
    OnError, ResultMode, ResultView, ScriptConfig,
};
use crate::rhai_value::{json_of_script, RhaiValue};
use crate::script_engine::{
    execute_script, invocation_scope, scope_lookup, script_outcome, script_run, OutcomeView,
};
use crate::state_updates::{compute_state_updates, state_diff};

verus! {

/// The object with the single entry `key: value`.
pub open spec fn single_entry(key: Seq<char>, value: Json) -> Json {
    Json::Obj(seq![(key, value)])
}

/// Builds the object with the single entry `key: value`.
pub fn single_entry_object(key: &str, value: JsonValue) -> (r: JsonValue)
    ensures
        r@ == single_entry(key@, value@),
        json_wf(value@) ==> json_wf(r@),
{
    let entries = vec![(String::from_str(key), value)];
    proof {
        lemma_view_entries(entries@);
        assert(crate::json::view_entries(entries@) =~= seq![(key@, value@)]);
    }
    JsonValue::Object(entries)
}

/// The error reported for a script error with message `msg`.
pub open spec fn script_error_view(msg: Seq<char>) -> ErrorView {
    ErrorView { kind: "ScriptError"@, message: "Script error: "@ + msg, details: None }
}

/// The error reported when a script's result cannot be read as JSON.
pub open spec fn conversion_error_view(msg: Seq<char>) -> ErrorView {
    ErrorView { kind: "SerializationError"@, message: msg, details: None }
}

/// The payload reported when a script's result cannot be read as JSON.
pub open spec fn conversion_error_payload() -> Json {
    single_entry("error"@, Json::Str("Failed to convert Rhai result to JSON"@))
}

/// The payload, routing and error of an invocation, from the configuration and what
/// running the script gave.
///
/// A conversion error wins: the payload then reports it, with no routing. Otherwise
/// directives set the payload (their `payload`, or `null`) and the routing (present
/// when they name `out` or `err` connections); without directives the script's value
/// is the payload, wrapped as `{"output": value}` in `Wrap` mode. Under `Fail`, a
/// script error fails the component: it is reported, and when the payload is still
/// `null` the payload becomes `{"error": message}`. Under `Continue`, a script error
/// is not reported and the payload stays as it is.
pub open spec fn component_result(
    result_mode: ResultMode,
    on_error: OnError,
    script_value: Option<Json>,
    directives: Option<DirectivesView>,
    script_error: Option<Seq<char>>,
    conversion_error: Option<Seq<char>>,
) -> (Json, Option<ControlView>, Option<ErrorView>) {
    match conversion_error {
        Some(c) => (conversion_error_payload(), None, Some(conversion_error_view(c))),
        None => {
            let error = match script_error {
                Some(m) => if on_error == OnError::Fail {
                    Some(script_error_view(m))
                } else {
                    None
                },
                None => None,
            };
            let payload = match directives {
                Some(d) => match d.payload {
                    Some(p) => p,
                    None => Json::Null,
                },
                None => match script_value {
                    Some(v) => match result_mode {
                        ResultMode::Wrap => single_entry("output"@, v),
                        ResultMode::Raw => v,
                    },
                    None => Json::Null,
                },
            };
            let control = match directives {
                Some(d) => if d.out is Some || d.err is Some {
                    Some(ControlView { out: d.out, err: d.err })
                } else {
                    None
                },
                None => None,
            };
            let payload = match error {
                Some(e) => if payload == Json::Null {
                    single_entry("error"@, Json::Str(e.message))
                } else {
                    payload
                },
                None => payload,
            };
            (payload, control, error)
        },
    }
}

/// Builds the payload, routing and error of an invocation (see `component_result`).
pub fn build_component_result(
    config: &ScriptConfig,
    script_value: Option<JsonValue>,
    directives: Option<GreenticDirectives>,
    script_error: Option<String>,
    conversion_error: Option<String>,
) -> (r: (JsonValue, Option<ComponentControl>, Option<ComponentError>))
    ensures
        (r.0@, opt_view(r.1), opt_view(r.2)) == component_result(
            config.result_mode,
            config.on_error,
            opt_view(script_value),
            opt_view(directives),
            opt_view(script_error),
            opt_view(conversion_error),
        ),
        (script_value matches Some(v) ==> json_wf(v@)) && (directives matches Some(d) ==> (
        d.payload matches Some(p) ==> json_wf(p@))) ==> json_wf(r.0@),
{
    let mut control: Option<ComponentControl> = None;
    let mut payload = JsonValue::Null;
    let fail = match config.on_error {
        OnError::Fail => true,
        OnError::Continue => false,
    };
    let mut error: Option<ComponentError> = match script_error {
        Some(msg) if fail => Some(
            ComponentError {
                kind: String::from_str("ScriptError"),
                message: String::from_str("Script error: ").concat(msg.as_str()),
                details: None,
            },
        ),
        _ => None,
    };

    if let Some(conv_err) = conversion_error {
        error = Some(
            ComponentError {
                kind: String::from_str("SerializationError"),
                message: conv_err,
                details: None,
            },
        );
        payload = single_entry_object(
            "error",
            JsonValue::String(String::from_str("Failed to convert Rhai result to JSON")),
        );
        return (payload, control, error);
    }
    if let Some(directives) = directives {
        if let Some(out) = directives.out {
            let mut c = match control {
                Some(c) => c,
                None => ComponentControl::default(),
            };
            c.out = Some(out);
            control = Some(c);
        }
        if let Some(err) = directives.err {
            let mut c = match control {
                Some(c) => c,
                None => ComponentControl::default(),
            };
            c.err = Some(err);
            control = Some(c);
        }
        payload = match directives.payload {
            Some(p) => p,
            None => JsonValue::Null,
        };
    } else if let Some(value) = script_value {
        payload = match config.result_mode {
            ResultMode::Wrap => single_entry_object("output", value),
            ResultMode::Raw => value,
        };
    }
    if error.is_some() && payload.is_null() {
        let message = match &error {
            Some(e) => e.message.clone(),
            None => String::new(),
        };
        payload = single_entry_object("error", JsonValue::String(message));
    }
    (payload, control, error)
}


/// The result of an invocation whose state was `state_in` and whose script run had
/// the outcome `o`: payload, routing and error as `component_result` gives them, and
/// the state updates between `state_in` and the state after the run.
pub open spec fn invocation_result(state_in: Json, result_mode: ResultMode, on_error: OnError, o: OutcomeView) -> ResultView {
    let (payload, control, error) = component_result(
        result_mode,
        on_error,
        o.script_value,
        o.directives,
        o.script_error,
        o.conversion_error,
    );
    ResultView { payload, state_updates: state_diff(state_in, o.state_out), control, error }
}

/// The error reported for an invocation that cannot be read, with the reader's message.
pub open spec fn invalid_input_view(msg: Seq<char>) -> ErrorView {
    ErrorView { kind: "InvalidInput"@, message: "Invalid invocation envelope: "@ + msg, details: None }
}

/// The envelope an invocation works on: `parsed` is the outcome of reading the raw
/// invocation (its error, the reader's message). A reading error is reported as
/// `InvalidInput`; a read envelope has its `null` documents replaced by empty objects.
pub fn prepare_invocation(parsed: Result<InvocationEnvelope, String>) -> (r: Result<InvocationEnvelope, ComponentError>)
    ensures
        match parsed {
            Err(e) => r matches Err(err) && err@ == invalid_input_view(e@),
            Ok(env) => r matches Ok(n) && {
                &&& n.config@ == null_to_empty_object(env.config@)
                &&& n.payload@ == null_to_empty_object(env.payload@)
                &&& n.state@ == null_to_empty_object(env.state@)
                &&& n.msg == env.msg
                &&& n.connections == env.connections
                &&& (envelope_wf(env) ==> envelope_wf(n))
            },
        },
{
    match parsed {
        Err(e) => Err(
            ComponentError {
                kind: String::from_str("InvalidInput"),
                message: String::from_str("Invalid invocation envelope: ").concat(e.as_str()),
                details: None,
            },
        ),
        Ok(mut envelope) => {
            envelope.normalize();
            Ok(envelope)
        },
    }
}

/// Handles an invocation: `parsed_config` is the outcome of reading the envelope's
/// `config` document into a configuration. A configuration that cannot be used is
/// reported as `InvalidConfig`, with the configuration document as details. Otherwise
/// the script runs over the envelope, and the result reports the payload, routing and
/// error (see `component_result`) and the state updates between the envelope's state
/// and the state the run left behind (see `state_diff`), even when the script raised
/// an error.
pub fn handle_invocation(envelope: InvocationEnvelope, parsed_config: Result<ScriptConfig, String>) -> (r: Result<ComponentResult, ComponentError>)
    requires
        envelope_wf(envelope),
    ensures
        match config_error(parsed_config) {
            Some(m) => r matches Err(e) && e@ == ErrorView {
                kind: "InvalidConfig"@,
                message: m,
                details: Some(envelope.config@),
            },
            None => r matches Ok(res) && exists|
                vars_in: Seq<(Seq<char>, RhaiValue)>,
                eval: Result<RhaiValue, Seq<char>>,
                vars_out: Seq<(Seq<char>, RhaiValue)>,
            |
                #[trigger] script_run(parsed_config->Ok_0.script@, vars_in, eval, vars_out)
                    && invocation_scope(envelope, vars_in)
                    && res@ == invocation_result(
                    envelope.state@,
                    parsed_config->Ok_0.result_mode,
                    parsed_config->Ok_0.on_error,
                    script_outcome(envelope.state@, scope_lookup(vars_out, "state"@), eval),
                ),
        },
{
    let config = match ScriptConfig::from_value(parsed_config) {
        Ok(c) => c,
        Err(message) => {
            return Err(
                ComponentError {
                    kind: String::from_str("InvalidConfig"),
                    message,
                    details: Some(envelope.config.duplicate()),
                },
            );
        },
    };
    let outcome = execute_script(&envelope, &config);
    let ghost (vars_in, eval, vars_out) = choose|
        vars_in: Seq<(Seq<char>, RhaiValue)>,
        eval: Result<RhaiValue, Seq<char>>,
        vars_out: Seq<(Seq<char>, RhaiValue)>,
    |
        #[trigger] script_run(config.script@, vars_in, eval, vars_out) && invocation_scope(envelope, vars_in)
            && outcome@ == script_outcome(envelope.state@, scope_lookup(vars_out, "state"@), eval);
    let state_updates = compute_state_updates(&envelope.state, &outcome.state_out);
    let ghost o = outcome@;
    let (payload, control, error) = build_component_result(
        &config,
        outcome.script_value,
        outcome.directives,
        outcome.script_error,
        outcome.conversion_error,
    );
    let res = ComponentResult { payload, state_updates, control, error };
    assert(res@ == invocation_result(envelope.state@, config.result_mode, config.on_error, o));
    assert(script_run(config.script@, vars_in, eval, vars_out));
    Ok(res)
}

/// The component's manifest.
pub open spec fn describe_document() -> Json {
    single_entry(
        "component"@,
        Json::Obj(
            seq![
                ("name"@, Json::Str("component-script-rhai"@)),
                ("org"@, Json::Str("ai.greentic"@)),
                ("version"@, Json::Str("0.1.0"@)),
                ("world"@, Json::Str("greentic:component/component@0.4.0"@)),
                ("schemas"@, Json::Obj(
                    seq![
                        ("component"@, Json::Str("schemas/component.schema.json"@)),
                        ("input"@, Json::Str("schemas/io/input.schema.json"@)),
                        ("output"@, Json::Str("schemas/io/output.schema.json"@)),
                    ],
                )),
            ],
        ),
    )
}

/// A string document.
fn text(s: &str) -> (r: JsonValue)
    ensures
        r@ == Json::Str(s@),
{
    JsonValue::String(String::from_str(s))
}

/// In an object whose keys are distinct, the key of an entry gives that entry's value.
proof fn lemma_obj_get_entry(entries: Seq<(Seq<char>, Json)>, j: int)
    requires
        keys_unique(entries),
        0 <= j < entries.len(),
    ensures
        obj_get(Json::Obj(entries), entries[j].0) == Some(entries[j].1),
{
    lemma_value_of_index(entries, j);
}

/// The manifest gives, under `component`, the component's name, organisation,
/// version and world, and the paths of its schemas.
proof fn lemma_manifest_entries()
    ensures
        ({
            let c = obj_get(describe_document(), "component"@)->Some_0;
            let sc = obj_get(c, "schemas"@)->Some_0;
            &&& obj_get(describe_document(), "component"@) is Some
            &&& obj_get(c, "name"@) == Some(Json::Str("component-script-rhai"@))
            &&& obj_get(c, "org"@) == Some(Json::Str("ai.greentic"@))
            &&& obj_get(c, "version"@) == Some(Json::Str("0.1.0"@))
            &&& obj_get(c, "world"@) == Some(Json::Str("greentic:component/component@0.4.0"@))
            &&& obj_get(c, "schemas"@) is Some
            &&& obj_get(sc, "component"@) == Some(Json::Str("schemas/component.schema.json"@))
            &&& obj_get(sc, "input"@) == Some(Json::Str("schemas/io/input.schema.json"@))
            &&& obj_get(sc, "output"@) == Some(Json::Str("schemas/io/output.schema.json"@))
        }),
{
    reveal_strlit("component");
    reveal_strlit("name");
    reveal_strlit("org");
    reveal_strlit("version");
    reveal_strlit("world");
    reveal_strlit("schemas");
    reveal_strlit("input");
    reveal_strlit("output");
    let top = describe_document()->Obj_0;
    lemma_obj_get_entry(top, 0);
    let ce = top[0].1->Obj_0;
    assert(keys_unique(ce)) by {
        assert("name"@.len() == 4 && "org"@.len() == 3 && "world"@.len() == 5);
        assert("version"@.len() == 7 && "schemas"@.len() == 7);
        assert("version"@[0] != "schemas"@[0]);
        assert(ce[0].0 == "name"@ && ce[1].0 == "org"@ && ce[2].0 == "version"@);
        assert(ce[3].0 == "world"@ && ce[4].0 == "schemas"@);
        assert(ce.len() == 5);
    }
    lemma_obj_get_entry(ce, 0);
    lemma_obj_get_entry(ce, 1);
    lemma_obj_get_entry(ce, 2);
    lemma_obj_get_entry(ce, 3);
    lemma_obj_get_entry(ce, 4);
    let se = ce[4].1->Obj_0;
    assert(keys_unique(se)) by {
        assert("component"@.len() == 9 && "input"@.len() == 5 && "output"@.len() == 6);
        assert(se[0].0 == "component"@ && se[1].0 == "input"@ && se[2].0 == "output"@);
        assert(se.len() == 3);
    }
    lemma_obj_get_entry(se, 0);
    lemma_obj_get_entry(se, 1);
    lemma_obj_get_entry(se, 2);
}

/// The component's manifest (see `describe_document`): under `component` it gives
/// the name `component-script-rhai`, the organisation `ai.greentic`, the version
/// `0.1.0`, the world `greentic:component/component@0.4.0` and, under `schemas`, the
/// paths of the component, input and output schemas.
pub fn describe_payload() -> (r: JsonValue)
    ensures
        r@ == describe_document(),
        obj_get(r@, "component"@) is Some,
        obj_get(obj_get(r@, "component"@)->Some_0, "name"@) == Some(
            Json::Str("component-script-rhai"@),
        ),
        obj_get(obj_get(r@, "component"@)->Some_0, "org"@) == Some(Json::Str("ai.greentic"@)),
        obj_get(obj_get(r@, "component"@)->Some_0, "version"@) == Some(Json::Str("0.1.0"@)),
        obj_get(obj_get(r@, "component"@)->Some_0, "world"@) == Some(
            Json::Str("greentic:component/component@0.4.0"@),
        ),
        obj_get(obj_get(r@, "component"@)->Some_0, "schemas"@) is Some,
        obj_get(
            obj_get(obj_get(r@, "component"@)->Some_0, "schemas"@)->Some_0,
            "component"@,
        ) == Some(Json::Str("schemas/component.schema.json"@)),
        obj_get(obj_get(obj_get(r@, "component"@)->Some_0, "schemas"@)->Some_0, "input"@)
            == Some(Json::Str("schemas/io/input.schema.json"@)),
        obj_get(obj_get(obj_get(r@, "component"@)->Some_0, "schemas"@)->Some_0, "output"@)
            == Some(Json::Str("schemas/io/output.schema.json"@)),
{
    proof {
        lemma_manifest_entries();
    }
    let schemas = vec![
        (String::from_str("component"), text("schemas/component.schema.json")),
        (String::from_str("input"), text("schemas/io/input.schema.json")),
        (String::from_str("output"), text("schemas/io/output.schema.json")),
    ];
    proof {
        lemma_view_entries(schemas@);
    }
    let schemas_value = JsonValue::Object(schemas);
    assert(schemas_value@ == Json::Obj(view_entries(schemas@)));
    let component = vec![
        (String::from_str("name"), text("component-script-rhai")),
        (String::from_str("org"), text("ai.greentic")),
        (String::from_str("version"), text("0.1.0")),
        (String::from_str("world"), text("greentic:component/component@0.4.0")),
        (String::from_str("schemas"), schemas_value),
    ];
    proof {
        lemma_view_entries(component@);
        assert(view_entries(schemas@) =~= seq![
            ("component"@, Json::Str("schemas/component.schema.json"@)),
            ("input"@, Json::Str("schemas/io/input.schema.json"@)),
            ("output"@, Json::Str("schemas/io/output.schema.json"@)),
        ]);
    }
    let component_value = JsonValue::Object(component);
    proof {
        assert(view_entries(component@) =~= describe_document()->Obj_0[0].1->Obj_0);
    }
    single_entry_object("component", component_value)
}


/// Law: the state updates of an invocation are the updates between the state it was
/// given and the state the run left behind, whatever the mode, whatever `on_error` says
/// and whether or not the script raised an error; in particular they are the same under
/// `Fail` and `Continue`.
pub proof fn lemma_state_updates_ignore_errors_and_modes(
    state_in: Json,
    result_mode: ResultMode,
    on_error: OnError,
    o: OutcomeView,
)
    ensures
        invocation_result(state_in, result_mode, on_error, o).state_updates == state_diff(state_in, o.state_out),
        invocation_result(state_in, result_mode, OnError::Fail, o).state_updates == invocation_result(
            state_in,
            ResultMode::Raw,
            OnError::Continue,
            o,
        ).state_updates,
{
}

/// Law: when the script leaves a `state` variable that reads as the document `j`, the
/// invocation reports the updates from the state it was given to `j`, whether the
/// script returned a value or raised an error, and whatever the configuration says.
pub proof fn lemma_script_state_changes_are_reported(
    state_in: Json,
    result_mode: ResultMode,
    on_error: OnError,
    vars_out: Seq<(Seq<char>, RhaiValue)>,
    eval: Result<RhaiValue, Seq<char>>,
    final_state: RhaiValue,
    j: Json,
)
    requires
        scope_lookup(vars_out, "state"@) == Some(final_state),
        json_of_script(final_state) == Ok::<Json, Seq<char>>(j),
    ensures
        invocation_result(
            state_in,
            result_mode,
            on_error,
            script_outcome(state_in, scope_lookup(vars_out, "state"@), eval),
        ).state_updates == state_diff(state_in, j),
{
}

/// Law: directives that name `out` or `err` connections make the result route to
/// exactly those connections, whether or not the other kind is named; directives that
/// name neither, and values without directives, give no routing. A conversion error
/// gives no routing.
pub proof fn lemma_routing_follows_directives(
    result_mode: ResultMode,
    on_error: OnError,
    script_value: Option<Json>,
    d: DirectivesView,
    script_error: Option<Seq<char>>,
    conversion_error: Option<Seq<char>>,
)
    ensures
        (d.out is Some || d.err is Some) ==> component_result(
            result_mode,
            on_error,
            script_value,
            Some(d),
            script_error,
            None,
        ).1 == Some((ControlView { out: d.out, err: d.err })),
        (d.out is None && d.err is None) ==> component_result(
            result_mode,
            on_error,
            script_value,
            Some(d),
            script_error,
            None,
        ).1 is None,
        component_result(result_mode, on_error, script_value, None, script_error, None).1 is None,
        conversion_error is Some ==> component_result(
            result_mode,
            on_error,
            script_value,
            Some(d),
            script_error,
            conversion_error,
        ).1 is None,
{
}

/// Law: without an error, directives set the payload to their `payload` (or `null`),
/// whatever value the script returned and whatever the mode; without directives the
/// payload is the returned value, as it is in `Raw` mode and under the key `output` in
/// `Wrap` mode.
pub proof fn lemma_payload_follows_directives_or_value(
    result_mode: ResultMode,
    on_error: OnError,
    script_value: Option<Json>,
    d: DirectivesView,
    v: Json,
)
    ensures
        component_result(result_mode, on_error, script_value, Some(d), None, None).0 == (match d.payload {
            Some(p) => p,
            None => Json::Null,
        }),
        component_result(ResultMode::Raw, on_error, Some(v), None, None, None).0 == v,
        component_result(ResultMode::Wrap, on_error, Some(v), None, None, None).0 == Json::Obj(
            seq![("output"@, v)],
        ),
{
}

}
