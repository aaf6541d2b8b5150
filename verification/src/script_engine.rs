//! Running a script over an invocation, and reading what it produced.
use vstd::prelude::*;

use rhai::{Dynamic, Engine, Scope};

use crate::json::{json_eq, json_wf, lemma_view_items, view_items, Json, JsonValue};
use crate::model::{
    directives_from_value, directives_of, envelope_wf, opt_view, DirectivesView, GreenticDirectives,
    InvocationEnvelope, ScriptConfig,
};
use crate::rhai_value::{
    dynamic_to_json, fits_script_ints, json_of_script, json_to_dynamic, lemma_script_roundtrip,
    script_matches_json, script_unit, RhaiValue, ScriptValue,
};
use crate::state_updates::{empty_object, state_diff};

verus! {

#[verifier::external_type_specification]
#[verifier::external_body]
pub struct ExEngine(Engine);

#[verifier::external_type_specification]
#[verifier::external_body]
pub struct ExScope<'a>(Scope<'a>);

/// `Engine::new`: a Rhai engine with the standard packages.
#[verifier::external_body]
fn new_engine() -> Engine {
    Engine::new()
}

/// A Rhai scope together with its variables (name and value, in the order they were
/// added; a later variable hides an earlier one of the same name).
pub struct ScriptScope {
    scope: Scope<'static>,
    vars: Ghost<Seq<(Seq<char>, RhaiValue)>>,
}

impl View for ScriptScope {
    type V = Seq<(Seq<char>, RhaiValue)>;

    closed spec fn view(&self) -> Seq<(Seq<char>, RhaiValue)> {
        self.vars@
    }
}

/// The value of the last variable named `name` among `vars`.
pub open spec fn scope_lookup(vars: Seq<(Seq<char>, RhaiValue)>, name: Seq<char>) -> Option<RhaiValue>
    decreases vars.len(),
{
    if vars.len() == 0 {
        None
    } else if vars.last().0 == name {
        Some(vars.last().1)
    } else {
        scope_lookup(vars.drop_last(), name)
    }
}

/// `Scope::new`: an empty scope.
#[verifier::external_body]
fn new_scope() -> (r: ScriptScope)
    ensures
        r@ == Seq::<(Seq<char>, RhaiValue)>::empty(),
{
    ScriptScope { scope: Scope::new(), vars: Ghost(Seq::empty()) }
}

/// `Scope::push_dynamic`: adds a variable `name` holding `value` after the others.
#[verifier::external_body]
fn scope_push(scope: &mut ScriptScope, name: &str, value: ScriptValue)
    ensures
        final(scope)@ == old(scope)@.push((name@, value@)),
{
    scope.scope.push_dynamic(name, value.dynamic);
}

/// Whether running `script` over the variables `vars_in` can return `result` (a value,
/// or an error's message) and leave the variables `vars_out`. This names a relation,
/// not a function: a script may read the clock or files, so one script over the same
/// variables may end in different ways.
pub uninterp spec fn script_run(
    script: Seq<char>,
    vars_in: Seq<(Seq<char>, RhaiValue)>,
    result: Result<RhaiValue, Seq<char>>,
    vars_out: Seq<(Seq<char>, RhaiValue)>,
) -> bool;

/// `Engine::eval_with_scope`: runs `script` over the variables of `scope` (which the
/// script may change or add to) and gives the value it returns, or the error's message.
/// The run is a run of `script` over the variables the scope held (`script_run`); what
/// the script computes is not stated.
#[verifier::external_body]
fn eval_with_scope(engine: &Engine, scope: &mut ScriptScope, script: &str) -> (r: Result<ScriptValue, String>)
    ensures
        script_run(script@, old(scope)@, eval_view(r), final(scope)@),
{
    engine.eval_with_scope::<Dynamic>(&mut scope.scope, script).map(
        |d| ScriptValue { dynamic: d, model: Ghost(arbitrary()) },
    ).map_err(|e| e.to_string())
}

/// `Scope::get_value::<Dynamic>`: the value of the last variable named `name`, if any.
#[verifier::external_body]
fn scope_get(scope: &ScriptScope, name: &str) -> (r: Option<ScriptValue>)
    ensures
        opt_view(r) == scope_lookup(scope@, name@),
{
    scope.scope.get_value::<Dynamic>(name).map(|d| ScriptValue { dynamic: d, model: Ghost(arbitrary()) })
}

/// What running a script produced, read as JSON.
#[derive(Debug)]
pub struct ScriptOutcome {
    /// The state after the script ran (the state before it, when that cannot be read).
    pub state_out: JsonValue,
    /// The value the script returned, when it returned one that can be read.
    pub script_value: Option<JsonValue>,
    /// The directives the returned value carries.
    pub directives: Option<GreenticDirectives>,
    /// The message of the error the script raised.
    pub script_error: Option<String>,
    /// Why the state or the returned value cannot be read.
    pub conversion_error: Option<String>,
}

/// An outcome, as values.
pub struct OutcomeView {
    pub state_out: Json,
    pub script_value: Option<Json>,
    pub directives: Option<DirectivesView>,
    pub script_error: Option<Seq<char>>,
    pub conversion_error: Option<Seq<char>>,
}

impl View for ScriptOutcome {
    type V = OutcomeView;

    open spec fn view(&self) -> OutcomeView {
        OutcomeView {
            state_out: self.state_out@,
            script_value: opt_view(self.script_value),
            directives: opt_view(self.directives),
            script_error: opt_view(self.script_error),
            conversion_error: opt_view(self.conversion_error),
        }
    }
}

/// The view of what running a script returned.
pub open spec fn eval_view(r: Result<ScriptValue, String>) -> Result<RhaiValue, Seq<char>> {
    match r {
        Ok(v) => Ok(v@),
        Err(e) => Err(e@),
    }
}

/// The outcome of a run, from the state before it (`state_in`), the final value of the
/// `state` variable (if any; unit otherwise) and what the script returned or raised.
/// The state after the run is the final `state` read as JSON, or `state_in` when it
/// cannot be read; this does not depend on whether the script raised an error.
/// A value that cannot be read is reported as a conversion error, which takes the
/// place of one about the state.
pub open spec fn script_outcome(
    state_in: Json,
    final_state: Option<RhaiValue>,
    eval: Result<RhaiValue, Seq<char>>,
) -> OutcomeView {
    let state_model = match final_state {
        Some(m) => m,
        None => RhaiValue::Unit,
    };
    let state_conv = json_of_script(state_model);
    let state_out = match state_conv {
        Ok(j) => j,
        Err(_) => state_in,
    };
    let state_error = match state_conv {
        Ok(_) => None,
        Err(e) => Some("Failed to convert state to JSON: "@ + e),
    };
    let script_error = match eval {
        Ok(_) => None,
        Err(e) => Some(e),
    };
    let script_value = match eval {
        Ok(v) => match json_of_script(v) {
            Ok(j) => Some(j),
            Err(_) => None,
        },
        Err(_) => None,
    };
    let conversion_error = match eval {
        Ok(v) => match json_of_script(v) {
            Ok(_) => state_error,
            Err(e) => Some("Failed to convert Rhai result to JSON: "@ + e),
        },
        Err(_) => state_error,
    };
    OutcomeView {
        state_out,
        script_value,
        directives: match script_value {
            Some(j) => directives_of(j),
            None => None,
        },
        script_error,
        conversion_error,
    }
}

/// Reads what a run produced (see `script_outcome`).
pub fn finish_script_run(
    state_in: &JsonValue,
    final_state: Option<ScriptValue>,
    eval_result: Result<ScriptValue, String>,
) -> (r: ScriptOutcome)
    requires
        json_wf(state_in@),
    ensures
        r@ == script_outcome(state_in@, opt_view(final_state), eval_view(eval_result)),
        json_wf(r.state_out@),
        r.script_value matches Some(v) ==> json_wf(v@),
{
    let mut script_error: Option<String> = None;
    let mut script_value: Option<ScriptValue> = None;
    match eval_result {
        Ok(value) => script_value = Some(value),
        Err(err) => script_error = Some(err),
    }
    let state_dynamic = match final_state {
        Some(v) => v,
        None => script_unit(),
    };
    let mut conversion_error: Option<String> = None;
    let state_out = match dynamic_to_json(&state_dynamic) {
        Ok(value) => value,
        Err(err) => {
            conversion_error = Some(String::from_str("Failed to convert state to JSON: ").concat(err.as_str()));
            state_in.duplicate()
        },
    };
    let script_value = match script_value {
        Some(value) => match dynamic_to_json(&value) {
            Ok(json) => Some(json),
            Err(err) => {
                conversion_error = Some(
                    String::from_str("Failed to convert Rhai result to JSON: ").concat(err.as_str()),
                );
                None
            },
        },
        None => None,
    };
    let directives = match &script_value {
        Some(v) => directives_from_value(v),
        None => None,
    };
    ScriptOutcome { state_out, script_value, directives, script_error, conversion_error }
}

/// The document holding the connection names, in order.
pub open spec fn connections_document(names: Seq<String>) -> Json {
    Json::Arr(names.map_values(|n: String| Json::Str(n@)))
}

/// The variables a script runs over for `invocation`: `msg` (the channel message, or
/// unit), `payload`, `state` and `connections` (an array of the connection names), in
/// that order, each holding what the invocation's document holds (see `script_matches_json`).
pub open spec fn invocation_scope(invocation: InvocationEnvelope, vars: Seq<(Seq<char>, RhaiValue)>) -> bool {
    &&& vars.len() == 4
    &&& vars[0].0 == "msg"@
    &&& match invocation.msg {
        Some(m) => script_matches_json(vars[0].1, m@),
        None => vars[0].1 == RhaiValue::Unit,
    }
    &&& vars[1].0 == "payload"@
    &&& script_matches_json(vars[1].1, invocation.payload@)
    &&& vars[2].0 == "state"@
    &&& script_matches_json(vars[2].1, invocation.state@)
    &&& vars[3].0 == "connections"@
    &&& script_matches_json(vars[3].1, connections_document(invocation.connections@))
}

/// The scope a script runs in for `invocation` (see `invocation_scope`).
pub fn script_scope(invocation: &InvocationEnvelope) -> (r: ScriptScope)
    requires
        envelope_wf(*invocation),
    ensures
        invocation_scope(*invocation, r@),
{
    let mut scope = new_scope();
    let msg_value = match &invocation.msg {
        Some(m) => m.duplicate(),
        None => JsonValue::Null,
    };
    let mut names: Vec<JsonValue> = Vec::new();
    let mut i: usize = 0;
    while i < invocation.connections.len()
        invariant
            0 <= i <= invocation.connections.len(),
            names.len() == i,
            forall|k: int| 0 <= k < i ==> (#[trigger] names@[k])@ == Json::Str(invocation.connections@[k]@),
        decreases invocation.connections.len() - i,
    {
        names.push(JsonValue::String(invocation.connections[i].clone()));
        i = i + 1;
    }
    let connections_value = JsonValue::Array(names);
    proof {
        lemma_view_items(names@);
        let nv = view_items(names@);
        assert(nv =~= invocation.connections@.map_values(|n: String| Json::Str(n@)));
        assert forall|k: int| 0 <= k < nv.len() implies json_wf(#[trigger] nv[k]) by {
            assert(nv[k] == names@[k]@);
        }
        assert(connections_value@ matches Json::Arr(its) && its == nv);
    }
    scope_push(&mut scope, "msg", json_to_dynamic(&msg_value));
    scope_push(&mut scope, "payload", json_to_dynamic(&invocation.payload));
    scope_push(&mut scope, "state", json_to_dynamic(&invocation.state));
    scope_push(&mut scope, "connections", json_to_dynamic(&connections_value));
    scope
}

/// Runs the configured script in the invocation's scope (see `invocation_scope`); the
/// outcome is read from what that run of the script returned or raised and from the
/// final value of `state` (see `script_run` and `script_outcome`).
pub fn execute_script(invocation: &InvocationEnvelope, config: &ScriptConfig) -> (r: ScriptOutcome)
    requires
        envelope_wf(*invocation),
    ensures
        exists|vars_in: Seq<(Seq<char>, RhaiValue)>, eval: Result<RhaiValue, Seq<char>>, vars_out: Seq<(Seq<char>, RhaiValue)>|
            #[trigger] script_run(config.script@, vars_in, eval, vars_out)
                && invocation_scope(*invocation, vars_in)
                && r@ == script_outcome(invocation.state@, scope_lookup(vars_out, "state"@), eval),
        json_wf(r.state_out@),
        r.script_value matches Some(v) ==> json_wf(v@),
{
    let engine = new_engine();
    let mut scope = script_scope(invocation);
    let ghost vars_in = scope@;
    let eval_result = eval_with_scope(&engine, &mut scope, config.script.as_str());
    let ghost vars_out = scope@;
    let final_state = scope_get(&scope, "state");
    let ghost ev = eval_view(eval_result);
    let r = finish_script_run(&invocation.state, final_state, eval_result);
    assert(script_run(config.script@, vars_in, ev, vars_out));
    assert(r@ == script_outcome(invocation.state@, scope_lookup(vars_out, "state"@), ev));
    r
}


/// Law: the state a run leaves behind is the final value of `state` whenever that
/// value can be read as JSON, whether the script returned a value or raised an error.
pub proof fn lemma_state_persists_whatever_the_script_returns(
    state_in: Json,
    final_state: RhaiValue,
    eval: Result<RhaiValue, Seq<char>>,
)
    ensures
        json_of_script(final_state) matches Ok(j) ==> script_outcome(state_in, Some(final_state), eval).state_out == j,
{
}


/// Law: when a script leaves `state` holding what it was given, the run reports the
/// state it was given (as JSON equal to it) and so no state updates, whether the script
/// returned a value or raised an error; this holds when the state's non-negative
/// integers fit in a Rhai integer.
pub proof fn lemma_untouched_state_has_no_updates(
    state: Json,
    state_var: RhaiValue,
    eval: Result<RhaiValue, Seq<char>>,
)
    requires
        json_wf(state),
        fits_script_ints(state),
        script_matches_json(state_var, state),
    ensures
        json_eq(state, script_outcome(state, Some(state_var), eval).state_out),
        state_diff(state, script_outcome(state, Some(state_var), eval).state_out) == empty_object(),
{
    lemma_script_roundtrip(state_var, state);
}

}
