use component_script_rhai::json::JsonValue as J;
use component_script_rhai::{
    compute_state_updates, directives_from_value, execute_script, handle_invocation,
    parse_connections, prepare_invocation, InvocationEnvelope, JsonNumber, OnError, ResultMode,
    ScriptConfig,
};

fn text(s: &str) -> J {
    J::String(s.to_string())
}

fn num(u: u64) -> J {
    J::Number(JsonNumber::PosInt(u))
}

fn float(f: f64) -> J {
    J::Number(JsonNumber::Float(f.to_bits()))
}

fn object(entries: Vec<(&str, J)>) -> J {
    J::Object(entries.into_iter().map(|(k, v)| (k.to_string(), v)).collect())
}

fn array(items: Vec<J>) -> J {
    J::Array(items)
}

fn config(script: &str, result_mode: ResultMode, on_error: OnError) -> ScriptConfig {
    ScriptConfig { script: script.to_string(), result_mode, on_error }
}

fn envelope(payload: J, state: J, connections: Vec<&str>) -> InvocationEnvelope {
    InvocationEnvelope {
        config: object(vec![]),
        msg: None,
        payload,
        state,
        connections: connections.into_iter().map(|c| c.to_string()).collect(),
    }
}

fn same(a: &J, b: &J) -> bool {
    component_script_rhai::json::json_equal(a, b)
}

// ---- state updates ----

#[test]
fn unchanged_state_has_no_updates() {
    let s = object(vec![("a", num(1)), ("b", object(vec![("c", text("x"))]))]);
    assert_eq!(compute_state_updates(&s, &s), object(vec![]));
    assert_eq!(compute_state_updates(&num(3), &num(3)), object(vec![]));
}

#[test]
fn updates_name_new_and_changed_keys() {
    let old = object(vec![("a", num(1)), ("b", num(2)), ("gone", num(9))]);
    let new = object(vec![("a", num(1)), ("b", num(3)), ("c", num(4))]);
    assert_eq!(compute_state_updates(&old, &new), object(vec![("b", num(3)), ("c", num(4))]));
}

#[test]
fn nested_objects_report_nested_updates() {
    let old = object(vec![("u", object(vec![("x", num(1)), ("y", num(2))]))]);
    let new = object(vec![("u", object(vec![("x", num(1)), ("y", num(5))]))]);
    assert_eq!(compute_state_updates(&old, &new), object(vec![("u", object(vec![("y", num(5))]))]));
}

#[test]
fn nested_removal_reports_the_whole_new_value() {
    let old = object(vec![("u", object(vec![("x", num(1)), ("y", num(2))]))]);
    let new = object(vec![("u", object(vec![("x", num(1))]))]);
    assert_eq!(compute_state_updates(&old, &new), object(vec![("u", object(vec![("x", num(1))]))]));
}

#[test]
fn value_set_to_null_is_reported() {
    let old = object(vec![("a", num(1))]);
    let new = object(vec![("a", J::Null)]);
    assert_eq!(compute_state_updates(&old, &new), object(vec![("a", J::Null)]));
}

#[test]
fn non_object_state_is_reported_whole() {
    assert_eq!(compute_state_updates(&num(1), &array(vec![num(1)])), array(vec![num(1)]));
    assert_eq!(compute_state_updates(&object(vec![]), &text("s")), text("s"));
}

#[test]
fn positive_and_negative_zero_are_equal() {
    let old = object(vec![("a", float(0.0))]);
    let new = object(vec![("a", float(-0.0))]);
    assert_eq!(compute_state_updates(&old, &new), object(vec![]));
}

#[test]
fn object_equality_ignores_entry_order() {
    let a = object(vec![("x", num(1)), ("y", num(2))]);
    let b = object(vec![("y", num(2)), ("x", num(1))]);
    assert!(same(&a, &b));
    assert!(!same(&a, &object(vec![("x", num(1)), ("y", num(3))])));
    assert!(!same(&array(vec![num(1), num(2)]), &array(vec![num(2), num(1)])));
}

#[test]
fn well_formedness_checks_keys_and_numbers() {
    assert!(object(vec![("x", num(1))]).is_well_formed());
    assert!(!object(vec![("x", num(1)), ("x", num(2))]).is_well_formed());
    assert!(!J::Number(JsonNumber::NegInt(3)).is_well_formed());
    assert!(!float(f64::INFINITY).is_well_formed());
}

// ---- directives and connections ----

#[test]
fn connections_from_string_and_array() {
    assert_eq!(parse_connections(Some(&text("a"))), Some(vec!["a".to_string()]));
    assert_eq!(
        parse_connections(Some(&array(vec![text("a"), num(1), text("b")]))),
        Some(vec!["a".to_string(), "b".to_string()])
    );
    assert_eq!(parse_connections(Some(&array(vec![num(1)]))), None);
    assert_eq!(parse_connections(Some(&num(1))), None);
    assert_eq!(parse_connections(None), None);
}

#[test]
fn directives_read_from_greentic_entry() {
    let v = object(vec![(
        "__greentic",
        object(vec![("payload", num(7)), ("out", text("next")), ("err", array(vec![]))]),
    )]);
    let d = directives_from_value(&v).expect("directives");
    assert_eq!(d.payload, Some(num(7)));
    assert_eq!(d.out, Some(vec!["next".to_string()]));
    assert_eq!(d.err, None);
    assert!(directives_from_value(&object(vec![("__greentic", num(1))])).is_none());
    assert!(directives_from_value(&object(vec![("other", object(vec![]))])).is_none());
    assert!(directives_from_value(&array(vec![])).is_none());
}

// ---- configuration and envelope ----

#[test]
fn config_reading_errors() {
    let e = ScriptConfig::from_value(Err("bad".to_string())).unwrap_err();
    assert_eq!(e, "Invalid config: bad");
    let blank = config(" \t\n\u{3000}", ResultMode::Wrap, OnError::Fail);
    assert_eq!(ScriptConfig::from_value(Ok(blank)).unwrap_err(), "config.script is required");
    let ok = ScriptConfig::from_value(Ok(config(" 1 ", ResultMode::Raw, OnError::Continue))).unwrap();
    assert_eq!(ok.script, " 1 ");
    assert_eq!(ok.result_mode, ResultMode::Raw);
    let d = ScriptConfig::default();
    assert_eq!(d.script, "");
    assert_eq!(d.result_mode, ResultMode::Wrap);
    assert_eq!(d.on_error, OnError::Fail);
}

#[test]
fn normalize_replaces_null_documents() {
    let mut e = InvocationEnvelope {
        config: J::Null,
        msg: None,
        payload: J::Null,
        state: J::Null,
        connections: vec![],
    };
    e.normalize();
    assert_eq!(e.config, object(vec![]));
    assert_eq!(e.payload, object(vec![]));
    assert_eq!(e.state, object(vec![]));
    let d = InvocationEnvelope::default();
    assert_eq!(d.config, object(vec![]));
    assert_eq!(d.payload, J::Null);
}

#[test]
fn unreadable_invocation_is_invalid_input() {
    let e = prepare_invocation(Err("expected value".to_string())).unwrap_err();
    assert_eq!(e.kind, "InvalidInput");
    assert_eq!(e.message, "Invalid invocation envelope: expected value");
    assert!(e.details.is_none());
}

#[test]
fn unusable_config_is_invalid_config() {
    let mut env = envelope(object(vec![]), object(vec![]), vec![]);
    env.config = object(vec![("script", text(""))]);
    let e = handle_invocation(env, Ok(config("", ResultMode::Wrap, OnError::Fail))).unwrap_err();
    assert_eq!(e.kind, "InvalidConfig");
    assert_eq!(e.message, "config.script is required");
    assert_eq!(e.details, Some(object(vec![("script", text(""))])));
}

// ---- running scripts ----

#[test]
fn raw_mode_returns_the_value_itself() {
    let env = envelope(object(vec![("n", num(2))]), object(vec![]), vec![]);
    let r = handle_invocation(env, Ok(config("payload.n * 21", ResultMode::Raw, OnError::Fail))).unwrap();
    assert_eq!(r.payload, num(42));
    assert!(r.control.is_none());
    assert!(r.error.is_none());
    assert_eq!(r.state_updates, object(vec![]));
}

#[test]
fn script_error_with_fail_reports_in_payload() {
    let env = envelope(object(vec![]), object(vec![]), vec![]);
    let r = handle_invocation(env, Ok(config("throw \"boom\";", ResultMode::Wrap, OnError::Fail))).unwrap();
    let err = r.error.expect("error");
    assert_eq!(err.kind, "ScriptError");
    assert!(err.message.starts_with("Script error: "));
    assert_eq!(r.payload.get("error"), Some(&J::String(err.message.clone())));
}

#[test]
fn script_error_with_continue_does_not_fail() {
    let env = envelope(object(vec![]), object(vec![]), vec![]);
    let r = handle_invocation(env, Ok(config("throw \"boom\";", ResultMode::Wrap, OnError::Continue))).unwrap();
    assert!(r.error.is_none());
    assert_eq!(r.payload, J::Null);
}

#[test]
fn unreadable_state_keeps_the_old_state() {
    let env = envelope(object(vec![]), object(vec![("k", num(1))]), vec![]);
    let cfg = config("state = || true; 5", ResultMode::Wrap, OnError::Fail);
    let r = handle_invocation(env, Ok(cfg)).unwrap();
    let err = r.error.expect("conversion error");
    assert_eq!(err.kind, "SerializationError");
    assert_eq!(err.message, "Failed to convert state to JSON: Unsupported Rhai value");
    assert_eq!(r.state_updates, object(vec![]));
    assert_eq!(r.payload, object(vec![("error", text("Failed to convert Rhai result to JSON"))]));
}

#[test]
fn script_sees_the_invocation() {
    let mut env = envelope(object(vec![("p", num(1))]), object(vec![]), vec!["a", "b"]);
    env.msg = Some(object(vec![("id", text("m1"))]));
    let cfg = config("[msg.id, payload.p, connections]", ResultMode::Raw, OnError::Fail);
    let o = execute_script(&env, &cfg);
    assert!(o.script_error.is_none());
    assert_eq!(o.script_value, Some(array(vec![text("m1"), num(1), array(vec![text("a"), text("b")])])));
    assert!(o.directives.is_none());
}

#[test]
fn numbers_cross_into_scripts() {
    let env = envelope(
        object(vec![("big", num(u64::MAX)), ("neg", J::Number(JsonNumber::NegInt(-5))), ("f", float(1.5))]),
        object(vec![]),
        vec![],
    );
    let cfg = config("[payload.big, payload.neg, payload.f * 2.0]", ResultMode::Raw, OnError::Fail);
    let o = execute_script(&env, &cfg);
    assert_eq!(
        o.script_value,
        Some(array(vec![J::Number(JsonNumber::NegInt(-1)), J::Number(JsonNumber::NegInt(-5)), float(3.0)]))
    );
}

#[test]
fn infinite_float_cannot_be_read() {
    let env = envelope(object(vec![]), object(vec![]), vec![]);
    let o = execute_script(&env, &config("1e308 * 10.0", ResultMode::Raw, OnError::Fail));
    assert_eq!(o.script_value, None);
    assert_eq!(o.conversion_error, Some("Failed to convert Rhai result to JSON: Invalid float".to_string()));
}

#[test]
fn state_changes_are_read_back() {
    let env = envelope(object(vec![]), object(vec![("list", array(vec![num(1)]))]), vec![]);
    let o = execute_script(&env, &config("state.list.push(2); state.flag = true; ()", ResultMode::Raw, OnError::Fail));
    assert!(same(&o.state_out, &object(vec![("flag", J::Bool(true)), ("list", array(vec![num(1), num(2)]))])));
    assert_eq!(o.script_value, Some(J::Null));
}

#[test]
fn untouched_state_has_no_updates() {
    let state = object(vec![
        ("a", array(vec![num(1), float(2.5), J::Null])),
        ("b", object(vec![("c", text("x")), ("d", J::Number(JsonNumber::NegInt(-3)))])),
    ]);
    let env = envelope(object(vec![]), state, vec![]);
    let r = handle_invocation(env, Ok(config("throw \"late\";", ResultMode::Wrap, OnError::Fail))).unwrap();
    assert_eq!(r.state_updates, object(vec![]));
    assert_eq!(r.error.expect("error").kind, "ScriptError");
}

#[test]
fn integers_beyond_i64_come_back_wrapped() {
    let env = envelope(object(vec![]), object(vec![("n", num(u64::MAX))]), vec![]);
    let r = handle_invocation(env, Ok(config("1", ResultMode::Wrap, OnError::Fail))).unwrap();
    assert_eq!(r.state_updates, object(vec![("n", J::Number(JsonNumber::NegInt(-1)))]));
    assert_eq!(r.payload, object(vec![("output", num(1))]));
}

#[test]
fn describe_payload_lists_the_schemas() {
    let d = component_script_rhai::describe_payload();
    let schemas = d.get("component").and_then(|c| c.get("schemas")).expect("schemas");
    assert_eq!(schemas.get("input"), Some(&text("schemas/io/input.schema.json")));
    assert_eq!(d.get("component").and_then(|c| c.get("org")), Some(&text("ai.greentic")));
}

/// Applies state updates to a state: objects key by key, anything else by replacement.
fn apply_updates(o: &J, d: &J) -> J {
    match (o, d) {
        (J::Object(oe), J::Object(de)) => {
            let mut out: Vec<(String, J)> = oe.clone();
            for (k, dv) in de {
                let old = oe.iter().find(|e| &e.0 == k).map(|e| e.1.clone()).unwrap_or(J::Null);
                let v = apply_updates(&old, dv);
                match out.iter_mut().find(|e| &e.0 == k) {
                    Some(e) => e.1 = v,
                    None => out.push((k.clone(), v)),
                }
            }
            J::Object(out)
        }
        _ => d.clone(),
    }
}

#[test]
fn applying_updates_gives_the_new_state() {
    let old = object(vec![
        ("a", num(1)),
        ("u", object(vec![("x", num(1)), ("y", num(2))])),
        ("v", num(5)),
        ("w", object(vec![("p", num(1))])),
    ]);
    let new = object(vec![
        ("a", num(1)),
        ("u", object(vec![("x", num(1)), ("y", num(3)), ("z", text("n"))])),
        ("v", object(vec![("q", J::Bool(true))])),
        ("w", object(vec![("p", num(1)), ("r", J::Null)])),
        ("fresh", array(vec![num(7)])),
    ]);
    let updates = compute_state_updates(&old, &new);
    assert!(same(&apply_updates(&old, &updates), &new));
    assert!(same(&apply_updates(&old, &compute_state_updates(&old, &old)), &old));
}
