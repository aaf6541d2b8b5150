use component_script_rhai::{
    describe_payload, handle_invocation, prepare_invocation, ComponentResult, InvocationEnvelope,
    JsonNumber, JsonValue, OnError, ResultMode, ScriptConfig,
};

fn text(s: &str) -> JsonValue {
    JsonValue::String(s.to_string())
}

fn object(entries: Vec<(&str, JsonValue)>) -> JsonValue {
    JsonValue::Object(entries.into_iter().map(|(k, v)| (k.to_string(), v)).collect())
}

fn to_serde(v: &JsonValue) -> serde_json::Value {
    match v {
        JsonValue::Null => serde_json::Value::Null,
        JsonValue::Bool(b) => serde_json::Value::Bool(*b),
        JsonValue::Number(JsonNumber::PosInt(u)) => serde_json::Value::from(*u),
        JsonValue::Number(JsonNumber::NegInt(i)) => serde_json::Value::from(*i),
        JsonValue::Number(JsonNumber::Float(bits)) => serde_json::Value::from(f64::from_bits(*bits)),
        JsonValue::String(s) => serde_json::Value::String(s.clone()),
        JsonValue::Array(items) => serde_json::Value::Array(items.iter().map(to_serde).collect()),
        JsonValue::Object(entries) => serde_json::Value::Object(
            entries.iter().map(|(k, v)| (k.clone(), to_serde(v))).collect(),
        ),
    }
}

/// Runs an invocation whose `config` document is `{"script": script}`; reading that
/// document gives the script with the default mode and error handling.
fn invoke_script(
    script: &str,
    payload: JsonValue,
    state: JsonValue,
    connections: Vec<&str>,
) -> Result<ComponentResult, component_script_rhai::ComponentError> {
    let envelope = InvocationEnvelope {
        config: object(vec![("script", text(script))]),
        msg: None,
        payload,
        state,
        connections: connections.into_iter().map(|c| c.to_string()).collect(),
    };
    let envelope = prepare_invocation(Ok(envelope)).expect("envelope");
    assert!(envelope.is_well_formed());
    let config = ScriptConfig {
        script: script.to_string(),
        result_mode: ResultMode::Wrap,
        on_error: OnError::Fail,
    };
    handle_invocation(envelope, Ok(config))
}

fn invoke(script: &str, payload: JsonValue, state: JsonValue, connections: Vec<&str>) -> ComponentResult {
    invoke_script(script, payload, state, connections).expect("invocation should succeed")
}

fn at<'a>(v: &'a JsonValue, path: &[&str]) -> &'a JsonValue {
    let mut cur = v;
    for key in path {
        cur = cur.get(key).expect("key present");
    }
    cur
}

#[test]
fn describe_payload_is_json() {
    let payload = describe_payload();
    let text = to_serde(&payload).to_string();
    let json: serde_json::Value = serde_json::from_str(&text).expect("valid json");
    assert_eq!(json["component"]["name"], "component-script-rhai");
    assert_eq!(at(&payload, &["component", "name"]), &JsonValue::String("component-script-rhai".to_string()));
}

#[test]
fn handle_invocation_wraps_output() {
    let result = invoke_script(
        "let name = state.user.name; #{ greeting: \"Hello \" + name }",
        object(vec![]),
        object(vec![("user", object(vec![("name", text("Alice"))]))]),
        vec!["next"],
    )
    .expect("invocation ok");
    assert_eq!(at(&result.payload, &["output", "greeting"]), &text("Hello Alice"));
    assert!(result.error.is_none());
}

#[test]
fn describe_mentions_world() {
    let payload = describe_payload();
    let json: serde_json::Value =
        serde_json::from_str(&to_serde(&payload).to_string()).expect("describe should be json");
    assert_eq!(json["component"]["world"], "greentic:component/component@0.4.0");
}

#[test]
fn basic_transform_wraps_output() {
    let result = invoke(
        "let name = state.user.name; #{ greeting: \"Hello \" + name }",
        object(vec![]),
        object(vec![("user", object(vec![("name", text("Alice"))]))]),
        vec!["next"],
    );
    assert_eq!(at(&result.payload, &["output", "greeting"]), &text("Hello Alice"));
    assert!(result.error.is_none());
}

#[test]
fn structured_greentic_routing() {
    let result = invoke(
        r#"
            let res = #{};
            res.__greentic = #{ payload: #{ confirmed: true }, out: ["next_node"], err: ["error_node"] };
            res
        "#,
        object(vec![]),
        object(vec![]),
        vec!["next_node", "error_node"],
    );

    let payload = &result.payload;
    assert!(result.error.is_none(), "error: {:?}", result.error);
    assert_eq!(payload, &object(vec![("confirmed", JsonValue::Bool(true))]), "payload: {:?}", payload);
    let control = result.control.expect("control should be present");
    assert_eq!(control.out.unwrap(), vec!["next_node"]);
    assert_eq!(control.err.unwrap(), vec!["error_node"]);
    assert!(result.error.is_none());
}

#[test]
fn state_mutation_persists_on_error() {
    let result = invoke_script(
        r#"
            state.counter += 1;
            throw "boom";
        "#,
        object(vec![]),
        object(vec![("counter", JsonValue::Number(JsonNumber::PosInt(0)))]),
        vec![],
    )
    .expect("invocation should return result");

    assert_eq!(at(&result.state_updates, &["counter"]), &JsonValue::Number(JsonNumber::PosInt(1)));
    let error = result.error.expect("error expected");
    assert_eq!(error.kind, "ScriptError");
}

#[test]
fn non_serializable_return_falls_back() {
    let result = invoke_script("return || true;", object(vec![]), object(vec![]), vec![])
        .expect("invocation should return result");

    let error = result.error.expect("conversion error expected");
    assert_eq!(error.kind, "SerializationError");
    assert_eq!(at(&result.payload, &["error"]), &text("Failed to convert Rhai result to JSON"));
}
