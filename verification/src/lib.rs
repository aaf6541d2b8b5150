//! A component that runs a Rhai script over an invocation (its configuration,
//! message, payload, state and connections) and reports the payload, the
//! routing, the state updates and any error.
use vstd::prelude::*;

pub mod component;
pub mod json;
pub mod model;
pub mod rhai_value;
pub mod script_engine;
pub mod state_updates;

pub use component::{build_component_result, describe_payload, handle_invocation, prepare_invocation};
pub use json::{JsonNumber, JsonValue};
pub use model::{
    directives_from_value, parse_connections, ComponentControl, ComponentError, ComponentResult,
    GreenticDirectives, InvocationEnvelope, OnError, ResultMode, ScriptConfig,
};
pub use script_engine::{execute_script, ScriptOutcome};
pub use state_updates::compute_state_updates;

verus! {
}
