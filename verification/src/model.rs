//! The component's configuration, invocation and result types, and reading the
//! routing directives a script returns.
use vstd::prelude::*;

use crate::json::{
    has_key, json_wf, keys_unique, lemma_value_of_index, lemma_view_items, obj_get, view_items,
    Json, JsonValue,
};
use crate::state_updates::empty_object;

verus! {

/// How the value a script returns becomes the payload.
#[derive(Clone, Copy, Debug, PartialEq, Eq, Structural)]
pub enum ResultMode {
    /// The payload is an object `{"output": value}`.
    Wrap,
    /// The payload is the value itself.
    Raw,
}

impl Default for ResultMode {
    fn default() -> (r: Self)
        ensures
            r == ResultMode::Wrap,
    {
        ResultMode::Wrap
    }
}

/// Whether a script error fails the component.
#[derive(Clone, Copy, Debug, PartialEq, Eq, Structural)]
pub enum OnError {
    /// A script error fails the component: it is reported as the result's error, and
    /// a payload that is still `null` becomes an error report.
    Fail,
    /// A script error does not fail the component: it is not reported, and the
    /// payload stays as it is.
    Continue,
}

impl Default for OnError {
    fn default() -> (r: Self)
        ensures
            r == OnError::Fail,
    {
        OnError::Fail
    }
}

/// The component's configuration.
#[derive(Clone, Debug)]
pub struct ScriptConfig {
    /// The Rhai source to run.
    pub script: String,
    pub result_mode: ResultMode,
    pub on_error: OnError,
}

impl Default for ScriptConfig {
    fn default() -> (r: Self)
        ensures
            r.script@ == Seq::<char>::empty(),
            r.result_mode == ResultMode::Wrap,
            r.on_error == OnError::Fail,
    {
        ScriptConfig { script: String::new(), result_mode: ResultMode::Wrap, on_error: OnError::Fail }
    }
}

/// Whether `c` has the Unicode `White_Space` property.
pub open spec fn is_white_space(c: char) -> bool {
    let u = c as u32;
    ||| 0x09 <= u <= 0x0d
    ||| u == 0x20
    ||| u == 0x85
    ||| u == 0xa0
    ||| u == 0x1680
    ||| 0x2000 <= u <= 0x200a
    ||| u == 0x2028
    ||| u == 0x2029
    ||| u == 0x202f
    ||| u == 0x205f
    ||| u == 0x3000
}

/// Whether `s` holds nothing but white space (so that trimming it leaves nothing).
pub open spec fn is_blank(s: Seq<char>) -> bool {
    forall|i: int| 0 <= i < s.len() ==> is_white_space(#[trigger] s[i])
}

/// `char::is_whitespace` from std: true exactly for the characters that have the
/// Unicode `White_Space` property.
#[verifier::external_body]
fn char_is_whitespace(c: char) -> (r: bool)
    ensures
        r == is_white_space(c),
{
    c.is_whitespace()
}

/// Whether `s` trims to the empty string.
pub fn str_is_blank(s: &str) -> (r: bool)
    ensures
        r == is_blank(s@),
{
    let n = s.unicode_len();
    let mut i: usize = 0;
    while i < n
        invariant
            n == s@.len(),
            0 <= i <= n,
            forall|k: int| 0 <= k < i ==> is_white_space(#[trigger] s@[k]),
        decreases n - i,
    {
        if !char_is_whitespace(s.get_char(i)) {
            return false;
        }
        i = i + 1;
    }
    true
}

/// Why a configuration read from the invocation cannot be used, if it cannot:
/// the reader's error, or a script that is empty or all white space.
pub open spec fn config_error(parsed: Result<ScriptConfig, String>) -> Option<Seq<char>> {
    match parsed {
        Err(e) => Some("Invalid config: "@ + e@),
        Ok(cfg) => if is_blank(cfg.script@) {
            Some("config.script is required"@)
        } else {
            None
        },
    }
}

impl ScriptConfig {
    /// Checks a configuration read from the invocation's `config` document.
    /// `parsed` is the outcome of reading that document into a configuration
    /// (its error, the reader's message). A reading error becomes
    /// `Invalid config: <message>`; a script that is empty or all white space
    /// becomes `config.script is required`; any other configuration is accepted.
    pub fn from_value(parsed: Result<ScriptConfig, String>) -> (r: Result<ScriptConfig, String>)
        ensures
            match config_error(parsed) {
                Some(m) => r matches Err(e) && e@ == m,
                None => r == parsed,
            },
    {
        match parsed {
            Err(e) => {
                let msg = String::from_str("Invalid config: ").concat(e.as_str());
                Err(msg)
            },
            Ok(cfg) => {
                if str_is_blank(cfg.script.as_str()) {
                    Err(String::from_str("config.script is required"))
                } else {
                    Ok(cfg)
                }
            },
        }
    }
}


/// The request a component receives: its configuration, the channel message (as a
/// JSON document, when there is one), the payload, the state and the connections.
#[derive(Clone, Debug)]
pub struct InvocationEnvelope {
    pub config: JsonValue,
    pub msg: Option<JsonValue>,
    pub payload: JsonValue,
    pub state: JsonValue,
    pub connections: Vec<String>,
}

impl Default for InvocationEnvelope {
    fn default() -> (r: Self)
        ensures
            r.config@ == empty_object(),
            r.msg is None,
            r.payload@ == Json::Null,
            r.state@ == empty_object(),
            r.connections@.len() == 0,
    {
        let r = InvocationEnvelope {
            config: JsonValue::Object(Vec::new()),
            msg: None,
            payload: JsonValue::Null,
            state: JsonValue::Object(Vec::new()),
            connections: Vec::new(),
        };
        assert(r.config@ =~= empty_object());
        r
    }
}

/// `v`, with `null` replaced by the empty object.
pub open spec fn null_to_empty_object(v: Json) -> Json {
    if v == Json::Null {
        empty_object()
    } else {
        v
    }
}

/// Every document of the envelope is well formed.
pub open spec fn envelope_wf(env: InvocationEnvelope) -> bool {
    &&& json_wf(env.config@)
    &&& (env.msg matches Some(m) ==> json_wf(m@))
    &&& json_wf(env.payload@)
    &&& json_wf(env.state@)
}

impl InvocationEnvelope {
    /// Whether every document of the envelope is well formed (see `envelope_wf`).
    pub fn is_well_formed(&self) -> (r: bool)
        ensures
            r == envelope_wf(*self),
    {
        let msg_ok = match &self.msg {
            Some(m) => m.is_well_formed(),
            None => true,
        };
        msg_ok && self.config.is_well_formed() && self.payload.is_well_formed()
            && self.state.is_well_formed()
    }

    /// Replaces a `null` configuration, payload or state by the empty object.
    pub fn normalize(&mut self)
        ensures
            final(self).config@ == null_to_empty_object(old(self).config@),
            final(self).payload@ == null_to_empty_object(old(self).payload@),
            final(self).state@ == null_to_empty_object(old(self).state@),
            final(self).msg == old(self).msg,
            final(self).connections == old(self).connections,
            envelope_wf(*old(self)) ==> envelope_wf(*final(self)),
    {
        if self.config.is_null() {
            self.config = JsonValue::Object(Vec::new());
            assert(self.config@ =~= empty_object());
        }
        if self.payload.is_null() {
            self.payload = JsonValue::Object(Vec::new());
            assert(self.payload@ =~= empty_object());
        }
        if self.state.is_null() {
            self.state = JsonValue::Object(Vec::new());
            assert(self.state@ =~= empty_object());
        }
    }
}

/// Where the result should be routed.
#[derive(Clone, Debug, PartialEq)]
pub struct ComponentControl {
    pub out: Option<Vec<String>>,
    pub err: Option<Vec<String>>,
}

impl Default for ComponentControl {
    fn default() -> (r: Self)
        ensures
            r.out is None,
            r.err is None,
    {
        ComponentControl { out: None, err: None }
    }
}

/// The routing of a result, as sequences of connection names.
pub struct ControlView {
    pub out: Option<Seq<Seq<char>>>,
    pub err: Option<Seq<Seq<char>>>,
}

impl View for ComponentControl {
    type V = ControlView;

    open spec fn view(&self) -> ControlView {
        ControlView { out: self.out.deep_view(), err: self.err.deep_view() }
    }
}

/// An error the component reports.
#[derive(Clone, Debug)]
pub struct ComponentError {
    pub kind: String,
    pub message: String,
    pub details: Option<JsonValue>,
}

impl Default for ComponentError {
    fn default() -> (r: Self)
        ensures
            r.kind@ == Seq::<char>::empty(),
            r.message@ == Seq::<char>::empty(),
            r.details is None,
    {
        ComponentError { kind: String::new(), message: String::new(), details: None }
    }
}

/// An error, as values.
pub struct ErrorView {
    pub kind: Seq<char>,
    pub message: Seq<char>,
    pub details: Option<Json>,
}

impl View for ComponentError {
    type V = ErrorView;

    open spec fn view(&self) -> ErrorView {
        ErrorView { kind: self.kind@, message: self.message@, details: self.details.deep_view() }
    }
}

/// What an invocation produces.
#[derive(Clone, Debug)]
pub struct ComponentResult {
    pub payload: JsonValue,
    pub state_updates: JsonValue,
    pub control: Option<ComponentControl>,
    pub error: Option<ComponentError>,
}

impl Default for ComponentResult {
    fn default() -> (r: Self)
        ensures
            r.payload@ == Json::Null,
            r.state_updates@ == Json::Null,
            r.control is None,
            r.error is None,
    {
        ComponentResult { payload: JsonValue::Null, state_updates: JsonValue::Null, control: None, error: None }
    }
}

/// A result, as values.
pub struct ResultView {
    pub payload: Json,
    pub state_updates: Json,
    pub control: Option<ControlView>,
    pub error: Option<ErrorView>,
}

/// The view of an optional value that has a view.
pub open spec fn opt_view<T: View>(o: Option<T>) -> Option<T::V> {
    match o {
        Some(t) => Some(t@),
        None => None,
    }
}

impl View for ComponentResult {
    type V = ResultView;

    open spec fn view(&self) -> ResultView {
        ResultView {
            payload: self.payload@,
            state_updates: self.state_updates@,
            control: opt_view(self.control),
            error: opt_view(self.error),
        }
    }
}

/// The directives a script returns under the key `__greentic`.
#[derive(Clone, Debug)]
pub struct GreenticDirectives {
    pub payload: Option<JsonValue>,
    pub out: Option<Vec<String>>,
    pub err: Option<Vec<String>>,
}

impl Default for GreenticDirectives {
    fn default() -> (r: Self)
        ensures
            r.payload is None,
            r.out is None,
            r.err is None,
    {
        GreenticDirectives { payload: None, out: None, err: None }
    }
}

/// Directives, as values.
pub struct DirectivesView {
    pub payload: Option<Json>,
    pub out: Option<Seq<Seq<char>>>,
    pub err: Option<Seq<Seq<char>>>,
}

impl View for GreenticDirectives {
    type V = DirectivesView;

    open spec fn view(&self) -> DirectivesView {
        DirectivesView {
            payload: self.payload.deep_view(),
            out: self.out.deep_view(),
            err: self.err.deep_view(),
        }
    }
}

/// The strings among `items`, in order.
pub open spec fn string_items(items: Seq<Json>) -> Seq<Seq<char>>
    decreases items.len(),
{
    if items.len() == 0 {
        Seq::empty()
    } else {
        let prev = string_items(items.drop_last());
        match items.last() {
            Json::Str(s) => prev.push(s),
            _ => prev,
        }
    }
}

/// Connection names given by a directive: a single string names one connection;
/// an array names the strings it holds (none when it holds no string); anything
/// else names none.
pub open spec fn connections_of(value: Option<Json>) -> Option<Seq<Seq<char>>> {
    match value {
        Some(Json::Str(s)) => Some(seq![s]),
        Some(Json::Arr(items)) => if string_items(items).len() == 0 {
            None
        } else {
            Some(string_items(items))
        },
        _ => None,
    }
}

/// The directives a script result carries: present when the result is an object
/// whose `__greentic` entry is an object; its `payload`, `out` and `err` entries
/// give the payload and the connections.
pub open spec fn directives_of(value: Json) -> Option<DirectivesView> {
    match obj_get(value, "__greentic"@) {
        Some(d) => match d {
            Json::Obj(_) => Some(
                DirectivesView {
                    payload: obj_get(d, "payload"@),
                    out: connections_of(obj_get(d, "out"@)),
                    err: connections_of(obj_get(d, "err"@)),
                },
            ),
            _ => None,
        },
        None => None,
    }
}

/// Law: a script result carries directives exactly when it is an object whose
/// `__greentic` entry is itself an object, and then their payload and connections are
/// read from that entry.
pub proof fn lemma_directives_present_iff(v: Json)
    ensures
        directives_of(v) is Some <==> (obj_get(v, "__greentic"@) is Some && obj_get(
            v,
            "__greentic"@,
        )->Some_0 is Obj),
        directives_of(v) matches Some(d) ==> {
            let g = obj_get(v, "__greentic"@)->Some_0;
            &&& d.payload == obj_get(g, "payload"@)
            &&& d.out == connections_of(obj_get(g, "out"@))
            &&& d.err == connections_of(obj_get(g, "err"@))
        },
{
}

/// Law: the directives of a script result depend on its `__greentic` entry alone:
/// two results with the same such entry (or both without one) carry the same directives.
pub proof fn lemma_directives_depend_only_on_greentic_entry(v1: Json, v2: Json)
    requires
        obj_get(v1, "__greentic"@) == obj_get(v2, "__greentic"@),
    ensures
        directives_of(v1) == directives_of(v2),
{
}

/// Law: adding to a script result an entry under another key than `__greentic`
/// leaves its directives as they were.
pub proof fn lemma_directives_ignore_other_entries(
    entries: Seq<(Seq<char>, Json)>,
    k: Seq<char>,
    x: Json,
)
    requires
        keys_unique(entries),
        !has_key(entries, k),
        k != "__greentic"@,
    ensures
        directives_of(Json::Obj(entries.push((k, x)))) == directives_of(Json::Obj(entries)),
{
    let g = "__greentic"@;
    let pushed = entries.push((k, x));
    assert(keys_unique(pushed)) by {
        assert forall|i: int, j: int|
            0 <= i < pushed.len() && 0 <= j < pushed.len() && i != j implies (
            #[trigger] pushed[i]).0 != (#[trigger] pushed[j]).0 by {
            if i == entries.len() {
                assert(entries[j] == pushed[j]);
            } else if j == entries.len() {
                assert(entries[i] == pushed[i]);
            } else {
                assert(entries[i] == pushed[i]);
                assert(entries[j] == pushed[j]);
            }
        }
    }
    if has_key(entries, g) {
        let j = choose|j: int| 0 <= j < entries.len() && (#[trigger] entries[j]).0 == g;
        lemma_value_of_index(entries, j);
        assert(pushed[j] == entries[j]);
        lemma_value_of_index(pushed, j);
    } else {
        assert(!has_key(pushed, g)) by {
            if has_key(pushed, g) {
                let i = choose|i: int| 0 <= i < pushed.len() && (#[trigger] pushed[i]).0 == g;
                if i < entries.len() {
                    assert(entries[i] == pushed[i]);
                }
            }
        }
    }
    assert(obj_get(Json::Obj(pushed), g) == obj_get(Json::Obj(entries), g));
}

/// Reads the connection names of a directive (see `connections_of`).
pub fn parse_connections(value: Option<&JsonValue>) -> (r: Option<Vec<String>>)
    ensures
        r.deep_view() == connections_of(value.deep_view()),
{
    match value {
        Some(JsonValue::String(item)) => {
            let mut v: Vec<String> = Vec::new();
            v.push(item.clone());
            assert(v.deep_view() =~= seq![item@]);
            Some(v)
        },
        Some(JsonValue::Array(items)) => {
            let ghost iv = view_items(items@);
            proof {
                lemma_view_items(items@);
            }
            let mut out: Vec<String> = Vec::new();
            let mut i: usize = 0;
            while i < items.len()
                invariant
                    0 <= i <= items.len(),
                    iv == view_items(items@),
                    iv.len() == items.len(),
                    forall|k: int| 0 <= k < items.len() ==> #[trigger] iv[k] == items@[k]@,
                    out.deep_view() == string_items(iv.take(i as int)),
                decreases items.len() - i,
            {
                assert(iv.take(i + 1).drop_last() =~= iv.take(i as int));
                match &items[i] {
                    JsonValue::String(s) => {
                        out.push(s.clone());
                        assert(out.deep_view() =~= string_items(iv.take(i as int)).push(s@));
                    },
                    _ => {},
                }
                i = i + 1;
            }
            assert(iv.take(items.len() as int) =~= iv);
            if out.len() == 0 {
                None
            } else {
                Some(out)
            }
        },
        _ => None,
    }
}

/// Reads the directives of a script result (see `directives_of`).
pub fn directives_from_value(value: &JsonValue) -> (r: Option<GreenticDirectives>)
    requires
        json_wf(value@),
    ensures
        opt_view(r) == directives_of(value@),
        r matches Some(d) ==> (d.payload matches Some(p) ==> json_wf(p@)),
{
    let directives = match value.get("__greentic") {
        Some(d) => d,
        None => return None,
    };
    proof {
        let e = value@->Obj_0;
        let j = choose|j: int| 0 <= j < e.len() && (#[trigger] e[j]).0 == "__greentic"@;
        crate::json::lemma_wf_entry(e, j);
    }
    match directives {
        JsonValue::Object(_) => {},
        _ => return None,
    }
    let payload = match directives.get("payload") {
        Some(p) => {
            proof {
                let e = directives@->Obj_0;
                let j = choose|j: int| 0 <= j < e.len() && (#[trigger] e[j]).0 == "payload"@;
                crate::json::lemma_wf_entry(e, j);
            }
            Some(p.duplicate())
        },
        None => None,
    };
    let out = parse_connections(directives.get("out"));
    let err = parse_connections(directives.get("err"));
    Some(GreenticDirectives { payload, out, err })
}

}
