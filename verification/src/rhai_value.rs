//! Rhai values: what the library reads of them, the calls that build and read them,
//! and the conversions between them and JSON documents.
use vstd::prelude::*;

use rhai::{Array, Dynamic, ImmutableString, FLOAT, INT};

use crate::json::{
    has_key, is_finite_bits, json_eq, json_wf, keys_unique, lemma_value_of_index,
    lemma_view_entries, lemma_view_entries_push, lemma_view_items, lemma_wf_entry, lemma_wf_item,
    value_of, view_entries, view_items, Json, JsonNumber, JsonValue,
};

verus! {

#[verifier::external_type_specification]
#[verifier::external_body]
pub struct ExDynamic(Dynamic);

/// What a Rhai value holds, as far as this library reads it. A shared value (one
/// captured by a closure) holds what its cell holds.
pub enum RhaiValue {
    Unit,
    Bool(bool),
    Int(i64),
    /// A float, by its IEEE-754 bit pattern.
    Float(u64),
    Str(Seq<char>),
    Array(Seq<RhaiValue>),
    /// A map's entries, in the order the map yields them.
    ObjectMap(Seq<(Seq<char>, RhaiValue)>),
    /// Any other kind of value (characters, blobs, function pointers, timestamps, custom types).
    Other,
}

/// A Rhai value together with what it holds. The calls below that read a value tell
/// its kind apart as `Dynamic::try_cast` does; that call fails on a shared value
/// whose cell is borrowed at that moment, which nothing in this library does.
pub struct ScriptValue {
    pub(crate) dynamic: Dynamic,
    pub(crate) model: Ghost<RhaiValue>,
}

impl View for ScriptValue {
    type V = RhaiValue;

    closed spec fn view(&self) -> RhaiValue {
        self.model@
    }
}

/// The models of `items`, in order.
pub open spec fn models_of(items: Seq<ScriptValue>) -> Seq<RhaiValue> {
    items.map_values(|v: ScriptValue| v@)
}

/// No key occurs twice among the entries of a Rhai map.
pub open spec fn map_keys_unique(entries: Seq<(Seq<char>, RhaiValue)>) -> bool {
    forall|i: int, j: int|
        0 <= i < entries.len() && 0 <= j < entries.len() && i != j ==> (#[trigger] entries[i]).0
            != (#[trigger] entries[j]).0
}

/// The keys and models of `entries`, in order.
pub open spec fn entry_models(entries: Seq<(String, ScriptValue)>) -> Seq<(Seq<char>, RhaiValue)> {
    entries.map_values(|e: (String, ScriptValue)| (e.0@, e.1@))
}

/// `m` is a map with distinct keys holding exactly the entries `es` (which have distinct keys), in some order.
pub open spec fn map_holds_entries(m: RhaiValue, es: Seq<(Seq<char>, RhaiValue)>) -> bool {
    m matches RhaiValue::ObjectMap(ms) && {
        &&& ms.len() == es.len()
        &&& map_keys_unique(ms)
        &&& forall|i: int| 0 <= i < es.len() ==> exists|j: int| 0 <= j < ms.len() && ms[j] == #[trigger] es[i]
    }
}

/// `Dynamic::UNIT`: the Rhai unit value.
#[verifier::external_body]
pub(crate) fn script_unit() -> (r: ScriptValue)
    ensures
        r@ == RhaiValue::Unit,
{
    ScriptValue { dynamic: Dynamic::UNIT, model: Ghost(RhaiValue::Unit) }
}

/// `Dynamic::from_bool`: a Rhai boolean.
#[verifier::external_body]
fn script_from_bool(b: bool) -> (r: ScriptValue)
    ensures
        r@ == RhaiValue::Bool(b),
{
    ScriptValue { dynamic: Dynamic::from_bool(b), model: Ghost(RhaiValue::Bool(b)) }
}

/// `Dynamic::from_int`: a Rhai integer.
#[verifier::external_body]
fn script_from_int(i: i64) -> (r: ScriptValue)
    ensures
        r@ == RhaiValue::Int(i),
{
    ScriptValue { dynamic: Dynamic::from_int(i), model: Ghost(RhaiValue::Int(i)) }
}

/// `Dynamic::from_float`: a Rhai float, given by its (finite) bit pattern.
#[verifier::external_body]
fn script_from_float(bits: u64) -> (r: ScriptValue)
    requires
        is_finite_bits(bits),
    ensures
        r@ == RhaiValue::Float(bits),
{
    ScriptValue { dynamic: Dynamic::from_float(FLOAT::from_bits(bits)), model: Ghost(RhaiValue::Float(bits)) }
}

/// `Dynamic::from` on a `String`: a Rhai string with the same characters.
#[verifier::external_body]
fn script_from_string(s: String) -> (r: ScriptValue)
    ensures
        r@ == RhaiValue::Str(s@),
{
    let model = Ghost(RhaiValue::Str(s@));
    ScriptValue { dynamic: Dynamic::from(s), model }
}

/// `Dynamic::from_array`: a Rhai array holding `items`, in order.
#[verifier::external_body]
fn script_from_array(items: Vec<ScriptValue>) -> (r: ScriptValue)
    ensures
        r@ == RhaiValue::Array(models_of(items@)),
{
    let model = Ghost(RhaiValue::Array(models_of(items@)));
    let array: Array = items.into_iter().map(|v| v.dynamic).collect();
    ScriptValue { dynamic: Dynamic::from_array(array), model }
}

/// `Dynamic::from_map`: a Rhai map holding `entries` (whose keys are distinct);
/// the map yields the same entries, in its own key order.
#[verifier::external_body]
fn script_from_map(entries: Vec<(String, ScriptValue)>) -> (r: ScriptValue)
    requires
        map_keys_unique(entry_models(entries@)),
    ensures
        map_holds_entries(r@, entry_models(entries@)),
{
    let model = Ghost(arbitrary());
    let map: rhai::Map = entries.into_iter().map(|(k, v)| (k.into(), v.dynamic)).collect();
    ScriptValue { dynamic: Dynamic::from_map(map), model }
}

/// `Dynamic::clone`: the same value.
#[verifier::external_body]
fn script_clone(v: &ScriptValue) -> (r: ScriptValue)
    ensures
        r@ == v@,
{
    ScriptValue { dynamic: v.dynamic.clone(), model: Ghost(v.model@) }
}

/// `Dynamic::is_unit`: whether the value is the unit value.
#[verifier::external_body]
fn script_is_unit(v: &ScriptValue) -> (r: bool)
    ensures
        r == (v@ == RhaiValue::Unit),
{
    v.dynamic.is_unit()
}

/// `Dynamic::try_cast::<bool>`: the boolean the value holds, if it holds one.
#[verifier::external_body]
fn script_try_bool(v: ScriptValue) -> (r: Option<bool>)
    ensures
        r == (match v@ {
            RhaiValue::Bool(b) => Some(b),
            _ => None,
        }),
{
    v.dynamic.try_cast::<bool>()
}

/// `Dynamic::try_cast::<INT>`: the integer the value holds, if it holds one.
#[verifier::external_body]
fn script_try_int(v: ScriptValue) -> (r: Option<i64>)
    ensures
        r == (match v@ {
            RhaiValue::Int(i) => Some(i),
            _ => None,
        }),
{
    v.dynamic.try_cast::<INT>()
}

/// `Dynamic::try_cast::<FLOAT>`: the bit pattern of the float the value holds, if it holds one.
#[verifier::external_body]
fn script_try_float(v: ScriptValue) -> (r: Option<u64>)
    ensures
        r == (match v@ {
            RhaiValue::Float(bits) => Some(bits),
            _ => None,
        }),
{
    v.dynamic.try_cast::<FLOAT>().map(|f| f.to_bits())
}

/// `Dynamic::try_cast::<ImmutableString>`: the string the value holds, if it holds one.
#[verifier::external_body]
fn script_try_string(v: ScriptValue) -> (r: Option<String>)
    ensures
        match v@ {
            RhaiValue::Str(s) => r matches Some(t) && t@ == s,
            _ => r is None,
        },
{
    v.dynamic.try_cast::<ImmutableString>().map(|s| s.into())
}

/// `Dynamic::try_cast::<Array>`: the items of the array the value holds, if it holds one.
#[verifier::external_body]
fn script_try_array(v: ScriptValue) -> (r: Option<Vec<ScriptValue>>)
    ensures
        match v@ {
            RhaiValue::Array(items) => r matches Some(vs) && models_of(vs@) == items,
            _ => r is None,
        },
{
    v.dynamic.try_cast::<Array>().map(
        |a| a.into_iter().map(|d| ScriptValue { dynamic: d, model: Ghost(arbitrary()) }).collect(),
    )
}

/// `Dynamic::try_cast::<Map>`: the entries of the map the value holds, if it holds
/// one, in the order the map yields them (a map's keys are distinct).
#[verifier::external_body]
fn script_try_map(v: ScriptValue) -> (r: Option<Vec<(String, ScriptValue)>>)
    ensures
        match v@ {
            RhaiValue::ObjectMap(ms) => r matches Some(es) && map_keys_unique(ms) && entry_models(es@) == ms,
            _ => r is None,
        },
{
    v.dynamic.try_cast::<rhai::Map>().map(
        |m| m.into_iter().map(|(k, d)| (k.to_string(), ScriptValue { dynamic: d, model: Ghost(arbitrary()) })).collect(),
    )
}


/// The JSON number of an integer: non-negative integers are `PosInt`, negative ones `NegInt`.
pub open spec fn number_from_int(i: i64) -> JsonNumber {
    if i < 0 {
        JsonNumber::NegInt(i)
    } else {
        JsonNumber::PosInt(i as u64)
    }
}

/// The Rhai integer of a non-negative JSON integer: its value, taken modulo 2^64
/// into the range of `i64` when it is larger than `i64::MAX`.
pub open spec fn int_of_pos(u: u64) -> i64 {
    if u <= i64::MAX {
        u as i64
    } else {
        (u - 0x1_0000_0000_0000_0000) as i64
    }
}

/// The JSON document a Rhai value stands for, or the reason it stands for none:
/// a float that is not finite, or a kind of value JSON does not have. In an array
/// or a map, the first item (in the order the container yields them) that stands
/// for no document gives the reason.
pub open spec fn json_of_script(m: RhaiValue) -> Result<Json, Seq<char>>
    decreases m, 0nat,
{
    match m {
        RhaiValue::Unit => Ok(Json::Null),
        RhaiValue::Bool(b) => Ok(Json::Bool(b)),
        RhaiValue::Int(i) => Ok(Json::Num(number_from_int(i))),
        RhaiValue::Float(bits) => if is_finite_bits(bits) {
            Ok(Json::Num(JsonNumber::Float(bits)))
        } else {
            Err("Invalid float"@)
        },
        RhaiValue::Str(s) => Ok(Json::Str(s)),
        RhaiValue::Array(items) => match json_of_items(items, items.len() as int) {
            Ok(js) => Ok(Json::Arr(js)),
            Err(e) => Err(e),
        },
        RhaiValue::ObjectMap(es) => match json_of_entries(es, es.len() as int) {
            Ok(js) => Ok(Json::Obj(js)),
            Err(e) => Err(e),
        },
        RhaiValue::Other => Err("Unsupported Rhai value"@),
    }
}

/// The documents of the first `k` items.
pub open spec fn json_of_items(items: Seq<RhaiValue>, k: int) -> Result<Seq<Json>, Seq<char>>
    decreases items, k,
{
    if k <= 0 || k > items.len() {
        Ok(Seq::empty())
    } else {
        match json_of_items(items, k - 1) {
            Err(e) => Err(e),
            Ok(prev) => match json_of_script(items[k - 1]) {
                Err(e) => Err(e),
                Ok(j) => Ok(prev.push(j)),
            },
        }
    }
}

/// The document entries of the first `k` map entries.
pub open spec fn json_of_entries(es: Seq<(Seq<char>, RhaiValue)>, k: int) -> Result<Seq<(Seq<char>, Json)>, Seq<char>>
    decreases es, k,
{
    if k <= 0 || k > es.len() {
        Ok(Seq::empty())
    } else {
        match json_of_entries(es, k - 1) {
            Err(e) => Err(e),
            Ok(prev) => match json_of_script(es[k - 1].1) {
                Err(e) => Err(e),
                Ok(j) => Ok(prev.push((es[k - 1].0, j))),
            },
        }
    }
}

/// The view of a conversion result: the document, or the error message.
pub open spec fn json_result_view(r: Result<JsonValue, String>) -> Result<Json, Seq<char>> {
    match r {
        Ok(j) => Ok(j@),
        Err(e) => Err(e@),
    }
}

/// The document entries of the first `k` map entries have the keys of those entries.
pub proof fn lemma_json_of_entries_keys(es: Seq<(Seq<char>, RhaiValue)>, k: int)
    requires
        0 <= k <= es.len(),
    ensures
        json_of_entries(es, k) matches Ok(js) ==> {
            &&& js.len() == k
            &&& forall|i: int| 0 <= i < k ==> (#[trigger] js[i]).0 == es[i].0
            &&& (map_keys_unique(es) ==> keys_unique(js))
        },
    decreases k,
{
    if k > 0 {
        lemma_json_of_entries_keys(es, k - 1);
        if let Ok(js) = json_of_entries(es, k) {
            let prev = json_of_entries(es, k - 1)->Ok_0;
            assert forall|i: int| 0 <= i < k implies (#[trigger] js[i]).0 == es[i].0 by {
                if i < prev.len() {
                    assert(js[i] == prev[i]);
                }
            }
            if map_keys_unique(es) {
                assert forall|a: int, b: int|
                    0 <= a < js.len() && 0 <= b < js.len() && a != b implies (#[trigger] js[a]).0
                    != (#[trigger] js[b]).0 by {
                    assert(js[a].0 == es[a].0);
                    assert(js[b].0 == es[b].0);
                }
            }
        }
    }
}

/// Reads the JSON document a Rhai value stands for (see `json_of_script`).
pub fn dynamic_to_json(value: &ScriptValue) -> (r: Result<JsonValue, String>)
    ensures
        json_result_view(r) == json_of_script(value@),
        r matches Ok(j) ==> json_wf(j@),
    decreases value@,
{
    if script_is_unit(value) {
        return Ok(JsonValue::Null);
    }
    if let Some(b) = script_try_bool(script_clone(value)) {
        return Ok(JsonValue::Bool(b));
    }
    if let Some(i) = script_try_int(script_clone(value)) {
        let n = if i < 0 { JsonNumber::NegInt(i) } else { JsonNumber::PosInt(i as u64) };
        return Ok(JsonValue::Number(n));
    }
    if let Some(bits) = script_try_float(script_clone(value)) {
        if (bits / 0x10_0000_0000_0000) % 0x800 != 0x7ff {
            return Ok(JsonValue::Number(JsonNumber::Float(bits)));
        } else {
            return Err(String::from_str("Invalid float"));
        }
    }
    if let Some(s) = script_try_string(script_clone(value)) {
        return Ok(JsonValue::String(s));
    }
    if let Some(arr) = script_try_array(script_clone(value)) {
        let ghost items = value@->Array_0;
        let mut out: Vec<JsonValue> = Vec::new();
        let mut i: usize = 0;
        proof {
            lemma_view_items(out@);
            assert(view_items(out@) =~= json_of_items(items, 0)->Ok_0);
        }
        while i < arr.len()
            invariant
                0 <= i <= arr.len(),
                value@ == RhaiValue::Array(items),
                models_of(arr@) == items,
                json_of_items(items, i as int) is Ok,
                view_items(out@) == json_of_items(items, i as int)->Ok_0,
                out.len() == i,
                view_items(out@).len() == i,
                forall|k: int| 0 <= k < i ==> json_wf(#[trigger] view_items(out@)[k]),
            decreases arr.len() - i,
        {
            assert(arr@[i as int]@ == items[i as int]);
            proof {
                assert(decreases_to!(value@ => items));
                assert(decreases_to!(items => items[i as int]));
            }
            match dynamic_to_json(&arr[i]) {
                Ok(j) => {
                    proof {
                        lemma_view_items(out@);
                        lemma_view_items(out@.push(j));
                        assert(view_items(out@.push(j)) =~= view_items(out@).push(j@));
                        assert(view_items(out@.push(j))[i as int] == j@);
                        assert(forall|k: int| 0 <= k < i + 1 ==> json_wf(#[trigger] view_items(out@.push(j))[k]));
                    }
                    out.push(j);
                },
                Err(e) => {
                    assert(json_of_items(items, i + 1) == Err::<Seq<Json>, Seq<char>>(e@));
                    proof {
                        lemma_json_of_items_err(items, i + 1, items.len() as int);
                    }
                    return Err(e);
                },
            }
            i = i + 1;
        }
        let r = JsonValue::Array(out);
        proof {
            let js = view_items(out@);
            lemma_view_items(out@);
            assert(r@ matches Json::Arr(its) && its == js);
            assert(json_wf(r@));
        }
        return Ok(r);
    }
    if let Some(entries) = script_try_map(script_clone(value)) {
        let ghost es = value@->ObjectMap_0;
        let mut out: Vec<(String, JsonValue)> = Vec::new();
        let mut i: usize = 0;
        proof {
            lemma_view_entries(out@);
            assert(view_entries(out@) =~= json_of_entries(es, 0)->Ok_0);
        }
        while i < entries.len()
            invariant
                0 <= i <= entries.len(),
                value@ == RhaiValue::ObjectMap(es),
                entry_models(entries@) == es,
                json_of_entries(es, i as int) is Ok,
                view_entries(out@) == json_of_entries(es, i as int)->Ok_0,
                map_keys_unique(es),
                entries.len() == es.len(),
                forall|k: int| 0 <= k < view_entries(out@).len() ==> json_wf(#[trigger] view_entries(out@)[k].1),
            decreases entries.len() - i,
        {
            assert(entry_models(entries@)[i as int] == (entries@[i as int].0@, entries@[i as int].1@));
            proof {
                assert(decreases_to!(value@ => es));
                assert(decreases_to!(es => es[i as int]));
                assert(decreases_to!(es[i as int] => es[i as int].1));
            }
            match dynamic_to_json(&entries[i].1) {
                Ok(j) => {
                    let e = (entries[i].0.clone(), j);
                    proof {
                        lemma_view_entries_push(out@, e);
                        let nv = view_entries(out@.push(e));
                        assert(forall|k: int| 0 <= k < nv.len() ==> json_wf(#[trigger] nv[k].1));
                    }
                    out.push(e);
                },
                Err(e) => {
                    proof {
                        lemma_json_of_entries_err(es, i + 1, es.len() as int);
                    }
                    return Err(e);
                },
            }
            i = i + 1;
        }
        let r = JsonValue::Object(out);
        proof {
            lemma_json_of_entries_keys(es, es.len() as int);
            let js = view_entries(out@);
            assert(keys_unique(js));
            assert(r@ matches Json::Obj(its) && its == js);
            assert(json_wf(r@));
        }
        return Ok(r);
    }
    Err(String::from_str("Unsupported Rhai value"))
}

/// Once the first `k` items stand for no document, neither do the first `n >= k`, for the same reason.
pub proof fn lemma_json_of_items_err(items: Seq<RhaiValue>, k: int, n: int)
    requires
        0 < k <= n <= items.len(),
        json_of_items(items, k) is Err,
    ensures
        json_of_items(items, n) == json_of_items(items, k),
    decreases n - k,
{
    if n > k {
        lemma_json_of_items_err(items, k, n - 1);
    }
}

/// Once the first `k` entries stand for no document, neither do the first `n >= k`, for the same reason.
pub proof fn lemma_json_of_entries_err(es: Seq<(Seq<char>, RhaiValue)>, k: int, n: int)
    requires
        0 < k <= n <= es.len(),
        json_of_entries(es, k) is Err,
    ensures
        json_of_entries(es, n) == json_of_entries(es, k),
    decreases n - k,
{
    if n > k {
        lemma_json_of_entries_err(es, k, n - 1);
    }
}


/// Whether the map entries `ms` hold key `key`.
pub open spec fn map_has_key(ms: Seq<(Seq<char>, RhaiValue)>, key: Seq<char>) -> bool {
    exists|k: int| 0 <= k < ms.len() && (#[trigger] ms[k]).0 == key
}

/// A Rhai value holds what a JSON document holds: `null` as unit, numbers as integers
/// (see `int_of_pos`) or floats, arrays item by item, objects as maps with the same
/// keys and matching values.
pub open spec fn script_matches_json(m: RhaiValue, j: Json) -> bool
    decreases j,
{
    match j {
        Json::Null => m == RhaiValue::Unit,
        Json::Bool(b) => m == RhaiValue::Bool(b),
        Json::Num(n) => match n {
            JsonNumber::PosInt(u) => m == RhaiValue::Int(int_of_pos(u)),
            JsonNumber::NegInt(i) => m == RhaiValue::Int(i),
            JsonNumber::Float(bits) => m == RhaiValue::Float(bits),
        },
        Json::Str(s) => m == RhaiValue::Str(s),
        Json::Arr(items) => m matches RhaiValue::Array(ms) && ms.len() == items.len() && forall|i: int|
            0 <= i < items.len() ==> script_matches_json(#[trigger] ms[i], items[i]),
        Json::Obj(entries) => m matches RhaiValue::ObjectMap(ms) && {
            &&& ms.len() == entries.len()
            &&& map_keys_unique(ms)
            &&& forall|i: int| 0 <= i < entries.len() ==> map_has_key(ms, (#[trigger] entries[i]).0)
            &&& forall|i: int, k: int|
                0 <= i < entries.len() && 0 <= k < ms.len() && (#[trigger] ms[k]).0 == (#[trigger] entries[i]).0
                    ==> script_matches_json(ms[k].1, entries[i].1)
        },
    }
}

/// Builds the Rhai value that holds what `value` holds (see `script_matches_json`).
pub fn json_to_dynamic(value: &JsonValue) -> (r: ScriptValue)
    requires
        json_wf(value@),
    ensures
        script_matches_json(r@, value@),
    decreases value,
{
    match value {
        JsonValue::Null => script_unit(),
        JsonValue::Bool(b) => script_from_bool(*b),
        JsonValue::Number(n) => match n {
            JsonNumber::PosInt(u) => {
                if *u <= i64::MAX as u64 {
                    script_from_int(*u as i64)
                } else {
                    script_from_int(((*u - 0x8000_0000_0000_0000u64) as i64) + i64::MIN)
                }
            },
            JsonNumber::NegInt(i) => script_from_int(*i),
            JsonNumber::Float(bits) => script_from_float(*bits),
        },
        JsonValue::String(s) => script_from_string(s.clone()),
        JsonValue::Array(xs) => {
            let ghost xv = view_items(xs@);
            proof {
                lemma_view_items(xs@);
            }
            let mut out: Vec<ScriptValue> = Vec::new();
            let mut i: usize = 0;
            while i < xs.len()
                invariant
                    0 <= i <= xs.len(),
                    *value == JsonValue::Array(*xs),
                    value@ == Json::Arr(xv),
                    json_wf(value@),
                    xv == view_items(xs@),
                    xv.len() == xs.len(),
                    forall|k: int| 0 <= k < xs.len() ==> #[trigger] xv[k] == xs@[k]@,
                    out.len() == i,
                    forall|k: int| 0 <= k < i ==> script_matches_json(#[trigger] models_of(out@)[k], xv[k]),
                decreases xs.len() - i,
            {
                proof {
                    lemma_wf_item(xv, i as int);
                    assert(decreases_to!(*value => (*value)->Array_0));
                    assert(decreases_to!(*xs => xs[i as int]));
                }
                let d = json_to_dynamic(&xs[i]);
                let ghost old_out = out@;
                out.push(d);
                assert(models_of(out@)[i as int] == d@);
                assert(forall|k: int| 0 <= k < i ==> #[trigger] models_of(out@)[k] == models_of(old_out)[k]);
                i = i + 1;
            }
            let r = script_from_array(out);
            assert(models_of(out@).len() == xv.len());
            r
        },
        JsonValue::Object(es) => {
            let ghost ev = view_entries(es@);
            proof {
                lemma_view_entries(es@);
                crate::json::lemma_wf_keys(ev);
            }
            let mut out: Vec<(String, ScriptValue)> = Vec::new();
            let mut i: usize = 0;
            while i < es.len()
                invariant
                    0 <= i <= es.len(),
                    *value == JsonValue::Object(*es),
                    value@ == Json::Obj(ev),
                    json_wf(value@),
                    keys_unique(ev),
                    ev == view_entries(es@),
                    ev.len() == es.len(),
                    forall|k: int| 0 <= k < es.len() ==> #[trigger] ev[k] == (es@[k].0@, es@[k].1@),
                    out.len() == i,
                    forall|k: int| 0 <= k < i ==> (#[trigger] entry_models(out@)[k]).0 == ev[k].0
                        && script_matches_json(entry_models(out@)[k].1, ev[k].1),
                decreases es.len() - i,
            {
                proof {
                    lemma_wf_entry(ev, i as int);
                    assert(decreases_to!(*value => (*value)->Object_0));
                    assert(decreases_to!(*es => es[i as int]));
                }
                let d = json_to_dynamic(&es[i].1);
                let e = (es[i].0.clone(), d);
                let ghost old_out = out@;
                out.push(e);
                assert(forall|k: int| 0 <= k < i ==> #[trigger] entry_models(out@)[k] == entry_models(old_out)[k]);
                assert(entry_models(out@)[i as int] == (e.0@, e.1@));
                i = i + 1;
            }
            let ghost em = entry_models(out@);
            assert(map_keys_unique(em)) by {
                assert forall|a: int, b: int| 0 <= a < em.len() && 0 <= b < em.len() && a != b implies
                    (#[trigger] em[a]).0 != (#[trigger] em[b]).0 by {
                    assert(em[a].0 == ev[a].0);
                    assert(em[b].0 == ev[b].0);
                }
            }
            let r = script_from_map(out);
            proof {
                let ms = r@->ObjectMap_0;
                assert forall|i: int| 0 <= i < ev.len() implies map_has_key(ms, (#[trigger] ev[i]).0) by {
                    assert(em[i] == em[i]);
                    let k = choose|k: int| 0 <= k < ms.len() && ms[k] == em[i];
                    assert(em[i].0 == ev[i].0);
                    assert(0 <= k < ms.len() && ms[k].0 == ev[i].0);
                }
                assert forall|i: int, k: int|
                    0 <= i < ev.len() && 0 <= k < ms.len() && (#[trigger] ms[k]).0 == (#[trigger] ev[i]).0
                    implies script_matches_json(ms[k].1, ev[i].1) by {
                    assert(em[i] == em[i]);
                    let j = choose|j: int| 0 <= j < ms.len() && ms[j] == em[i];
                    assert(em[i].0 == ev[i].0 && script_matches_json(em[i].1, ev[i].1));
                    assert(ms[j].0 == ms[k].0);
                }
            }
            r
        },
    }
}

/// Every non-negative integer in `j` fits in a Rhai integer (`i64`).
pub open spec fn fits_script_ints(j: Json) -> bool
    decreases j,
{
    match j {
        Json::Num(JsonNumber::PosInt(u)) => u <= i64::MAX,
        Json::Arr(items) => forall|i: int| 0 <= i < items.len() ==> fits_script_ints(#[trigger] items[i]),
        Json::Obj(entries) => forall|i: int| 0 <= i < entries.len() ==> fits_script_ints(#[trigger] entries[i].1),
        _ => true,
    }
}

/// Among two sequences of the same length without repeats, if every item of `a` is in
/// `b`, then every item of `b` is in `a`.
pub proof fn lemma_same_size_cover<K>(a: Seq<K>, b: Seq<K>)
    requires
        a.no_duplicates(),
        b.no_duplicates(),
        a.len() == b.len(),
        forall|i: int| 0 <= i < a.len() ==> b.contains(#[trigger] a[i]),
    ensures
        forall|i: int| 0 <= i < b.len() ==> a.contains(#[trigger] b[i]),
{
    a.unique_seq_to_set();
    b.unique_seq_to_set();
    vstd::seq_lib::seq_to_set_is_finite(a);
    vstd::seq_lib::seq_to_set_is_finite(b);
    assert forall|x: K| a.to_set().contains(x) implies b.to_set().contains(x) by {
        let i = choose|i: int| 0 <= i < a.len() && a[i] == x;
        assert(b.contains(a[i]));
    }
    vstd::set_lib::lemma_subset_equality(a.to_set(), b.to_set());
    assert forall|i: int| 0 <= i < b.len() implies a.contains(#[trigger] b[i]) by {
        assert(b.to_set().contains(b[i]));
        assert(a.to_set().contains(b[i]));
    }
}

/// Every key of the map `ms` that holds what the object `entries` holds is a key of `entries`.
pub proof fn lemma_map_keys_are_object_keys(ms: Seq<(Seq<char>, RhaiValue)>, entries: Seq<(Seq<char>, Json)>)
    requires
        keys_unique(entries),
        map_keys_unique(ms),
        ms.len() == entries.len(),
        forall|i: int| 0 <= i < entries.len() ==> map_has_key(ms, (#[trigger] entries[i]).0),
    ensures
        forall|q: int| 0 <= q < ms.len() ==> has_key(entries, (#[trigger] ms[q]).0),
{
    let a = entries.map_values(|e: (Seq<char>, Json)| e.0);
    let b = ms.map_values(|e: (Seq<char>, RhaiValue)| e.0);
    assert forall|i: int| 0 <= i < a.len() implies b.contains(#[trigger] a[i]) by {
        assert(map_has_key(ms, entries[i].0));
        let k = choose|k: int| 0 <= k < ms.len() && (#[trigger] ms[k]).0 == entries[i].0;
        assert(b[k] == a[i]);
    }
    assert(a.no_duplicates()) by {
        assert forall|i: int, j: int| 0 <= i < a.len() && 0 <= j < a.len() && i != j implies a[i] != a[j] by {
            assert(entries[i].0 != entries[j].0);
        }
    }
    assert(b.no_duplicates()) by {
        assert forall|i: int, j: int| 0 <= i < b.len() && 0 <= j < b.len() && i != j implies b[i] != b[j] by {
            assert(ms[i].0 != ms[j].0);
        }
    }
    lemma_same_size_cover(a, b);
    assert forall|q: int| 0 <= q < ms.len() implies has_key(entries, (#[trigger] ms[q]).0) by {
        assert(a.contains(b[q]));
        let i = choose|i: int| 0 <= i < a.len() && a[i] == b[q];
        assert(entries[i].0 == ms[q].0);
    }
}

/// Law: a document carried into a script and read back untouched is the same document,
/// provided its non-negative integers fit in a Rhai integer (larger ones come back
/// wrapped to negative numbers).
pub proof fn lemma_script_roundtrip(m: RhaiValue, j: Json)
    requires
        json_wf(j),
        fits_script_ints(j),
        script_matches_json(m, j),
    ensures
        json_of_script(m) matches Ok(k) && json_eq(j, k) && json_wf(k),
    decreases j, 0nat,
{
    reveal_with_fuel(fits_script_ints, 2);
    match j {
        Json::Num(n) => {
            match n {
                JsonNumber::Float(bits) => {},
                _ => {},
            }
        },
        Json::Arr(items) => {
            let ms = m->Array_0;
            lemma_roundtrip_items(ms, items, items.len() as int);
            let ks = json_of_items(ms, ms.len() as int)->Ok_0;
            let k = Json::Arr(ks);
            assert(k matches Json::Arr(its) && its == ks);
            assert(json_wf(k));
            assert(json_eq(j, k)) by {
                reveal_with_fuel(json_eq, 2);
            }
        },
        Json::Obj(entries) => {
            let ms = m->ObjectMap_0;
            crate::json::lemma_wf_keys(entries);
            lemma_map_keys_are_object_keys(ms, entries);
            lemma_roundtrip_entries(ms, entries, ms.len() as int);
            lemma_json_of_entries_keys(ms, ms.len() as int);
            let ks = json_of_entries(ms, ms.len() as int)->Ok_0;
            let k = Json::Obj(ks);
            assert forall|i: int| 0 <= i < entries.len() implies has_key(ks, (#[trigger] entries[i]).0) && json_eq(
                entries[i].1, value_of(ks, entries[i].0)) by {
                assert(map_has_key(ms, entries[i].0));
                let q = choose|q: int| 0 <= q < ms.len() && (#[trigger] ms[q]).0 == entries[i].0;
                lemma_value_of_index(ks, q);
                assert(ks[q].0 == entries[i].0);
                assert(json_of_script(ms[q].1) == Ok::<Json, Seq<char>>(ks[q].1));
                crate::json::lemma_wf_entry(entries, i);
                assert(decreases_to!(j => entries));
                lemma_script_roundtrip(ms[q].1, entries[i].1);
            }
            assert(k matches Json::Obj(its) && its == ks);
            assert(json_wf(k));
            assert(json_eq(j, k)) by {
                reveal_with_fuel(json_eq, 2);
            }
        },
        _ => {},
    }
}

/// The first `k` items carried into a script and read back untouched equal the originals.
pub proof fn lemma_roundtrip_items(ms: Seq<RhaiValue>, items: Seq<Json>, k: int)
    requires
        0 <= k <= items.len(),
        ms.len() == items.len(),
        forall|i: int| 0 <= i < items.len() ==> json_wf(#[trigger] items[i]),
        forall|i: int| 0 <= i < items.len() ==> fits_script_ints(#[trigger] items[i]),
        forall|i: int| 0 <= i < items.len() ==> script_matches_json(#[trigger] ms[i], items[i]),
    ensures
        json_of_items(ms, k) matches Ok(ks) && ks.len() == k && forall|i: int|
            0 <= i < k ==> json_eq(items[i], #[trigger] ks[i]) && json_wf(ks[i]),
    decreases items, k,
{
    if k > 0 {
        lemma_roundtrip_items(ms, items, k - 1);
        assert(script_matches_json(ms[k - 1], items[k - 1]));
        lemma_script_roundtrip(ms[k - 1], items[k - 1]);
        let prev = json_of_items(ms, k - 1)->Ok_0;
        let ks = json_of_items(ms, k)->Ok_0;
        assert forall|i: int| 0 <= i < k implies json_eq(items[i], #[trigger] ks[i]) && json_wf(ks[i]) by {
            if i < k - 1 {
                assert(ks[i] == prev[i]);
            }
        }
    }
}

/// The first `k` entries of a map that holds what an object holds read back as
/// documents with the map's keys.
pub proof fn lemma_roundtrip_entries(ms: Seq<(Seq<char>, RhaiValue)>, entries: Seq<(Seq<char>, Json)>, k: int)
    requires
        0 <= k <= ms.len(),
        keys_unique(entries),
        forall|i: int| 0 <= i < entries.len() ==> json_wf(#[trigger] entries[i].1),
        forall|i: int| 0 <= i < entries.len() ==> fits_script_ints(#[trigger] entries[i].1),
        forall|q: int| 0 <= q < ms.len() ==> has_key(entries, (#[trigger] ms[q]).0),
        forall|i: int, q: int|
            0 <= i < entries.len() && 0 <= q < ms.len() && (#[trigger] ms[q]).0 == (#[trigger] entries[i]).0
                ==> script_matches_json(ms[q].1, entries[i].1),
    ensures
        json_of_entries(ms, k) matches Ok(ks) && ks.len() == k && forall|q: int|
            0 <= q < k ==> (#[trigger] ks[q]).0 == ms[q].0 && json_wf(ks[q].1) && json_of_script(ms[q].1) == Ok::<Json, Seq<char>>(ks[q].1),
    decreases entries, k,
{
    if k > 0 {
        lemma_roundtrip_entries(ms, entries, k - 1);
        assert(has_key(entries, ms[k - 1].0));
        let p = choose|p: int| 0 <= p < entries.len() && (#[trigger] entries[p]).0 == ms[k - 1].0;
        assert(script_matches_json(ms[k - 1].1, entries[p].1));
        assert(decreases_to!(entries => entries[p]));
        lemma_script_roundtrip(ms[k - 1].1, entries[p].1);
        let prev = json_of_entries(ms, k - 1)->Ok_0;
        let ks = json_of_entries(ms, k)->Ok_0;
        assert forall|q: int| 0 <= q < k implies (#[trigger] ks[q]).0 == ms[q].0 && json_wf(ks[q].1) && json_of_script(ms[q].1) == Ok::<Json, Seq<char>>(ks[q].1) by {
            if q < k - 1 {
                assert(ks[q] == prev[q]);
            }
        }
    }
}

}
