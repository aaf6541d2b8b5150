//! JSON documents: the library's own form of them, their meaning as values
//! (`Json`), equality and well-formedness.
use vstd::prelude::*;

verus! {

/// A JSON number: a non-negative integer, a negative integer, or a float given by
/// its IEEE-754 bit pattern (see `number_wf`).
#[derive(Clone, Copy, Debug, PartialEq, Eq)]
pub enum JsonNumber {
    PosInt(u64),
    NegInt(i64),
    Float(u64),
}

/// A JSON document. An object is the sequence of its entries. The derived `==`
/// compares structure; `json_equal` compares documents as JSON values.
#[derive(Debug, PartialEq)]
pub enum JsonValue {
    Null,
    Bool(bool),
    Number(JsonNumber),
    String(String),
    Array(Vec<JsonValue>),
    Object(Vec<(String, JsonValue)>),
}

/// What a JSON document is, as a mathematical value.
pub enum Json {
    Null,
    Bool(bool),
    Num(JsonNumber),
    Str(Seq<char>),
    Arr(Seq<Json>),
    Obj(Seq<(Seq<char>, Json)>),
}

/// The value of a document.
pub open spec fn view_json(v: JsonValue) -> Json
    decreases v, 0nat,
{
    match v {
        JsonValue::Null => Json::Null,
        JsonValue::Bool(b) => Json::Bool(b),
        JsonValue::Number(n) => Json::Num(n),
        JsonValue::String(s) => Json::Str(s@),
        JsonValue::Array(items) => Json::Arr(view_items(items@)),
        JsonValue::Object(entries) => Json::Obj(view_entries(entries@)),
    }
}

/// The values of a sequence of documents.
pub open spec fn view_items(s: Seq<JsonValue>) -> Seq<Json>
    decreases s, s.len(),
{
    if s.len() == 0 {
        Seq::empty()
    } else {
        view_items(s.drop_last()).push(view_json(s.last()))
    }
}

/// The keys and values of a sequence of object entries.
pub open spec fn view_entries(s: Seq<(String, JsonValue)>) -> Seq<(Seq<char>, Json)>
    decreases s, s.len(),
{
    if s.len() == 0 {
        Seq::empty()
    } else {
        view_entries(s.drop_last()).push((s.last().0@, view_json(s.last().1)))
    }
}

impl View for JsonValue {
    type V = Json;

    open spec fn view(&self) -> Json {
        view_json(*self)
    }
}

impl Clone for JsonValue {
    /// A deep copy (see `duplicate`).
    fn clone(&self) -> (r: Self)
        ensures
            r@ == self@,
    {
        self.duplicate()
    }
}

impl DeepView for JsonValue {
    type V = Json;

    open spec fn deep_view(&self) -> Json {
        view_json(*self)
    }
}

/// The value of `v` under key `k`, when `v` is an object holding that key.
pub open spec fn obj_get(v: Json, k: Seq<char>) -> Option<Json> {
    match v {
        Json::Obj(entries) => if has_key(entries, k) {
            Some(value_of(entries, k))
        } else {
            None
        },
        _ => None,
    }
}


/// Whether the IEEE-754 bit pattern `bits` encodes positive or negative zero.
pub open spec fn is_zero_bits(bits: u64) -> bool {
    bits == 0 || bits == 0x8000_0000_0000_0000
}

/// Whether the IEEE-754 bit pattern `bits` encodes a finite number
/// (its exponent field is not all ones).
pub open spec fn is_finite_bits(bits: u64) -> bool {
    (bits / 0x10_0000_0000_0000) % 0x800 != 0x7ff
}

/// A JSON number is well formed when a negative integer is negative and a float is finite.
pub open spec fn number_wf(n: JsonNumber) -> bool {
    match n {
        JsonNumber::PosInt(_) => true,
        JsonNumber::NegInt(i) => i < 0,
        JsonNumber::Float(bits) => is_finite_bits(bits),
    }
}

/// Equality of JSON numbers: integers compare by value within their kind, floats
/// as IEEE-754 numbers (so positive and negative zero are equal).
pub open spec fn number_eq(a: JsonNumber, b: JsonNumber) -> bool {
    match (a, b) {
        (JsonNumber::PosInt(x), JsonNumber::PosInt(y)) => x == y,
        (JsonNumber::NegInt(x), JsonNumber::NegInt(y)) => x == y,
        (JsonNumber::Float(x), JsonNumber::Float(y)) => x == y || (is_zero_bits(x) && is_zero_bits(y)),
        _ => false,
    }
}

/// Whether `entries` holds an entry with key `k`.
pub open spec fn has_key(entries: Seq<(Seq<char>, Json)>, k: Seq<char>) -> bool {
    exists|i: int| 0 <= i < entries.len() && (#[trigger] entries[i]).0 == k
}

/// The value stored under key `k` (meaningful when `has_key(entries, k)`).
pub open spec fn value_of(entries: Seq<(Seq<char>, Json)>, k: Seq<char>) -> Json {
    entries[choose|i: int| 0 <= i < entries.len() && (#[trigger] entries[i]).0 == k].1
}

/// No key occurs twice among `entries`.
pub open spec fn keys_unique(entries: Seq<(Seq<char>, Json)>) -> bool {
    forall|i: int, j: int|
        0 <= i < entries.len() && 0 <= j < entries.len() && i != j ==> (#[trigger] entries[i]).0
            != (#[trigger] entries[j]).0
}

/// A well-formed JSON document: numbers are well formed and every object has distinct keys.
pub open spec fn json_wf(v: Json) -> bool
    decreases v,
{
    match v {
        Json::Num(n) => number_wf(n),
        Json::Arr(items) => forall|i: int| 0 <= i < items.len() ==> json_wf(#[trigger] items[i]),
        Json::Obj(entries) => {
            &&& keys_unique(entries)
            &&& forall|i: int| 0 <= i < entries.len() ==> json_wf(#[trigger] entries[i].1)
        },
        _ => true,
    }
}

/// Equality of JSON documents: arrays compare element by element, objects as maps
/// from keys to values (the order of entries does not matter).
pub open spec fn json_eq(a: Json, b: Json) -> bool
    decreases a,
{
    match (a, b) {
        (Json::Null, Json::Null) => true,
        (Json::Bool(x), Json::Bool(y)) => x == y,
        (Json::Num(x), Json::Num(y)) => number_eq(x, y),
        (Json::Str(x), Json::Str(y)) => x == y,
        (Json::Arr(x), Json::Arr(y)) => {
            &&& x.len() == y.len()
            &&& forall|i: int| 0 <= i < x.len() ==> json_eq(#[trigger] x[i], y[i])
        },
        (Json::Obj(x), Json::Obj(y)) => {
            &&& x.len() == y.len()
            &&& forall|i: int|
                0 <= i < x.len() ==> has_key(y, (#[trigger] x[i]).0) && json_eq(
                    x[i].1,
                    value_of(y, x[i].0),
                )
        },
        _ => false,
    }
}


/// The values of a sequence of documents, item by item.
pub proof fn lemma_view_items(s: Seq<JsonValue>)
    ensures
        view_items(s).len() == s.len(),
        forall|i: int| 0 <= i < s.len() ==> #[trigger] view_items(s)[i] == view_json(s[i]),
    decreases s.len(),
{
    if s.len() > 0 {
        lemma_view_items(s.drop_last());
    }
}

/// The keys and values of a sequence of entries, entry by entry.
pub proof fn lemma_view_entries(s: Seq<(String, JsonValue)>)
    ensures
        view_entries(s).len() == s.len(),
        forall|i: int|
            0 <= i < s.len() ==> #[trigger] view_entries(s)[i] == (s[i].0@, view_json(s[i].1)),
    decreases s.len(),
{
    if s.len() > 0 {
        lemma_view_entries(s.drop_last());
    }
}

/// Adding an entry adds its key and value.
pub proof fn lemma_view_entries_push(s: Seq<(String, JsonValue)>, e: (String, JsonValue))
    ensures
        view_entries(s.push(e)) == view_entries(s).push((e.0@, view_json(e.1))),
{
    assert(s.push(e).drop_last() =~= s);
}

/// A well-formed object has distinct keys.
pub proof fn lemma_wf_keys(entries: Seq<(Seq<char>, Json)>)
    requires
        json_wf(Json::Obj(entries)),
    ensures
        keys_unique(entries),
{
}

/// With distinct keys, the value stored under the key of entry `j` is that entry's value.
pub proof fn lemma_value_of_index(entries: Seq<(Seq<char>, Json)>, j: int)
    requires
        keys_unique(entries),
        0 <= j < entries.len(),
    ensures
        has_key(entries, entries[j].0),
        value_of(entries, entries[j].0) == entries[j].1,
{
    assert(entries[j].0 == entries[j].0);
}

/// The items of a well-formed array are well formed.
pub proof fn lemma_wf_item(items: Seq<Json>, i: int)
    requires
        json_wf(Json::Arr(items)),
        0 <= i < items.len(),
    ensures
        json_wf(items[i]),
{
    let v = Json::Arr(items);
    assert(v matches Json::Arr(its) && its == items);
    assert(forall|k: int| 0 <= k < items.len() ==> json_wf(#[trigger] items[k]));
}

/// The values of a well-formed object are well formed.
pub proof fn lemma_wf_entry(entries: Seq<(Seq<char>, Json)>, i: int)
    requires
        json_wf(Json::Obj(entries)),
        0 <= i < entries.len(),
    ensures
        json_wf(entries[i].1),
        keys_unique(entries),
{
    reveal_with_fuel(json_wf, 2);
}

/// Equal arrays have equal items.
pub proof fn lemma_eq_item(x: Seq<Json>, y: Seq<Json>, i: int)
    requires
        json_eq(Json::Arr(x), Json::Arr(y)),
        0 <= i < x.len(),
    ensures
        json_eq(x[i], y[i]),
{
    reveal_with_fuel(json_eq, 2);
}

/// Each entry of an object equals the entry under its key in an equal object.
pub proof fn lemma_eq_entry(x: Seq<(Seq<char>, Json)>, y: Seq<(Seq<char>, Json)>, i: int)
    requires
        json_eq(Json::Obj(x), Json::Obj(y)),
        0 <= i < x.len(),
    ensures
        has_key(y, x[i].0),
        json_eq(x[i].1, value_of(y, x[i].0)),
{
    reveal_with_fuel(json_eq, 2);
}

/// The position of the entry with key `key` among `entries`, if there is one.
pub fn find_entry(entries: &Vec<(String, JsonValue)>, key: &String) -> (r: Option<usize>)
    ensures
        match r {
            Some(j) => j < entries.len() && entries@[j as int].0@ == key@,
            None => forall|k: int| 0 <= k < entries.len() ==> (#[trigger] entries@[k]).0@ != key@,
        },
{
    let mut j: usize = 0;
    while j < entries.len()
        invariant
            0 <= j <= entries.len(),
            forall|k: int| 0 <= k < j ==> (#[trigger] entries@[k]).0@ != key@,
        decreases entries.len() - j,
    {
        if entries[j].0 == *key {
            return Some(j);
        }
        j = j + 1;
    }
    None
}

/// Equality of two JSON numbers (see `number_eq`).
pub fn number_equal(a: JsonNumber, b: JsonNumber) -> (r: bool)
    ensures
        r == number_eq(a, b),
{
    match (a, b) {
        (JsonNumber::PosInt(x), JsonNumber::PosInt(y)) => x == y,
        (JsonNumber::NegInt(x), JsonNumber::NegInt(y)) => x == y,
        (JsonNumber::Float(x), JsonNumber::Float(y)) => {
            x == y || ((x == 0 || x == 0x8000_0000_0000_0000) && (y == 0 || y
                == 0x8000_0000_0000_0000))
        },
        _ => false,
    }
}

/// Equality of two JSON documents, as `json_eq` states it.
pub fn json_equal(a: &JsonValue, b: &JsonValue) -> (r: bool)
    requires
        json_wf(b@),
    ensures
        r == json_eq(a@, b@),
    decreases a,
{
    match (a, b) {
        (JsonValue::Null, JsonValue::Null) => true,
        (JsonValue::Bool(x), JsonValue::Bool(y)) => *x == *y,
        (JsonValue::Number(x), JsonValue::Number(y)) => number_equal(*x, *y),
        (JsonValue::String(x), JsonValue::String(y)) => *x == *y,
        (JsonValue::Array(xs), JsonValue::Array(ys)) => {
            proof {
                lemma_view_items(xs@);
                lemma_view_items(ys@);
            }
            if xs.len() != ys.len() {
                return false;
            }
            let mut i: usize = 0;
            while i < xs.len()
                invariant
                    xs.len() == ys.len(),
                    0 <= i <= xs.len(),
                    *a == JsonValue::Array(*xs),
                    *b == JsonValue::Array(*ys),
                    a@ == Json::Arr(view_items(xs@)),
                    b@ == Json::Arr(view_items(ys@)),
                    json_wf(b@),
                    view_items(xs@).len() == xs.len(),
                    view_items(ys@).len() == ys.len(),
                    forall|k: int| 0 <= k < xs.len() ==> #[trigger] view_items(xs@)[k] == view_json(xs@[k]),
                    forall|k: int| 0 <= k < ys.len() ==> #[trigger] view_items(ys@)[k] == view_json(ys@[k]),
                    forall|k: int| 0 <= k < i ==> json_eq(#[trigger] view_items(xs@)[k], view_items(ys@)[k]),
                decreases xs.len() - i,
            {
                proof {
                    lemma_wf_item(view_items(ys@), i as int);
                    assert(decreases_to!(*a => (*a)->Array_0));
                    assert(decreases_to!(*xs => xs[i as int]));
                }
                if !json_equal(&xs[i], &ys[i]) {
                    proof {
                        if json_eq(a@, b@) {
                            lemma_eq_item(view_items(xs@), view_items(ys@), i as int);
                        }
                    }
                    return false;
                }
                i = i + 1;
            }
            true
        },
        (JsonValue::Object(xs), JsonValue::Object(ys)) => {
            proof {
                lemma_view_entries(xs@);
                lemma_view_entries(ys@);
            }
            let ghost yv = view_entries(ys@);
            if xs.len() != ys.len() {
                return false;
            }
            let mut i: usize = 0;
            while i < xs.len()
                invariant
                    xs.len() == ys.len(),
                    0 <= i <= xs.len(),
                    *a == JsonValue::Object(*xs),
                    *b == JsonValue::Object(*ys),
                    a@ == Json::Obj(view_entries(xs@)),
                    json_wf(b@),
                    yv == view_entries(ys@),
                    b@ == Json::Obj(yv),
                    keys_unique(yv),
                    view_entries(xs@).len() == xs.len(),
                    yv.len() == ys.len(),
                    forall|k: int| 0 <= k < xs.len() ==> #[trigger] view_entries(xs@)[k] == (xs@[k].0@, view_json(xs@[k].1)),
                    forall|k: int| 0 <= k < ys.len() ==> #[trigger] yv[k] == (ys@[k].0@, view_json(ys@[k].1)),
                    forall|k: int| 0 <= k < i ==> has_key(yv, (#[trigger] view_entries(xs@)[k]).0) && json_eq(
                        view_entries(xs@)[k].1, value_of(yv, view_entries(xs@)[k].0)),
                decreases xs.len() - i,
            {
                let key = &xs[i].0;
                let found = find_entry(ys, key);
                if found.is_none() {
                    assert(view_entries(xs@)[i as int].0 == key@);
                    assert forall|k: int| 0 <= k < yv.len() implies (#[trigger] yv[k]).0 != key@ by {
                        assert(yv[k] == (ys@[k].0@, view_json(ys@[k].1)));
                    }
                    return false;
                }
                let j = found.unwrap();
                proof {
                    lemma_value_of_index(yv, j as int);
                    lemma_wf_entry(yv, j as int);
                    assert(decreases_to!(*a => (*a)->Object_0));
                    assert(decreases_to!(*xs => xs[i as int]));
                }
                if !json_equal(&xs[i].1, &ys[j].1) {
                    proof {
                        if json_eq(a@, b@) {
                            lemma_eq_entry(view_entries(xs@), yv, i as int);
                        }
                    }
                    return false;
                }
                i = i + 1;
            }
            true
        },
        _ => false,
    }
}


impl JsonValue {
    /// A deep copy of this document.
    pub fn duplicate(&self) -> (r: JsonValue)
        ensures
            r@ == self@,
        decreases self,
    {
        match self {
            JsonValue::Null => JsonValue::Null,
            JsonValue::Bool(b) => JsonValue::Bool(*b),
            JsonValue::Number(n) => JsonValue::Number(*n),
            JsonValue::String(s) => JsonValue::String(s.clone()),
            JsonValue::Array(items) => {
                let mut out: Vec<JsonValue> = Vec::new();
                let mut i: usize = 0;
                proof {
                    lemma_view_items(items@);
                }
                while i < items.len()
                    invariant
                        0 <= i <= items.len(),
                        *self == JsonValue::Array(*items),
                        out.len() == i,
                        forall|k: int| 0 <= k < i ==> view_json(#[trigger] out@[k]) == view_json(items@[k]),
                    decreases items.len() - i,
                {
                    proof {
                        assert(decreases_to!(*self => (*self)->Array_0));
                        assert(decreases_to!(*items => items[i as int]));
                    }
                    let c = items[i].duplicate();
                    out.push(c);
                    i = i + 1;
                }
                proof {
                    lemma_view_items(out@);
                    assert(view_items(out@) =~= view_items(items@));
                }
                JsonValue::Array(out)
            },
            JsonValue::Object(entries) => {
                let mut out: Vec<(String, JsonValue)> = Vec::new();
                let mut i: usize = 0;
                proof {
                    lemma_view_entries(entries@);
                }
                while i < entries.len()
                    invariant
                        0 <= i <= entries.len(),
                        *self == JsonValue::Object(*entries),
                        out.len() == i,
                        forall|k: int| 0 <= k < i ==> (#[trigger] out@[k]).0@ == entries@[k].0@ && view_json(out@[k].1) == view_json(entries@[k].1),
                    decreases entries.len() - i,
                {
                    proof {
                        assert(decreases_to!(*self => (*self)->Object_0));
                        assert(decreases_to!(*entries => entries[i as int]));
                    }
                    let k = entries[i].0.clone();
                    let c = entries[i].1.duplicate();
                    out.push((k, c));
                    i = i + 1;
                }
                proof {
                    lemma_view_entries(out@);
                    assert(view_entries(out@) =~= view_entries(entries@));
                }
                JsonValue::Object(out)
            },
        }
    }

    /// The value under `key`, when this document is an object holding that key.
    pub fn get(&self, key: &str) -> (r: Option<&JsonValue>)
        requires
            json_wf(self@),
        ensures
            r.deep_view() == obj_get(self@, key@),
    {
        match self {
            JsonValue::Object(entries) => {
                proof {
                    lemma_view_entries(entries@);
                    lemma_wf_keys(view_entries(entries@));
                }
                let k = String::from_str(key);
                match find_entry(entries, &k) {
                    Some(j) => {
                        proof {
                            lemma_value_of_index(view_entries(entries@), j as int);
                        }
                        Some(&entries[j].1)
                    },
                    None => {
                        proof {
                            let ev = view_entries(entries@);
                            assert forall|m: int| 0 <= m < ev.len() implies (#[trigger] ev[m]).0 != key@ by {
                                assert(ev[m] == (entries@[m].0@, view_json(entries@[m].1)));
                            }
                        }
                        None
                    },
                }
            },
            _ => None,
        }
    }

    /// Whether this document is well formed (see `json_wf`).
    pub fn is_well_formed(&self) -> (r: bool)
        ensures
            r == json_wf(self@),
        decreases self,
    {
        match self {
            JsonValue::Number(n) => match n {
                JsonNumber::PosInt(_) => true,
                JsonNumber::NegInt(i) => *i < 0,
                JsonNumber::Float(bits) => (*bits / 0x10_0000_0000_0000) % 0x800 != 0x7ff,
            },
            JsonValue::Array(items) => {
                let ghost iv = view_items(items@);
                proof {
                    lemma_view_items(items@);
                }
                let mut i: usize = 0;
                while i < items.len()
                    invariant
                        0 <= i <= items.len(),
                        *self == JsonValue::Array(*items),
                        self@ == Json::Arr(iv),
                        iv == view_items(items@),
                        iv.len() == items.len(),
                        forall|k: int| 0 <= k < items.len() ==> #[trigger] iv[k] == view_json(items@[k]),
                        forall|k: int| 0 <= k < i ==> json_wf(#[trigger] iv[k]),
                    decreases items.len() - i,
                {
                    proof {
                        assert(decreases_to!(*self => (*self)->Array_0));
                        assert(decreases_to!(*items => items[i as int]));
                    }
                    if !items[i].is_well_formed() {
                        proof {
                            if json_wf(self@) {
                                lemma_wf_item(iv, i as int);
                            }
                        }
                        return false;
                    }
                    i = i + 1;
                }
                proof {
                    assert(self@ matches Json::Arr(its) && its == iv);
                }
                true
            },
            JsonValue::Object(entries) => {
                let ghost ev = view_entries(entries@);
                proof {
                    lemma_view_entries(entries@);
                }
                let mut i: usize = 0;
                while i < entries.len()
                    invariant
                        0 <= i <= entries.len(),
                        *self == JsonValue::Object(*entries),
                        self@ == Json::Obj(ev),
                        ev == view_entries(entries@),
                        ev.len() == entries.len(),
                        forall|k: int| 0 <= k < entries.len() ==> #[trigger] ev[k] == (entries@[k].0@, view_json(entries@[k].1)),
                        forall|k: int| 0 <= k < i ==> json_wf(#[trigger] ev[k].1),
                        forall|a: int, b: int| 0 <= a < i && 0 <= b < i && a != b ==> (#[trigger] ev[a]).0 != (#[trigger] ev[b]).0,
                    decreases entries.len() - i,
                {
                    proof {
                        assert(decreases_to!(*self => (*self)->Object_0));
                        assert(decreases_to!(*entries => entries[i as int]));
                    }
                    if !entries[i].1.is_well_formed() {
                        proof {
                            if json_wf(self@) {
                                lemma_wf_entry(ev, i as int);
                            }
                        }
                        return false;
                    }
                    let mut j: usize = 0;
                    while j < i
                        invariant
                            0 <= j <= i < entries.len(),
                            self@ == Json::Obj(ev),
                            ev.len() == entries.len(),
                            forall|k: int| 0 <= k < entries.len() ==> #[trigger] ev[k] == (entries@[k].0@, view_json(entries@[k].1)),
                            forall|k: int| 0 <= k < j ==> (#[trigger] ev[k]).0 != ev[i as int].0,
                        decreases i - j,
                    {
                        if entries[j].0 == entries[i].0 {
                            proof {
                                if json_wf(self@) {
                                    lemma_wf_keys(ev);
                                    assert(ev[j as int].0 == ev[i as int].0);
                                }
                            }
                            return false;
                        }
                        j = j + 1;
                    }
                    i = i + 1;
                }
                proof {
                    assert(self@ matches Json::Obj(its) && its == ev);
                    assert(keys_unique(ev));
                }
                true
            },
            _ => true,
        }
    }

    /// Whether this document is an object with no entries.
    pub fn is_empty_object(&self) -> (r: bool)
        ensures
            r == (self@ matches Json::Obj(e) && e.len() == 0),
    {
        match self {
            JsonValue::Object(entries) => {
                proof {
                    lemma_view_entries(entries@);
                }
                entries.len() == 0
            },
            _ => false,
        }
    }

    /// Whether this document is `null`.
    pub fn is_null(&self) -> (r: bool)
        ensures
            r == (self@ == Json::Null),
    {
        match self {
            JsonValue::Null => true,
            _ => false,
        }
    }
}


/// Every well-formed document equals itself.
pub proof fn lemma_json_eq_refl(v: Json)
    requires
        json_wf(v),
    ensures
        json_eq(v, v),
    decreases v,
{
    match v {
        Json::Arr(items) => {
            assert forall|i: int| 0 <= i < items.len() implies json_eq(#[trigger] items[i], items[i]) by {
                lemma_wf_item(items, i);
                lemma_json_eq_refl(items[i]);
            }
        },
        Json::Obj(entries) => {
            assert forall|i: int| 0 <= i < entries.len() implies has_key(entries, (#[trigger] entries[i]).0)
                && json_eq(entries[i].1, value_of(entries, entries[i].0)) by {
                lemma_wf_entry(entries, i);
                lemma_value_of_index(entries, i);
                lemma_json_eq_refl(entries[i].1);
            }
        },
        _ => {},
    }
}

/// The keys of `entries`, in order.
pub open spec fn keys_of(entries: Seq<(Seq<char>, Json)>) -> Seq<Seq<char>> {
    entries.map_values(|e: (Seq<char>, Json)| e.0)
}

/// The keys of entries, as a set.
pub proof fn lemma_keys_of(entries: Seq<(Seq<char>, Json)>)
    ensures
        keys_unique(entries) ==> keys_of(entries).no_duplicates(),
        forall|k: Seq<char>| has_key(entries, k) <==> keys_of(entries).to_set().contains(k),
        keys_of(entries).to_set().finite(),
{
    let ks = keys_of(entries);
    assert forall|k: Seq<char>| has_key(entries, k) <==> ks.to_set().contains(k) by {
        if has_key(entries, k) {
            let i = choose|i: int| 0 <= i < entries.len() && (#[trigger] entries[i]).0 == k;
            assert(ks[i] == k);
        }
        if ks.to_set().contains(k) {
            let i = choose|i: int| 0 <= i < ks.len() && ks[i] == k;
            assert(entries[i].0 == k);
        }
    }
    vstd::seq_lib::seq_to_set_is_finite(ks);
}

/// Two equal objects with distinct keys have the same keys.
pub proof fn lemma_obj_eq_same_keys(x: Seq<(Seq<char>, Json)>, y: Seq<(Seq<char>, Json)>)
    requires
        json_eq(Json::Obj(x), Json::Obj(y)),
        keys_unique(x),
        keys_unique(y),
    ensures
        forall|k: Seq<char>| has_key(y, k) ==> has_key(x, k),
{
    lemma_keys_of(x);
    lemma_keys_of(y);
    let sx = keys_of(x).to_set();
    let sy = keys_of(y).to_set();
    assert forall|k: Seq<char>| sx.contains(k) implies sy.contains(k) by {
        let i = choose|i: int| 0 <= i < x.len() && (#[trigger] x[i]).0 == k;
        lemma_eq_entry(x, y, i);
    }
    keys_of(x).unique_seq_to_set();
    keys_of(y).unique_seq_to_set();
    vstd::set_lib::lemma_subset_equality(sx, sy);
}


/// Two sequences of entries with distinct keys and the same keys have the same length.
pub proof fn lemma_same_keys_same_len(a: Seq<(Seq<char>, Json)>, b: Seq<(Seq<char>, Json)>)
    requires
        keys_unique(a),
        keys_unique(b),
        forall|k: Seq<char>| has_key(a, k) <==> has_key(b, k),
    ensures
        a.len() == b.len(),
{
    lemma_keys_of(a);
    lemma_keys_of(b);
    assert forall|k: Seq<char>| keys_of(a).to_set().contains(k) <==> keys_of(b).to_set().contains(k) by {
        assert(has_key(a, k) <==> keys_of(a).to_set().contains(k));
        assert(has_key(b, k) <==> keys_of(b).to_set().contains(k));
    }
    assert(keys_of(a).to_set() =~= keys_of(b).to_set());
    keys_of(a).unique_seq_to_set();
    keys_of(b).unique_seq_to_set();
}


/// Objects of the same length whose every entry is matched in the other are equal.
pub proof fn lemma_obj_eq_intro(x: Seq<(Seq<char>, Json)>, y: Seq<(Seq<char>, Json)>)
    requires
        x.len() == y.len(),
        forall|i: int|
            0 <= i < x.len() ==> has_key(y, (#[trigger] x[i]).0) && json_eq(x[i].1, value_of(y, x[i].0)),
    ensures
        json_eq(Json::Obj(x), Json::Obj(y)),
{
    reveal_with_fuel(json_eq, 2);
}


/// Law: on `null`, booleans and strings JSON equality is plain equality; two numbers
/// are equal exactly when they are the same number of the same kind, except that
/// positive and negative zero are equal floats.
pub proof fn lemma_json_eq_on_scalars(a: Json, b: Json)
    ensures
        a is Null ==> (json_eq(a, b) <==> b is Null),
        a matches Json::Bool(x) ==> (json_eq(a, b) <==> b == Json::Bool(x)),
        a matches Json::Str(x) ==> (json_eq(a, b) <==> b == Json::Str(x)),
        a matches Json::Num(x) ==> (json_eq(a, b) <==> (b matches Json::Num(y) && (x == y || (
        x matches JsonNumber::Float(p) && y matches JsonNumber::Float(q) && (p == 0 || p
            == 0x8000_0000_0000_0000) && (q == 0 || q == 0x8000_0000_0000_0000))))),
{
}

}
