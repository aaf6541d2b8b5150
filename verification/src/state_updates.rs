//! The state updates an invocation reports: what changed between the state it was
//! given and the state the script left behind.
use vstd::prelude::*;

use crate::json::{
    find_entry, has_key, lemma_eq_entry, lemma_json_eq_refl, lemma_obj_eq_same_keys, json_eq, json_equal, json_wf, keys_unique, lemma_value_of_index,
    lemma_view_entries, lemma_view_entries_push, lemma_same_keys_same_len, lemma_wf_item, lemma_obj_eq_intro, lemma_json_eq_on_scalars, lemma_wf_entry, lemma_wf_keys, value_of, view_entries, Json, JsonValue,
};

verus! {

/// The object with no entries.
pub open spec fn empty_object() -> Json {
    Json::Obj(Seq::empty())
}

/// Whether `v` is an object with no entries.
pub open spec fn is_empty_object(v: Json) -> bool {
    v matches Json::Obj(e) && e.len() == 0
}

/// The state updates between an old and a new state document: nothing (the empty
/// object) when they are equal; when both are objects, an object holding, for each
/// key of the new state that is absent from or different in the old state, either
/// the nested updates of that value or the new value itself; otherwise the new state.
pub open spec fn state_diff(old: Json, new: Json) -> Json
    decreases new, 0nat,
{
    if json_eq(old, new) {
        empty_object()
    } else {
        match new {
            Json::Obj(n) => match old {
                Json::Obj(o) => Json::Obj(diff_prefix(o, n, n.len() as int)),
                _ => new,
            },
            _ => new,
        }
    }
}

/// The update entry for the key of new entry `n[k]`, if any.
pub open spec fn diff_prefix(o: Seq<(Seq<char>, Json)>, n: Seq<(Seq<char>, Json)>, k: int) -> Seq<(Seq<char>, Json)>
    decreases n, k,
{
    if k <= 0 || k > n.len() {
        Seq::empty()
    } else {
        let prev = diff_prefix(o, n, k - 1);
        let key = n[k - 1].0;
        let new_val = n[k - 1].1;
        if !has_key(o, key) {
            prev.push((key, new_val))
        } else if json_eq(value_of(o, key), new_val) {
            prev
        } else {
            let child = state_diff(value_of(o, key), new_val);
            if child != Json::Null && !is_empty_object(child) {
                prev.push((key, child))
            } else {
                prev.push((key, new_val))
            }
        }
    }
}


/// Every key among the updates for the first `k` new entries is the key of one of them.
pub proof fn lemma_diff_prefix_keys(o: Seq<(Seq<char>, Json)>, n: Seq<(Seq<char>, Json)>, k: int)
    requires
        0 <= k <= n.len(),
    ensures
        forall|d: int|
            0 <= d < diff_prefix(o, n, k).len() ==> exists|m: int|
                0 <= m < k && (#[trigger] diff_prefix(o, n, k)[d]).0 == n[m].0,
        keys_unique(n) ==> keys_unique(diff_prefix(o, n, k)),
    decreases k,
{
    if k > 0 {
        lemma_diff_prefix_keys(o, n, k - 1);
        let prev = diff_prefix(o, n, k - 1);
        let cur = diff_prefix(o, n, k);
        assert forall|d: int| 0 <= d < cur.len() implies exists|m: int|
            0 <= m < k && (#[trigger] cur[d]).0 == n[m].0 by {
            if d < prev.len() {
                assert(cur[d] == prev[d]);
                let m = choose|m: int| 0 <= m < k - 1 && prev[d].0 == n[m].0;
                assert(0 <= m < k && cur[d].0 == n[m].0);
            } else {
                assert(cur[d].0 == n[k - 1].0);
            }
        }
        if keys_unique(n) {
            assert forall|a: int, b: int|
                0 <= a < cur.len() && 0 <= b < cur.len() && a != b implies (#[trigger] cur[a]).0
                != (#[trigger] cur[b]).0 by {
                if a < prev.len() && b < prev.len() {
                    assert(cur[a] == prev[a] && cur[b] == prev[b]);
                } else if a < prev.len() {
                    assert(cur[a] == prev[a]);
                    let m = choose|m: int| 0 <= m < k - 1 && prev[a].0 == n[m].0;
                    assert(n[m].0 != n[k - 1].0);
                } else {
                    assert(cur[b] == prev[b]);
                    let m = choose|m: int| 0 <= m < k - 1 && prev[b].0 == n[m].0;
                    assert(n[m].0 != n[k - 1].0);
                }
            }
        }
    }
}

/// The updates between two well-formed documents form a well-formed document.
pub proof fn lemma_state_diff_wf(old: Json, new: Json)
    requires
        json_wf(old),
        json_wf(new),
    ensures
        json_wf(state_diff(old, new)),
    decreases new, 0nat,
{
    if !json_eq(old, new) {
        if let Json::Obj(n) = new {
            if let Json::Obj(o) = old {
                let d = diff_prefix(o, n, n.len() as int);
                lemma_diff_prefix_wf(o, n, n.len() as int);
                lemma_diff_prefix_keys(o, n, n.len() as int);
                assert(json_wf(Json::Obj(d)));
            }
        }
    }
}

/// The values among the updates for the first `k` new entries are well formed.
pub proof fn lemma_diff_prefix_wf(o: Seq<(Seq<char>, Json)>, n: Seq<(Seq<char>, Json)>, k: int)
    requires
        json_wf(Json::Obj(o)),
        json_wf(Json::Obj(n)),
        0 <= k <= n.len(),
    ensures
        forall|d: int| 0 <= d < diff_prefix(o, n, k).len() ==> json_wf(#[trigger] diff_prefix(o, n, k)[d].1),
    decreases n, k,
{
    if k > 0 {
        lemma_diff_prefix_wf(o, n, k - 1);
        let key = n[k - 1].0;
        lemma_wf_entry(n, k - 1);
        if has_key(o, key) {
            let j = choose|j: int| 0 <= j < o.len() && (#[trigger] o[j]).0 == key;
            lemma_wf_entry(o, j);
            lemma_value_of_index(o, j);
            assert(decreases_to!(n => n[k - 1]));
            lemma_state_diff_wf(value_of(o, key), n[k - 1].1);
        }
        let prev = diff_prefix(o, n, k - 1);
        let cur = diff_prefix(o, n, k);
        assert forall|d: int| 0 <= d < cur.len() implies json_wf(#[trigger] cur[d].1) by {
            if d < prev.len() {
                assert(cur[d] == prev[d]);
            }
        }
    }
}

/// The state updates between `state_in` and `state_out` (see `state_diff`).
pub fn compute_state_updates(state_in: &JsonValue, state_out: &JsonValue) -> (r: JsonValue)
    requires
        json_wf(state_in@),
        json_wf(state_out@),
    ensures
        r@ == state_diff(state_in@, state_out@),
        json_wf(r@),
    decreases state_out,
{
    proof {
        lemma_state_diff_wf(state_in@, state_out@);
    }
    if json_equal(state_in, state_out) {
        let r = JsonValue::Object(Vec::new());
        proof {
            lemma_view_entries(Seq::<(String, JsonValue)>::empty());
            assert(r@ =~= empty_object());
        }
        return r;
    }
    match state_out {
        JsonValue::Object(ns) => match state_in {
            JsonValue::Object(os) => {
                let ghost nv = view_entries(ns@);
                let ghost ov = view_entries(os@);
                proof {
                    lemma_view_entries(ns@);
                    lemma_view_entries(os@);
                }
                let mut diff: Vec<(String, JsonValue)> = Vec::new();
                let mut i: usize = 0;
                proof {
                    lemma_view_entries(diff@);
                    assert(view_entries(diff@) =~= diff_prefix(ov, nv, 0));
                }
                while i < ns.len()
                    invariant
                        0 <= i <= ns.len(),
                        *state_out == JsonValue::Object(*ns),
                        *state_in == JsonValue::Object(*os),
                        state_out@ == Json::Obj(nv),
                        state_in@ == Json::Obj(ov),
                        json_wf(state_in@),
                        json_wf(state_out@),
                        nv == view_entries(ns@),
                        ov == view_entries(os@),
                        nv.len() == ns.len(),
                        ov.len() == os.len(),
                        forall|k: int| 0 <= k < ns.len() ==> #[trigger] nv[k] == (ns@[k].0@, ns@[k].1@),
                        forall|k: int| 0 <= k < os.len() ==> #[trigger] ov[k] == (os@[k].0@, os@[k].1@),
                        view_entries(diff@) == diff_prefix(ov, nv, i as int),
                    decreases ns.len() - i,
                {
                    let ghost prev = view_entries(diff@);
                    let key = &ns[i].0;
                    let new_val = &ns[i].1;
                    proof {
                        lemma_wf_entry(nv, i as int);
                        lemma_wf_keys(ov);
                        lemma_wf_keys(nv);
                        assert(nv[i as int].0 == key@ && nv[i as int].1 == new_val@);
                    }
                    match find_entry(os, key) {
                        None => {
                            proof {
                                assert forall|m: int| 0 <= m < ov.len() implies (#[trigger] ov[m]).0 != key@ by {
                                    assert(ov[m] == (os@[m].0@, os@[m].1@));
                                }
                            }
                            let e = (key.clone(), new_val.duplicate());
                            proof {
                                lemma_view_entries_push(diff@, e);
                            }
                            diff.push(e);
                            assert(!has_key(ov, key@));
                        },
                        Some(j) => {
                            let old_val = &os[j].1;
                            proof {
                                assert(ov[j as int] == (os@[j as int].0@, os@[j as int].1@));
                                lemma_value_of_index(ov, j as int);
                                lemma_wf_entry(ov, j as int);
                            }
                            if json_equal(old_val, new_val) {
                                assert(json_eq(value_of(ov, key@), new_val@));
                            } else {
                                proof {
                                    assert(decreases_to!(*state_out => (*state_out)->Object_0));
                                    assert(decreases_to!(*ns => ns[i as int]));
                                }
                                let child = compute_state_updates(old_val, new_val);
                                if !child.is_null() && !child.is_empty_object() {
                                    let e = (key.clone(), child);
                                    proof {
                                        lemma_view_entries_push(diff@, e);
                                    }
                                    diff.push(e);
                                } else {
                                    let e = (key.clone(), new_val.duplicate());
                                    proof {
                                        lemma_view_entries_push(diff@, e);
                                    }
                                    diff.push(e);
                                }
                            }
                        },
                    }
                    proof {
                        lemma_view_entries(diff@);
                        assert(view_entries(diff@) =~= diff_prefix(ov, nv, i + 1));
                    }
                    i = i + 1;
                }
                let r = JsonValue::Object(diff);
                proof {
                    assert(r@ == Json::Obj(view_entries(diff@)));
                }
                r
            },
            _ => state_out.duplicate(),
        },
        _ => state_out.duplicate(),
    }
}


/// Key `k` of the new entries `n` is absent from the old entries `o`, or holds a different value there.
pub open spec fn key_changed(o: Seq<(Seq<char>, Json)>, n: Seq<(Seq<char>, Json)>, k: Seq<char>) -> bool {
    has_key(n, k) && (!has_key(o, k) || !json_eq(value_of(o, k), value_of(n, k)))
}

/// The updates for the first `m` new entries hold exactly the changed keys among those entries.
pub proof fn lemma_diff_prefix_has_key(o: Seq<(Seq<char>, Json)>, n: Seq<(Seq<char>, Json)>, m: int, k: Seq<char>)
    requires
        keys_unique(n),
        0 <= m <= n.len(),
    ensures
        has_key(diff_prefix(o, n, m), k) <==> exists|i: int|
            0 <= i < m && (#[trigger] n[i]).0 == k && key_changed(o, n, k),
    decreases m,
{
    if m > 0 {
        lemma_diff_prefix_has_key(o, n, m - 1, k);
        lemma_value_of_index(n, m - 1);
        let prev = diff_prefix(o, n, m - 1);
        let cur = diff_prefix(o, n, m);
        if has_key(prev, k) {
            let d = choose|d: int| 0 <= d < prev.len() && (#[trigger] prev[d]).0 == k;
            assert(cur[d] == prev[d]);
        }
        if has_key(cur, k) && !has_key(prev, k) {
            let d = choose|d: int| 0 <= d < cur.len() && (#[trigger] cur[d]).0 == k;
            if d < prev.len() {
                assert(cur[d] == prev[d]);
            }
            assert(n[m - 1].0 == k);
        }
        if exists|i: int| 0 <= i < m && (#[trigger] n[i]).0 == k && key_changed(o, n, k) {
            let i = choose|i: int| 0 <= i < m && (#[trigger] n[i]).0 == k && key_changed(o, n, k);
            if i == m - 1 {
                assert(cur.last().0 == k);
                assert(has_key(cur, k));
            }
        }
    }
}

/// Law: the state updates between an unchanged state and itself are empty.
pub proof fn lemma_unchanged_state_has_no_updates(state: Json)
    requires
        json_wf(state),
    ensures
        state_diff(state, state) == empty_object(),
{
    lemma_json_eq_refl(state);
}

/// Law: when both states are objects, the updates are an object whose keys are exactly
/// the keys of the new state that are absent from the old state or hold a different value there.
pub proof fn lemma_updates_name_changed_keys(o: Seq<(Seq<char>, Json)>, n: Seq<(Seq<char>, Json)>)
    requires
        json_wf(Json::Obj(o)),
        json_wf(Json::Obj(n)),
    ensures
        state_diff(Json::Obj(o), Json::Obj(n)) matches Json::Obj(d) && forall|k: Seq<char>|
            has_key(d, k) <==> key_changed(o, n, k),
{
    lemma_wf_keys(o);
    lemma_wf_keys(n);
    if json_eq(Json::Obj(o), Json::Obj(n)) {
        lemma_obj_eq_same_keys(o, n);
        assert forall|k: Seq<char>| !key_changed(o, n, k) by {
            if has_key(n, k) {
                let i = choose|i: int| 0 <= i < o.len() && (#[trigger] o[i]).0 == k;
                lemma_eq_entry(o, n, i);
                lemma_value_of_index(o, i);
            }
        }
    } else {
        assert forall|k: Seq<char>| has_key(diff_prefix(o, n, n.len() as int), k) <==> key_changed(o, n, k) by {
            lemma_diff_prefix_has_key(o, n, n.len() as int, k);
            if key_changed(o, n, k) {
                let i = choose|i: int| 0 <= i < n.len() && (#[trigger] n[i]).0 == k;
                assert(0 <= i < n.len() && n[i].0 == k && key_changed(o, n, k));
            }
        }
    }
}


/// The position of key `k` among `entries` (meaningful when `has_key(entries, k)`).
pub open spec fn key_index(entries: Seq<(Seq<char>, Json)>, k: Seq<char>) -> int {
    choose|i: int| 0 <= i < entries.len() && (#[trigger] entries[i]).0 == k
}

/// The value of `entries` under `k`, or `null` when there is none.
pub open spec fn get_or_null(entries: Seq<(Seq<char>, Json)>, k: Seq<char>) -> Json {
    if has_key(entries, k) {
        value_of(entries, k)
    } else {
        Json::Null
    }
}

/// `entries` with key `k` set to `v`: in place when `k` is there, added at the end otherwise.
pub open spec fn set_key(entries: Seq<(Seq<char>, Json)>, k: Seq<char>, v: Json) -> Seq<(Seq<char>, Json)> {
    if has_key(entries, k) {
        entries.update(key_index(entries, k), (k, v))
    } else {
        entries.push((k, v))
    }
}

/// Applies the state updates `d` to the state `o`: when both are objects, each key of
/// `d` is set to its update applied to the value `o` holds there (`null` when none);
/// otherwise the update replaces the state.
pub open spec fn apply_updates(o: Json, d: Json) -> Json
    decreases d, 0nat,
{
    match d {
        Json::Obj(de) => match o {
            Json::Obj(oe) => Json::Obj(apply_entries(oe, de, de.len() as int)),
            _ => d,
        },
        _ => d,
    }
}

/// The entries `oe` with the first `k` updates of `de` applied.
pub open spec fn apply_entries(oe: Seq<(Seq<char>, Json)>, de: Seq<(Seq<char>, Json)>, k: int) -> Seq<(Seq<char>, Json)>
    decreases de, k,
{
    if k <= 0 || k > de.len() {
        oe
    } else {
        let cur = apply_entries(oe, de, k - 1);
        let key = de[k - 1].0;
        set_key(cur, key, apply_updates(get_or_null(oe, key), de[k - 1].1))
    }
}

/// No key goes missing from `o` to `n`: wherever both hold objects at the same path,
/// every key of the old object is a key of the new one.
pub open spec fn keeps_keys(o: Json, n: Json) -> bool
    decreases o,
{
    match o {
        Json::Obj(oe) => match n {
            Json::Obj(ne) => forall|i: int|
                0 <= i < oe.len() ==> has_key(ne, (#[trigger] oe[i]).0) && keeps_keys(
                    oe[i].1,
                    value_of(ne, oe[i].0),
                ),
            _ => true,
        },
        _ => true,
    }
}

/// Whether `k` is the key of one of the first `m` entries.
pub open spec fn key_in_prefix(es: Seq<(Seq<char>, Json)>, k: Seq<char>, m: int) -> bool {
    exists|j: int| 0 <= j < m && (#[trigger] es[j]).0 == k
}

pub proof fn lemma_set_key(e: Seq<(Seq<char>, Json)>, k: Seq<char>, v: Json)
    requires
        keys_unique(e),
    ensures
        keys_unique(set_key(e, k, v)),
        forall|k2: Seq<char>| has_key(set_key(e, k, v), k2) <==> (has_key(e, k2) || k2 == k),
        value_of(set_key(e, k, v), k) == v,
        forall|k2: Seq<char>| k2 != k && has_key(e, k2) ==> value_of(set_key(e, k, v), k2) == value_of(e, k2),
{
    let r = set_key(e, k, v);
    if has_key(e, k) {
        let x = key_index(e, k);
        assert(0 <= x < e.len() && e[x].0 == k);
        assert forall|a: int, b: int| 0 <= a < r.len() && 0 <= b < r.len() && a != b implies (#[trigger] r[a]).0
            != (#[trigger] r[b]).0 by {
            assert(r[a].0 == e[a].0);
            assert(r[b].0 == e[b].0);
        }
        assert forall|k2: Seq<char>| has_key(r, k2) <==> (has_key(e, k2) || k2 == k) by {
            if has_key(r, k2) {
                let i = choose|i: int| 0 <= i < r.len() && (#[trigger] r[i]).0 == k2;
                assert(r[i].0 == e[i].0);
            }
            if has_key(e, k2) {
                let i = choose|i: int| 0 <= i < e.len() && (#[trigger] e[i]).0 == k2;
                assert(r[i].0 == e[i].0);
            }
            if k2 == k {
                assert(r[x].0 == k);
            }
        }
        lemma_value_of_index(r, x);
        assert forall|k2: Seq<char>| k2 != k && has_key(e, k2) implies value_of(r, k2) == value_of(e, k2) by {
            let i = choose|i: int| 0 <= i < e.len() && (#[trigger] e[i]).0 == k2;
            lemma_value_of_index(e, i);
            assert(r[i] == e[i]);
            lemma_value_of_index(r, i);
        }
    } else {
        assert forall|a: int, b: int| 0 <= a < r.len() && 0 <= b < r.len() && a != b implies (#[trigger] r[a]).0
            != (#[trigger] r[b]).0 by {
            if a < e.len() && b < e.len() {
                assert(r[a] == e[a] && r[b] == e[b]);
            } else if a < e.len() {
                assert(r[a] == e[a]);
                assert(r[b].0 == k);
            } else {
                assert(r[b] == e[b]);
                assert(r[a].0 == k);
            }
        }
        assert forall|k2: Seq<char>| has_key(r, k2) <==> (has_key(e, k2) || k2 == k) by {
            if has_key(r, k2) {
                let i = choose|i: int| 0 <= i < r.len() && (#[trigger] r[i]).0 == k2;
                if i < e.len() {
                    assert(r[i] == e[i]);
                }
            }
            if has_key(e, k2) {
                let i = choose|i: int| 0 <= i < e.len() && (#[trigger] e[i]).0 == k2;
                assert(r[i] == e[i]);
            }
            if k2 == k {
                assert(r[e.len() as int].0 == k);
            }
        }
        lemma_value_of_index(r, e.len() as int);
        assert forall|k2: Seq<char>| k2 != k && has_key(e, k2) implies value_of(r, k2) == value_of(e, k2) by {
            let i = choose|i: int| 0 <= i < e.len() && (#[trigger] e[i]).0 == k2;
            lemma_value_of_index(e, i);
            assert(r[i] == e[i]);
            lemma_value_of_index(r, i);
        }
    }
}

/// What applying the first `n` updates gives: the old keys and the updated keys, each
/// updated key holding its update applied to the old value, each other key its old value.
pub proof fn lemma_apply_entries(oe: Seq<(Seq<char>, Json)>, de: Seq<(Seq<char>, Json)>, n: int)
    requires
        keys_unique(oe),
        keys_unique(de),
        0 <= n <= de.len(),
    ensures
        keys_unique(apply_entries(oe, de, n)),
        forall|k: Seq<char>| has_key(apply_entries(oe, de, n), k) <==> (has_key(oe, k) || key_in_prefix(de, k, n)),
        forall|j: int| 0 <= j < n ==> value_of(apply_entries(oe, de, n), (#[trigger] de[j]).0) == apply_updates(
            get_or_null(oe, de[j].0),
            de[j].1,
        ),
        forall|k: Seq<char>| has_key(oe, k) && !key_in_prefix(de, k, n) ==> value_of(apply_entries(oe, de, n), k)
            == value_of(oe, k),
    decreases n,
{
    if n > 0 {
        lemma_apply_entries(oe, de, n - 1);
        let cur = apply_entries(oe, de, n - 1);
        let key = de[n - 1].0;
        let v = apply_updates(get_or_null(oe, key), de[n - 1].1);
        lemma_set_key(cur, key, v);
        let r = apply_entries(oe, de, n);
        assert(r == set_key(cur, key, v));
        assert forall|k: Seq<char>| has_key(r, k) <==> (has_key(oe, k) || key_in_prefix(de, k, n)) by {
            if key_in_prefix(de, k, n) && !key_in_prefix(de, k, n - 1) {
                let j = choose|j: int| 0 <= j < n && (#[trigger] de[j]).0 == k;
                assert(j == n - 1);
            }
            if key_in_prefix(de, k, n - 1) {
                let j = choose|j: int| 0 <= j < n - 1 && (#[trigger] de[j]).0 == k;
                assert(0 <= j < n && de[j].0 == k);
            }
            if k == key {
                assert(de[n - 1].0 == k);
            }
        }
        assert forall|j: int| 0 <= j < n implies value_of(r, (#[trigger] de[j]).0) == apply_updates(
            get_or_null(oe, de[j].0),
            de[j].1,
        ) by {
            if j < n - 1 {
                assert(de[j].0 != key);
                assert(key_in_prefix(de, de[j].0, n - 1));
            }
        }
        assert forall|k: Seq<char>| has_key(oe, k) && !key_in_prefix(de, k, n) implies value_of(r, k) == value_of(oe, k) by {
            if k == key {
                assert(de[n - 1].0 == k);
            }
            if key_in_prefix(de, k, n - 1) {
                let j = choose|j: int| 0 <= j < n - 1 && (#[trigger] de[j]).0 == k;
                assert(0 <= j < n && de[j].0 == k);
            }
        }
    }
}


/// The update for key `k` of the new entries `n`: the nested updates when the key holds
/// a different value in `o` and those updates are neither `null` nor empty; the new
/// value otherwise.
pub open spec fn diff_value(o: Seq<(Seq<char>, Json)>, n: Seq<(Seq<char>, Json)>, k: Seq<char>) -> Json {
    let nv = value_of(n, k);
    if has_key(o, k) && !json_eq(value_of(o, k), nv) {
        let child = state_diff(value_of(o, k), nv);
        if child != Json::Null && !is_empty_object(child) {
            child
        } else {
            nv
        }
    } else {
        nv
    }
}

/// Each key among the updates for the first `m` new entries holds its update.
pub proof fn lemma_diff_prefix_value(o: Seq<(Seq<char>, Json)>, n: Seq<(Seq<char>, Json)>, m: int)
    requires
        keys_unique(n),
        0 <= m <= n.len(),
    ensures
        forall|k: Seq<char>| has_key(diff_prefix(o, n, m), k) ==> value_of(diff_prefix(o, n, m), k) == diff_value(o, n, k),
    decreases m,
{
    if m > 0 {
        lemma_diff_prefix_value(o, n, m - 1);
        lemma_diff_prefix_keys(o, n, m - 1);
        lemma_diff_prefix_keys(o, n, m);
        lemma_value_of_index(n, m - 1);
        let prev = diff_prefix(o, n, m - 1);
        let cur = diff_prefix(o, n, m);
        let key = n[m - 1].0;
        assert forall|k: Seq<char>| has_key(cur, k) implies value_of(cur, k) == diff_value(o, n, k) by {
            if cur.len() > prev.len() {
                assert(cur.last().0 == key);
                if k == key {
                    lemma_value_of_index(cur, cur.len() - 1);
                } else {
                    let i = choose|i: int| 0 <= i < cur.len() && (#[trigger] cur[i]).0 == k;
                    assert(i < prev.len());
                    assert(cur[i] == prev[i]);
                    lemma_value_of_index(cur, i);
                    lemma_value_of_index(prev, i);
                }
            } else {
                assert(cur == prev);
            }
        }
    }
}

/// When there are no updates between two objects, no key has changed.
pub proof fn lemma_not_changed_when_no_updates(o: Seq<(Seq<char>, Json)>, n: Seq<(Seq<char>, Json)>, k: Seq<char>)
    requires
        keys_unique(n),
        diff_prefix(o, n, n.len() as int).len() == 0,
    ensures
        !key_changed(o, n, k),
{
    lemma_diff_prefix_has_key(o, n, n.len() as int, k);
    if key_changed(o, n, k) {
        let i = choose|i: int| 0 <= i < n.len() && (#[trigger] n[i]).0 == k;
        assert(0 <= i < n.len() && n[i].0 == k && key_changed(o, n, k));
        assert(has_key(diff_prefix(o, n, n.len() as int), k));
    }
}

/// Between two objects with no key going missing, unequal objects have some update.
pub proof fn lemma_unequal_objects_have_updates(o: Seq<(Seq<char>, Json)>, n: Seq<(Seq<char>, Json)>)
    requires
        json_wf(Json::Obj(o)),
        json_wf(Json::Obj(n)),
        keeps_keys(Json::Obj(o), Json::Obj(n)),
        !json_eq(Json::Obj(o), Json::Obj(n)),
    ensures
        !is_empty_object(state_diff(Json::Obj(o), Json::Obj(n))),
{
    lemma_wf_keys(o);
    lemma_wf_keys(n);
    lemma_updates_name_changed_keys(o, n);
    let d = diff_prefix(o, n, n.len() as int);
    assert(state_diff(Json::Obj(o), Json::Obj(n)) == Json::Obj(d));
    if d.len() == 0 {
        assert(forall|k: Seq<char>| !has_key(d, k));
        assert forall|k: Seq<char>| has_key(o, k) <==> has_key(n, k) by {
            if has_key(o, k) {
                let i = choose|i: int| 0 <= i < o.len() && (#[trigger] o[i]).0 == k;
                assert(has_key(n, o[i].0));
            }
            if has_key(n, k) {
                lemma_not_changed_when_no_updates(o, n, k);
            }
        }
        lemma_same_keys_same_len(o, n);
        assert forall|i: int| 0 <= i < o.len() implies has_key(n, (#[trigger] o[i]).0) && json_eq(o[i].1, value_of(n, o[i].0)) by {
            lemma_value_of_index(o, i);
            assert(has_key(o, o[i].0));
            lemma_not_changed_when_no_updates(o, n, o[i].0);
        }
        lemma_obj_eq_intro(o, n);
    }
}

/// Law: applying the state updates to the old state gives the new state (as a JSON
/// value), when the old state is an object and no key goes missing from it.
pub proof fn lemma_applying_updates_gives_new_state(o: Json, n: Json)
    requires
        json_wf(o),
        json_wf(n),
        o is Obj,
        keeps_keys(o, n),
    ensures
        json_eq(apply_updates(o, state_diff(o, n)), n),
    decreases n,
{
    let oe = o->Obj_0;
    lemma_wf_keys(oe);
    if json_eq(o, n) {
        assert(apply_entries(oe, Seq::<(Seq<char>, Json)>::empty(), 0) == oe);
        assert(apply_updates(o, state_diff(o, n)) == o);
    } else if !(n is Obj) {
        lemma_json_eq_refl(n);
    } else {
        let ne = n->Obj_0;
        lemma_wf_keys(ne);
        lemma_state_diff_wf(o, n);
        let dd = diff_prefix(oe, ne, ne.len() as int);
        assert(state_diff(o, n) == Json::Obj(dd));
        lemma_wf_keys(dd);
        lemma_updates_name_changed_keys(oe, ne);
        lemma_diff_prefix_value(oe, ne, ne.len() as int);
        lemma_apply_entries(oe, dd, dd.len() as int);
        let a = apply_entries(oe, dd, dd.len() as int);
        assert(apply_updates(o, state_diff(o, n)) == Json::Obj(a));
        assert forall|k: Seq<char>| key_in_prefix(dd, k, dd.len() as int) <==> has_key(dd, k) by {}
        assert forall|k: Seq<char>| has_key(oe, k) ==> has_key(ne, k) by {
            if has_key(oe, k) {
                let i = choose|i: int| 0 <= i < oe.len() && (#[trigger] oe[i]).0 == k;
                assert(has_key(ne, oe[i].0));
            }
        }
        assert forall|k: Seq<char>| has_key(a, k) <==> has_key(ne, k) by {
            assert(has_key(a, k) <==> (has_key(oe, k) || key_in_prefix(dd, k, dd.len() as int)));
            assert(key_in_prefix(dd, k, dd.len() as int) <==> has_key(dd, k));
            assert(has_key(dd, k) <==> key_changed(oe, ne, k));
            if has_key(ne, k) && !has_key(oe, k) {
                assert(key_changed(oe, ne, k));
            }
        }
        lemma_same_keys_same_len(a, ne);
        assert forall|i: int| 0 <= i < a.len() implies has_key(ne, (#[trigger] a[i]).0) && json_eq(a[i].1, value_of(ne, a[i].0)) by {
            let k = a[i].0;
            assert(has_key(a, k));
            lemma_value_of_index(a, i);
            let p = choose|p: int| 0 <= p < ne.len() && (#[trigger] ne[p]).0 == k;
            lemma_value_of_index(ne, p);
            lemma_wf_entry(ne, p);
            let nv = value_of(ne, k);
            if has_key(dd, k) {
                let j = choose|j: int| 0 <= j < dd.len() && (#[trigger] dd[j]).0 == k;
                lemma_value_of_index(dd, j);
                assert(value_of(a, dd[j].0) == apply_updates(get_or_null(oe, k), dd[j].1));
                assert(dd[j].1 == diff_value(oe, ne, k));
                if !has_key(oe, k) {
                    lemma_json_eq_refl(nv);
                } else {
                    let q = choose|q: int| 0 <= q < oe.len() && (#[trigger] oe[q]).0 == k;
                    lemma_value_of_index(oe, q);
                    lemma_wf_entry(oe, q);
                    let ov = value_of(oe, k);
                    assert(keeps_keys(oe[q].1, value_of(ne, oe[q].0)));
                    assert(key_changed(oe, ne, k));
                    let child = state_diff(ov, nv);
                    if child != Json::Null && !is_empty_object(child) {
                        if ov is Obj {
                            assert(decreases_to!(n => ne));
                            assert(decreases_to!(ne => ne[p]));
                            lemma_applying_updates_gives_new_state(ov, nv);
                        } else {
                            lemma_json_eq_refl(nv);
                        }
                    } else {
                        if ov is Obj && nv is Obj {
                            lemma_unequal_objects_have_updates(ov->Obj_0, nv->Obj_0);
                        }
                        lemma_json_eq_refl(nv);
                    }
                }
            } else {
                assert(has_key(oe, k));
                assert(!key_changed(oe, ne, k));
            }
        }
        lemma_obj_eq_intro(a, ne);
    }
}


/// Law: between two object states, a key whose old value is `null`, a boolean or a
/// string and whose new value is different is reported, with the new value.
pub proof fn lemma_changed_scalar_is_reported(o: Seq<(Seq<char>, Json)>, n: Seq<(Seq<char>, Json)>, k: Seq<char>)
    requires
        json_wf(Json::Obj(o)),
        json_wf(Json::Obj(n)),
        has_key(o, k),
        has_key(n, k),
        value_of(o, k) is Null || value_of(o, k) is Bool || value_of(o, k) is Str,
        value_of(o, k) != value_of(n, k),
    ensures
        state_diff(Json::Obj(o), Json::Obj(n)) matches Json::Obj(d) && has_key(d, k) && value_of(d, k) == value_of(n, k),
{
    lemma_wf_keys(o);
    lemma_wf_keys(n);
    let ov = value_of(o, k);
    let nv = value_of(n, k);
    lemma_json_eq_on_scalars(ov, nv);
    assert(!json_eq(ov, nv));
    assert(key_changed(o, n, k));
    let i = choose|i: int| 0 <= i < o.len() && (#[trigger] o[i]).0 == k;
    lemma_value_of_index(o, i);
    if json_eq(Json::Obj(o), Json::Obj(n)) {
        lemma_eq_entry(o, n, i);
    }
    assert(!json_eq(Json::Obj(o), Json::Obj(n)));
    let d = diff_prefix(o, n, n.len() as int);
    assert(state_diff(Json::Obj(o), Json::Obj(n)) == Json::Obj(d));
    lemma_diff_prefix_has_key(o, n, n.len() as int, k);
    let p = choose|p: int| 0 <= p < n.len() && (#[trigger] n[p]).0 == k;
    assert(0 <= p < n.len() && n[p].0 == k && key_changed(o, n, k));
    assert(has_key(d, k));
    lemma_diff_prefix_value(o, n, n.len() as int);
    assert(state_diff(ov, nv) == nv);
    assert(value_of(d, k) == diff_value(o, n, k));
    assert(diff_value(o, n, k) == nv);
}

}
