//! The library's model of a JSON document, and the verified patching
//! operations the wrapper performs on compiler output.
//!
//! A document is a tree: `Json` is the executable form, `JsonV` its
//! mathematical view.  Objects are sequences of key/value entries; a number
//! is carried opaquely, exactly as the underlying JSON crate holds it, since
//! the wrapper never reads one.

use vstd::prelude::*;
use crate::text::str_eq;

verus! {

/// A JSON value, as the wrapper holds it while patching compiler output.
pub enum Json {
    Null,
    Bool(bool),
    Num(serde_json::Number),
    Str(String),
    Arr(Vec<Json>),
    Obj(Vec<(String, Json)>),
}

/// The mathematical view of a JSON value.
pub enum JsonV {
    Null,
    Bool(bool),
    Num(serde_json::Number),
    Str(Seq<char>),
    Arr(Seq<JsonV>),
    Obj(Seq<(Seq<char>, JsonV)>),
}

/// The view of a JSON value.
pub open spec fn jv(j: Json) -> JsonV
    decreases j,
{
    match j {
        Json::Null => JsonV::Null,
        Json::Bool(b) => JsonV::Bool(b),
        Json::Num(n) => JsonV::Num(n),
        Json::Str(s) => JsonV::Str(s@),
        Json::Arr(a) => JsonV::Arr(jv_seq(a@)),
        Json::Obj(o) => JsonV::Obj(jv_entries(o@)),
    }
}

/// The views of the elements of a JSON array.
pub open spec fn jv_seq(s: Seq<Json>) -> Seq<JsonV>
    decreases s,
{
    if s.len() == 0 {
        Seq::empty()
    } else {
        jv_seq(s.drop_last()).push(jv(s.last()))
    }
}

/// The views of the entries of a JSON object.
pub open spec fn jv_entries(s: Seq<(String, Json)>) -> Seq<(Seq<char>, JsonV)>
    decreases s,
{
    if s.len() == 0 {
        Seq::empty()
    } else {
        jv_entries(s.drop_last()).push((s.last().0@, jv(s.last().1)))
    }
}

pub proof fn lemma_jv_entries(s: Seq<(String, Json)>)
    ensures
        jv_entries(s).len() == s.len(),
        forall|i: int|
            0 <= i < s.len() ==> jv_entries(s)[i] == (s[i].0@, jv(s[i].1)),
    decreases s.len(),
{
    if s.len() > 0 {
        lemma_jv_entries(s.drop_last());
    }
}

/// Pushing onto a vector pushes the element's view onto the vector's view.
pub proof fn lemma_dv_push<T: DeepView>(a: Vec<T>, b: Vec<T>, x: T)
    requires
        b@ == a@.push(x),
    ensures
        b.deep_view() == a.deep_view().push(x.deep_view()),
{
    assert(b.deep_view() =~= a.deep_view().push(x.deep_view()));
}

/// The position of the first entry of `o` whose key is `k`, or `o.len()`
/// when no entry has that key.
pub open spec fn key_idx(o: Seq<(Seq<char>, JsonV)>, k: Seq<char>) -> int
    decreases o.len(),
{
    if o.len() == 0 {
        0
    } else if o[0].0 == k {
        0
    } else {
        1 + key_idx(o.drop_first(), k)
    }
}

/// Some entry of `o` has key `k`.
pub open spec fn has_key(o: Seq<(Seq<char>, JsonV)>, k: Seq<char>) -> bool {
    key_idx(o, k) < o.len()
}

/// The value of the first entry of `o` with key `k`; meaningful only when
/// `has_key(o, k)`.
pub open spec fn get_key(o: Seq<(Seq<char>, JsonV)>, k: Seq<char>) -> JsonV {
    o[key_idx(o, k)].1
}

/// `o` with the first entry keyed `k` replaced by `v`, or with `(k, v)`
/// appended when no entry has that key: the one mutation the wrapper makes.
pub open spec fn set_key(o: Seq<(Seq<char>, JsonV)>, k: Seq<char>, v: JsonV) -> Seq<
    (Seq<char>, JsonV),
> {
    if has_key(o, k) {
        o.update(key_idx(o, k), (o[key_idx(o, k)].0, v))
    } else {
        o.push((k, v))
    }
}

pub proof fn lemma_key_idx(o: Seq<(Seq<char>, JsonV)>, k: Seq<char>)
    ensures
        0 <= key_idx(o, k) <= o.len(),
        key_idx(o, k) < o.len() ==> o[key_idx(o, k)].0 == k,
        forall|t: int| 0 <= t < key_idx(o, k) ==> (#[trigger] o[t]).0 != k,
        key_idx(o, k) == o.len() ==> forall|t: int|
            0 <= t < o.len() ==> (#[trigger] o[t]).0 != k,
    decreases o.len(),
{
    if o.len() > 0 && o[0].0 != k {
        lemma_key_idx(o.drop_first(), k);
        assert forall|t: int| 0 <= t < key_idx(o, k) implies (#[trigger] o[t]).0 != k by {
            if t > 0 {
                assert(o.drop_first()[t - 1] == o[t]);
            }
        }
        if key_idx(o, k) == o.len() {
            assert forall|t: int| 0 <= t < o.len() implies (#[trigger] o[t]).0 != k by {
                if t > 0 {
                    assert(o.drop_first()[t - 1] == o[t]);
                }
            }
        }
    }
}

/// `key_idx` is the unique position characterised by: every earlier key
/// differs from `k`, and position `i` (when inside the sequence) holds `k`.
pub proof fn lemma_key_idx_is(o: Seq<(Seq<char>, JsonV)>, k: Seq<char>, i: int)
    requires
        0 <= i <= o.len(),
        forall|t: int| 0 <= t < i ==> (#[trigger] o[t]).0 != k,
        i == o.len() || o[i].0 == k,
    ensures
        key_idx(o, k) == i,
    decreases i,
{
    if o.len() == 0 {
    } else if i == 0 {
    } else {
        assert(o[0].0 != k);
        assert forall|t: int| 0 <= t < i - 1 implies (#[trigger] o.drop_first()[t]).0 != k by {
            assert(o.drop_first()[t] == o[t + 1]);
        }
        if i - 1 < o.drop_first().len() {
            assert(o.drop_first()[i - 1] == o[i]);
        }
        lemma_key_idx_is(o.drop_first(), k, i - 1);
    }
}

/// After `set_key(o, k, v)`, key `k` is present and holds `v`.
pub proof fn lemma_set_key_same(o: Seq<(Seq<char>, JsonV)>, k: Seq<char>, v: JsonV)
    ensures
        has_key(set_key(o, k, v), k),
        get_key(set_key(o, k, v), k) == v,
{
    lemma_key_idx(o, k);
    let i = key_idx(o, k);
    let o2 = set_key(o, k, v);
    if has_key(o, k) {
        assert forall|t: int| 0 <= t < i implies (#[trigger] o2[t]).0 != k by {
            assert(o2[t] == o[t]);
        }
        lemma_key_idx_is(o2, k, i);
    } else {
        assert forall|t: int| 0 <= t < o.len() implies (#[trigger] o2[t]).0 != k by {
            assert(o2[t] == o[t]);
        }
        lemma_key_idx_is(o2, k, o.len() as int);
    }
}

/// `set_key(o, k, v)` leaves every key other than `k` exactly as it was.
pub proof fn lemma_set_key_other(o: Seq<(Seq<char>, JsonV)>, k: Seq<char>, v: JsonV, k2: Seq<char>)
    requires
        k2 != k,
    ensures
        has_key(set_key(o, k, v), k2) == has_key(o, k2),
        has_key(o, k2) ==> get_key(set_key(o, k, v), k2) == get_key(o, k2),
{
    lemma_key_idx(o, k);
    lemma_key_idx(o, k2);
    let i = key_idx(o, k);
    let i2 = key_idx(o, k2);
    let o2 = set_key(o, k, v);
    if has_key(o, k) {
        assert forall|t: int| 0 <= t < i2 implies (#[trigger] o2[t]).0 != k2 by {
            assert(o2[t].0 == o[t].0);
        }
        if has_key(o, k2) {
            assert(o[i].0 == k);
            assert(i2 != i);
            assert(o2[i2] == o[i2]);
            lemma_key_idx_is(o2, k2, i2);
        } else {
            assert forall|t: int| 0 <= t < o2.len() implies (#[trigger] o2[t]).0 != k2 by {
                assert(o2[t].0 == o[t].0);
            }
            lemma_key_idx_is(o2, k2, o2.len() as int);
        }
    } else {
        if has_key(o, k2) {
            assert forall|t: int| 0 <= t < i2 implies (#[trigger] o2[t]).0 != k2 by {
                assert(o2[t] == o[t]);
            }
            assert(o2[i2] == o[i2]);
            lemma_key_idx_is(o2, k2, i2);
        } else {
            assert forall|t: int| 0 <= t < o2.len() implies (#[trigger] o2[t]).0 != k2 by {
                if t < o.len() {
                    assert(o2[t] == o[t]);
                }
            }
            lemma_key_idx_is(o2, k2, o2.len() as int);
        }
    }
}

/// The position of the first entry of `o` whose key is `k`, found by a
/// character-wise scan; `o.len()` when no entry has that key.
pub fn find_key(o: &Vec<(String, Json)>, k: &str) -> (i: usize)
    ensures
        i as int == key_idx(jv_entries(o@), k@),
        i <= o.len(),
{
    proof {
        lemma_jv_entries(o@);
    }
    let mut i: usize = 0;
    while i < o.len()
        invariant
            i <= o.len(),
            jv_entries(o@).len() == o.len(),
            forall|t: int|
                0 <= t < o@.len() ==> #[trigger] jv_entries(o@)[t] == (o@[t].0@, jv(o@[t].1)),
            forall|t: int| 0 <= t < i ==> (#[trigger] jv_entries(o@)[t]).0 != k@,
        decreases o.len() - i,
    {
        if str_eq(o[i].0.as_str(), k) {
            proof {
                lemma_key_idx_is(jv_entries(o@), k@, i as int);
            }
            return i;
        }
        i += 1;
    }
    proof {
        lemma_key_idx_is(jv_entries(o@), k@, o.len() as int);
    }
    i
}

/// Sets key `k` to `v` among the entries `o`, replacing the first entry with
/// that key or appending a new one.
pub fn vec_set_key(o: &mut Vec<(String, Json)>, k: &str, v: Json)
    ensures
        jv_entries(final(o)@) == set_key(jv_entries(old(o)@), k@, jv(v)),
{
    proof {
        lemma_jv_entries(o@);
        lemma_key_idx(jv_entries(o@), k@);
    }
    let ghost e0 = jv_entries(old(o)@);
    let i = find_key(o, k);
    if i < o.len() {
        let (key, _old) = o.remove(i);
        o.insert(i, (key, v));
        proof {
            assert(o@ =~= old(o)@.update(i as int, (old(o)@[i as int].0, v)));
            lemma_jv_entries(o@);
            lemma_jv_entries(old(o)@);
            assert(jv_entries(o@) =~= set_key(e0, k@, jv(v)));
        }
    } else {
        o.push((k.to_owned(), v));
        proof {
            lemma_jv_entries(o@);
            lemma_jv_entries(old(o)@);
            assert(o@.drop_last() =~= old(o)@);
            assert(jv_entries(o@) =~= set_key(e0, k@, jv(v)));
        }
    }
}

} // verus!
