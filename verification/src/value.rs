//! The canonical value model: the tree every format parses into and
//! serializes out of, with its mathematical model.

use vstd::prelude::*;
use crate::strutil::lex_lt;
use crate::strutil::lemma_lex_asymmetric;
use crate::strutil::lemma_lex_irreflexive;
use crate::strutil::lemma_lex_total;
use crate::strutil::lemma_lex_transitive;

verus! {

/// Mathematical model of a canonical document value.
pub enum Val {
    Null,
    Bool(bool),
    Int(int),
    Float(Seq<char>),
    Str(Seq<char>),
    Arr(Seq<Val>),
    Obj(Seq<(Seq<char>, Val)>),
}

/// The canonical in-memory value that all four formats convert through.
///
/// A number is either a 64-bit integer or a finite float; the float is held
/// as its canonical decimal rendering, which is how every consumer in this
/// library reads it. Object pairs carry unique keys in ascending
/// lexicographic order, the order the underlying map of the JSON writer
/// keeps them in.
pub enum CanonicalValue {
    Null,
    Bool(bool),
    Int(i64),
    Float(String),
    Str(String),
    Array(Vec<CanonicalValue>),
    Object(Vec<(String, CanonicalValue)>),
}

impl View for CanonicalValue {
    type V = Val;

    open spec fn view(&self) -> Val
        decreases self,
    {
        match self {
            CanonicalValue::Null => Val::Null,
            CanonicalValue::Bool(b) => Val::Bool(*b),
            CanonicalValue::Int(i) => Val::Int(*i as int),
            CanonicalValue::Float(s) => Val::Float(s@),
            CanonicalValue::Str(s) => Val::Str(s@),
            CanonicalValue::Array(a) => Val::Arr(elems_model(a@)),
            CanonicalValue::Object(m) => Val::Obj(pairs_model(m@)),
        }
    }
}

/// Model of a sequence of object pairs.
pub open spec fn pairs_model(m: Seq<(String, CanonicalValue)>) -> Seq<(Seq<char>, Val)>
    decreases m,
{
    if m.len() == 0 {
        Seq::empty()
    } else {
        pairs_model(m.drop_last()).push((m.last().0@, m.last().1@))
    }
}

/// Model of a sequence of values.
pub open spec fn elems_model(a: Seq<CanonicalValue>) -> Seq<Val>
    decreases a,
{
    if a.len() == 0 {
        Seq::empty()
    } else {
        elems_model(a.drop_last()).push(a.last()@)
    }
}

pub proof fn lemma_elems_model_push(s: Seq<CanonicalValue>, x: CanonicalValue)
    ensures
        elems_model(s.push(x)) == elems_model(s).push(x@),
{
    assert(s.push(x).drop_last() =~= s);
    assert(s.push(x).last() == x);
}

pub proof fn lemma_pairs_model_push(s: Seq<(String, CanonicalValue)>, x: (String, CanonicalValue))
    ensures
        pairs_model(s.push(x)) == pairs_model(s).push((x.0@, x.1@)),
{
    assert(s.push(x).drop_last() =~= s);
    assert(s.push(x).last() == x);
}

/// Index form of `elems_model`.
pub broadcast proof fn lemma_elems_model_index(a: Seq<CanonicalValue>)
    ensures
        (#[trigger] elems_model(a)).len() == a.len(),
        forall|i: int| 0 <= i < a.len() ==> elems_model(a)[i] == a[i]@,
    decreases a,
{
    if a.len() == 0 {
        assert(elems_model(a).len() == 0);
    } else {
        lemma_elems_model_index(a.drop_last());
        assert(elems_model(a) == elems_model(a.drop_last()).push(a.last()@));
        assert(forall|i: int|
            0 <= i < a.len() - 1 ==> elems_model(a)[i] == elems_model(a.drop_last())[i]);
        assert(forall|i: int| 0 <= i < a.len() - 1 ==> a.drop_last()[i] == a[i]);
    }
}

/// Index form of `pairs_model`.
pub broadcast proof fn lemma_pairs_model_index(m: Seq<(String, CanonicalValue)>)
    ensures
        (#[trigger] pairs_model(m)).len() == m.len(),
        forall|i: int| 0 <= i < m.len() ==> pairs_model(m)[i] == (m[i].0@, m[i].1@),
    decreases m,
{
    if m.len() == 0 {
        assert(pairs_model(m).len() == 0);
    } else {
        lemma_pairs_model_index(m.drop_last());
        assert(pairs_model(m) == pairs_model(m.drop_last()).push((m.last().0@, m.last().1@)));
        assert(forall|i: int|
            0 <= i < m.len() - 1 ==> pairs_model(m)[i] == pairs_model(m.drop_last())[i]);
        assert(forall|i: int| 0 <= i < m.len() - 1 ==> m.drop_last()[i] == m[i]);
    }
}

/// Keys strictly ascending in lexicographic order; implies uniqueness.
pub open spec fn strictly_sorted_keys<V>(m: Seq<(Seq<char>, V)>) -> bool {
    forall|i: int, j: int| 0 <= i < j < m.len() ==> lex_lt(#[trigger] m[i].0, #[trigger] m[j].0)
}

/// The well-formed values: every object's keys strictly ascending.
pub open spec fn val_normal(v: Val) -> bool
    decreases v,
{
    match v {
        Val::Arr(a) => forall|i: int| 0 <= i < a.len() ==> val_normal(#[trigger] a[i]),
        Val::Obj(m) => strictly_sorted_keys(m) && forall|i: int|
            0 <= i < m.len() ==> val_normal(#[trigger] m[i].1),
        _ => true,
    }
}

/// No `Null` anywhere in the value; what the TOML writer requires.
pub open spec fn val_no_null(v: Val) -> bool
    decreases v,
{
    match v {
        Val::Null => false,
        Val::Arr(a) => forall|i: int| 0 <= i < a.len() ==> val_no_null(#[trigger] a[i]),
        Val::Obj(m) => forall|i: int| 0 <= i < m.len() ==> val_no_null(#[trigger] m[i].1),
        _ => true,
    }
}

// ---------------------------------------------------------------------------
// Ordered object operations
// ---------------------------------------------------------------------------

/// Insertion into an object held in ascending key order: replaces the value
/// when the key exists, else places the pair at its ordered position.
pub open spec fn obj_insert<V>(m: Seq<(Seq<char>, V)>, k: Seq<char>, v: V) -> Seq<
    (Seq<char>, V),
>
    decreases m.len(),
{
    if m.len() == 0 {
        seq![(k, v)]
    } else if lex_lt(k, m[0].0) {
        seq![(k, v)] + m
    } else if k == m[0].0 {
        seq![(k, v)] + m.skip(1)
    } else {
        seq![m[0]] + obj_insert(m.skip(1), k, v)
    }
}

/// The value under the first occurrence of a key.
pub open spec fn obj_lookup<V>(m: Seq<(Seq<char>, V)>, k: Seq<char>) -> Option<V>
    decreases m.len(),
{
    if m.len() == 0 {
        None
    } else if m[0].0 == k {
        Some(m[0].1)
    } else {
        obj_lookup(m.skip(1), k)
    }
}

pub open spec fn obj_has_key<V>(m: Seq<(Seq<char>, V)>, k: Seq<char>) -> bool {
    obj_lookup(m, k) is Some
}

/// Everything `obj_insert` guarantees on a sorted object: sortedness is
/// kept, the key now maps to the value, and nothing else changes.
pub proof fn lemma_obj_insert_props<V>(m: Seq<(Seq<char>, V)>, k: Seq<char>, v: V)
    requires
        strictly_sorted_keys(m),
    ensures
        strictly_sorted_keys(obj_insert(m, k, v)),
        obj_lookup(obj_insert(m, k, v), k) == Some(v),
        forall|k2: Seq<char>|
            k2 != k ==> obj_lookup(obj_insert(m, k, v), k2) == obj_lookup(m, k2),
        forall|i: int|
            0 <= i < obj_insert(m, k, v).len() ==> (#[trigger] obj_insert(m, k, v)[i]) == (k, v)
                || (m.contains(obj_insert(m, k, v)[i]) && obj_insert(m, k, v)[i].0 != k),
        obj_insert(m, k, v).len() <= m.len() + 1,
    decreases m.len(),
{
    let res = obj_insert(m, k, v);
    if m.len() == 0 {
        assert forall|k2: Seq<char>| k2 != k implies obj_lookup(res, k2) == obj_lookup(
            m,
            k2,
        ) by {
            assert(res.skip(1) =~= Seq::<(Seq<char>, V)>::empty());
            assert(obj_lookup(res.skip(1), k2) is None);
            assert(obj_lookup(m, k2) is None);
        }
        assert(m.contains(res[0]) == false);
    } else if lex_lt(k, m[0].0) {
        assert forall|i: int, j: int| 0 <= i < j < res.len() implies lex_lt(
            res[i].0,
            res[j].0,
        ) by {
            if i > 0 {
                assert(res[i] == m[i - 1] && res[j] == m[j - 1]);
            } else if j > 1 {
                lemma_lex_transitive(k, m[0].0, m[j - 1].0);
            }
        }
        assert forall|i: int| 0 <= i < res.len() implies (#[trigger] res[i]) == (k, v) || (
        m.contains(res[i]) && res[i].0 != k) by {
            if i > 0 {
                assert(res[i] == m[i - 1]);
                assert(m.contains(res[i]));
                if res[i].0 == k {
                    if i == 1 {
                        lemma_lex_irreflexive(k);
                    } else {
                        lemma_lex_transitive(k, m[0].0, m[i - 1].0);
                        lemma_lex_irreflexive(k);
                    }
                }
            }
        }
        assert forall|k2: Seq<char>| k2 != k implies obj_lookup(res, k2) == obj_lookup(
            m,
            k2,
        ) by {
            assert(res.skip(1) =~= m);
        }
    } else if k == m[0].0 {
        assert forall|i: int, j: int| 0 <= i < j < res.len() implies lex_lt(
            res[i].0,
            res[j].0,
        ) by {
            if i > 0 {
                assert(res[i] == m.skip(1)[i - 1] && res[j] == m.skip(1)[j - 1]);
                assert(m.skip(1)[i - 1] == m[i] && m.skip(1)[j - 1] == m[j]);
            } else {
                assert(res[j] == m.skip(1)[j - 1]);
                assert(m.skip(1)[j - 1] == m[j]);
            }
        }
        assert forall|i: int| 0 <= i < res.len() implies (#[trigger] res[i]) == (k, v) || (
        m.contains(res[i]) && res[i].0 != k) by {
            if i > 0 {
                assert(res[i] == m.skip(1)[i - 1]);
                assert(m.skip(1)[i - 1] == m[i]);
                assert(m.contains(res[i]));
                if res[i].0 == k {
                    lemma_lex_irreflexive(k);
                }
            }
        }
        assert forall|k2: Seq<char>| k2 != k implies obj_lookup(res, k2) == obj_lookup(
            m,
            k2,
        ) by {
            assert(res.skip(1) =~= m.skip(1));
        }
    } else {
        lemma_lex_total(k, m[0].0);
        assert(lex_lt(m[0].0, k));
        assert(strictly_sorted_keys(m.skip(1))) by {
            assert(forall|i: int|
                0 <= i < m.skip(1).len() ==> (#[trigger] m.skip(1)[i]) == m[i + 1]);
        }
        lemma_obj_insert_props(m.skip(1), k, v);
        let tail = obj_insert(m.skip(1), k, v);
        assert(res.skip(1) =~= tail);
        assert forall|i: int, j: int| 0 <= i < j < res.len() implies lex_lt(
            res[i].0,
            res[j].0,
        ) by {
            if i > 0 {
                assert(res[i] == tail[i - 1] && res[j] == tail[j - 1]);
            } else {
                assert(res[j] == tail[j - 1]);
                if tail[j - 1] == (k, v) {
                } else {
                    assert(m.contains(tail[j - 1]));
                    let w = choose|w: int| 0 <= w < m.len() && m[w] == tail[j - 1];
                    if w == 0 {
                        assert(strictly_sorted_keys(tail));
                        if j >= 2 {
                            assert(lex_lt(tail[0].0, tail[j - 1].0));
                            assert(tail[0].0 == k || m.contains(tail[0]));
                        } else {
                            assert(res[1].0 == m[0].0);
                            assert(lex_lt(m[0].0, k));
                        }
                    } else {
                        assert(lex_lt(m[0].0, m[w].0));
                    }
                }
            }
        }
        assert forall|i: int| 0 <= i < res.len() implies (#[trigger] res[i]) == (k, v) || (
        m.contains(res[i]) && res[i].0 != k) by {
            if i == 0 {
                assert(res[0] == m[0]);
                assert(m.contains(res[0]));
                lemma_lex_irreflexive(k);
            } else {
                assert(res[i] == tail[i - 1]);
                if tail[i - 1] == (k, v) {
                } else {
                    assert(m.skip(1).contains(tail[i - 1]));
                    let w = choose|w: int|
                        0 <= w < m.skip(1).len() && m.skip(1)[w] == tail[i - 1];
                    assert(m.skip(1)[w] == m[w + 1]);
                    assert(m.contains(tail[i - 1]));
                }
            }
        }
        assert(obj_lookup(res, k) == Some(v)) by {
            lemma_lex_irreflexive(k);
        }
        assert forall|k2: Seq<char>| k2 != k implies obj_lookup(res, k2) == obj_lookup(
            m,
            k2,
        ) by {
            if k2 != m[0].0 {
                assert(obj_lookup(res, k2) == obj_lookup(tail, k2));
                assert(obj_lookup(m, k2) == obj_lookup(m.skip(1), k2));
            }
        }
    }
}

/// Inserting a key above every key in the object appends the pair.
pub proof fn lemma_obj_insert_append<V>(m: Seq<(Seq<char>, V)>, k: Seq<char>, v: V)
    requires
        forall|i: int| 0 <= i < m.len() ==> lex_lt((#[trigger] m[i]).0, k),
    ensures
        obj_insert(m, k, v) == m.push((k, v)),
    decreases m.len(),
{
    if m.len() == 0 {
        assert(obj_insert(m, k, v) =~= m.push((k, v)));
    } else {
        lemma_lex_asymmetric(m[0].0, k);
        lemma_lex_irreflexive(k);
        assert(forall|i: int| 0 <= i < m.skip(1).len() ==> (#[trigger] m.skip(1)[i]) == m[i + 1]);
        lemma_obj_insert_append(m.skip(1), k, v);
        assert(obj_insert(m, k, v) =~= m.push((k, v)));
    }
}

/// In a strictly sorted object, looking a key up yields its own pair.
pub proof fn lemma_obj_lookup_index<V>(m: Seq<(Seq<char>, V)>, j: int)
    requires
        strictly_sorted_keys(m),
        0 <= j < m.len(),
    ensures
        obj_lookup(m, m[j].0) == Some(m[j].1),
    decreases m.len(),
{
    if j > 0 {
        lemma_lex_irreflexive(m[j].0);
        assert(m[0].0 != m[j].0);
        assert(forall|i: int| 0 <= i < m.skip(1).len() ==> (#[trigger] m.skip(1)[i]) == m[i + 1]);
        assert(strictly_sorted_keys(m.skip(1)));
        lemma_obj_lookup_index(m.skip(1), j - 1);
    }
}

/// A successful lookup returns the value of some pair with that key.
pub proof fn lemma_obj_lookup_found<V>(m: Seq<(Seq<char>, V)>, k: Seq<char>)
    requires
        obj_lookup(m, k) is Some,
    ensures
        exists|i: int| 0 <= i < m.len() && (#[trigger] m[i]) == (k, obj_lookup(m, k)->0),
    decreases m.len(),
{
    if m.len() > 0 && m[0].0 != k {
        lemma_obj_lookup_found(m.skip(1), k);
        let i = choose|i: int|
            0 <= i < m.skip(1).len() && (#[trigger] m.skip(1)[i]) == (k, obj_lookup(m.skip(1), k)->0);
        assert(m[i + 1] == m.skip(1)[i]);
    } else if m.len() > 0 {
        assert(m[0] == (k, obj_lookup(m, k)->0));
    }
}

/// Case analysis on the first pair being skipped during lookup.
pub proof fn lemma_obj_lookup_skip<V>(p: Seq<(Seq<char>, V)>, k: Seq<char>, i: int)
    requires
        0 <= i <= p.len(),
        forall|j: int| 0 <= j < i ==> (#[trigger] p[j]).0 != k,
    ensures
        obj_lookup(p, k) == obj_lookup(p.skip(i), k),
    decreases i,
{
    if i > 0 {
        lemma_obj_lookup_skip(p.skip(1), k, i - 1);
        assert(p.skip(1).skip(i - 1) =~= p.skip(i));
        assert(forall|j: int| 0 <= j < i - 1 ==> (#[trigger] p.skip(1)[j]) == p[j + 1]);
    } else {
        assert(p.skip(0) =~= p);
    }
}

/// Ordered insertion into a vector of pairs, mirroring `obj_insert`.
pub fn object_insert(
    m: Vec<(String, CanonicalValue)>,
    key: String,
    value: CanonicalValue,
) -> (r: Vec<(String, CanonicalValue)>)
    ensures
        pairs_model(r@) == obj_insert(pairs_model(m@), key@, value@),
    decreases m@.len(),
{
    let ghost pm = pairs_model(m@);
    proof {
        lemma_pairs_model_index(m@);
    }
    if m.len() == 0 {
        let mut r = m;
        let ghost r0 = r@;
        r.push((key, value));
        proof {
            lemma_pairs_model_push(r0, (key, value));
            assert(pairs_model(r@) =~= obj_insert(pm, key@, value@));
        }
        r
    } else {
        let c = crate::strutil::str_compare(key.as_str(), m[0].0.as_str());
        if c < 0 {
            let mut r = m;
            r.insert(0, (key, value));
            proof {
                lemma_pairs_model_index(r@);
                assert(pairs_model(r@) =~= seq![(key@, value@)] + pm);
            }
            r
        } else if c == 0 {
            let mut r = m;
            r.remove(0);
            r.insert(0, (key, value));
            proof {
                lemma_pairs_model_index(r@);
                assert(pairs_model(r@) =~= seq![(key@, value@)] + pm.skip(1));
            }
            r
        } else {
            let mut r = m;
            let head = r.remove(0);
            let ghost rm = pairs_model(r@);
            proof {
                lemma_pairs_model_index(r@);
                assert(rm =~= pm.skip(1));
            }
            let r2 = object_insert(r, key, value);
            let mut r3 = r2;
            r3.insert(0, head);
            proof {
                lemma_pairs_model_index(r3@);
                lemma_pairs_model_index(r3@.skip(1));
                assert(pairs_model(r3@.skip(1)) =~= obj_insert(pm.skip(1), key@, value@)) by {
                    assert(r3@.skip(1) =~= r2@);
                }
                assert(pairs_model(r3@) =~= seq![pm[0]] + obj_insert(pm.skip(1), key@, value@));
            }
            r3
        }
    }
}

/// Lookup in a vector of pairs, mirroring `obj_lookup`.
pub fn object_get<'a>(m: &'a Vec<(String, CanonicalValue)>, key: &str) -> (r: Option<
    &'a CanonicalValue,
>)
    ensures
        match r {
            Some(v) => obj_lookup(pairs_model(m@), key@) == Some(v@),
            None => obj_lookup(pairs_model(m@), key@) is None,
        },
{
    proof {
        lemma_pairs_model_index(m@);
    }
    let ghost pm = pairs_model(m@);
    let mut i: usize = 0;
    while i < m.len()
        invariant
            i <= m@.len(),
            pm == pairs_model(m@),
            forall|j: int| 0 <= j < i ==> (#[trigger] pm[j]).0 != key@,
        decreases m@.len() - i,
    {
        if crate::strutil::str_eq(m[i].0.as_str(), key) {
            proof {
                lemma_obj_lookup_skip(pm, key@, i as int);
                assert(pm.skip(i as int)[0] == pm[i as int]);
            }
            return Some(&m[i].1);
        }
        i += 1;
    }
    proof {
        lemma_obj_lookup_skip(pm, key@, i as int);
        assert(pm.skip(i as int) =~= Seq::<(Seq<char>, Val)>::empty());
    }
    None
}

impl CanonicalValue {
    /// The carried text when the value is a string.
    pub fn as_string(&self) -> (r: Option<&String>)
        ensures
            match r {
                Some(s) => self@ == Val::Str(s@),
                None => !(self@ is Str),
            },
    {
        match self {
            CanonicalValue::Str(s) => Some(s),
            _ => None,
        }
    }

    /// A structurally equal copy.
    pub fn deep_copy(&self) -> (r: CanonicalValue)
        ensures
            r@ == self@,
        decreases *self,
    {
        match self {
            CanonicalValue::Null => CanonicalValue::Null,
            CanonicalValue::Bool(b) => CanonicalValue::Bool(*b),
            CanonicalValue::Int(i) => CanonicalValue::Int(*i),
            CanonicalValue::Float(s) => CanonicalValue::Float(s.clone()),
            CanonicalValue::Str(s) => CanonicalValue::Str(s.clone()),
            CanonicalValue::Array(a) => {
                let mut out: Vec<CanonicalValue> = Vec::new();
                let mut i: usize = 0;
                while i < a.len()
                    invariant
                        i <= a.len(),
                        elems_model(out@) == elems_model(a@.take(i as int)),
                    decreases a.len() - i,
                {
                    let ghost out0 = out@;
                    let c = a[i].deep_copy();
                    let ghost cg = c;
                    out.push(c);
                    proof {
                        lemma_elems_model_push(out0, cg);
                        lemma_elems_model_push(a@.take(i as int), a@[i as int]);
                        assert(a@.take(i + 1) =~= a@.take(i as int).push(a@[i as int]));
                        assert(elems_model(out@) == elems_model(a@.take(i + 1)));
                    }
                    i += 1;
                }
                proof {
                    assert(a@.take(a@.len() as int) =~= a@);
                }
                CanonicalValue::Array(out)
            },
            CanonicalValue::Object(m) => {
                let mut out: Vec<(String, CanonicalValue)> = Vec::new();
                let mut i: usize = 0;
                while i < m.len()
                    invariant
                        i <= m.len(),
                        pairs_model(out@) == pairs_model(m@.take(i as int)),
                    decreases m.len() - i,
                {
                    let k = m[i].0.clone();
                    let v = m[i].1.deep_copy();
                    let ghost out0 = out@;
                    let ghost pg = (k, v);
                    out.push((k, v));
                    proof {
                        lemma_pairs_model_push(out0, pg);
                        lemma_pairs_model_push(m@.take(i as int), m@[i as int]);
                        assert(m@.take(i + 1) =~= m@.take(i as int).push(m@[i as int]));
                        assert(pairs_model(out@) == pairs_model(m@.take(i + 1)));
                    }
                    i += 1;
                }
                proof {
                    assert(m@.take(m@.len() as int) =~= m@);
                }
                CanonicalValue::Object(out)
            },
        }
    }
}

} // verus!
