//! Shared helpers: leaf rendering, flattening of nested values into
//! compound-key records, the CSV export pipeline, and the adaptation that
//! makes a value representable in TOML.

use vstd::prelude::*;
use crate::error::FormatError;
use crate::outside::csv_rows_of;
use crate::outside::csv_text_of;
use crate::outside::json_min_of;
use crate::outside::json_min_string;
use crate::outside::json_of_canon;
use crate::outside::val_floats_f64;
use crate::outside::val_num_texts;
use crate::outside::val_wf;
use crate::strutil::i64_text;
use crate::strutil::i64_to_string;
use crate::strutil::lex_lt;
use crate::value::obj_insert;
use crate::value::obj_lookup;
use crate::value::pairs_model;
use crate::value::elems_model;
use crate::value::lemma_pairs_model_index;
use crate::value::lemma_elems_model_index;
use crate::value::strictly_sorted_keys;
use crate::value::val_no_null;
use crate::value::val_normal;
use crate::value::CanonicalValue;
use crate::value::Val;

verus! {

// ---------------------------------------------------------------------------
// Leaf rendering
// ---------------------------------------------------------------------------

/// The flat text of a value: strings verbatim, numbers and booleans in
/// their natural form, null empty, nested structure as compact JSON.
pub open spec fn leaf_text(v: Val) -> Seq<char> {
    match v {
        Val::Null => Seq::empty(),
        Val::Bool(b) => if b {
            "true"@
        } else {
            "false"@
        },
        Val::Int(i) => i64_text(i),
        Val::Float(t) => t,
        Val::Str(s) => s,
        _ => json_min_of(v),
    }
}

/// Renders one value as the single flat text `leaf_text` describes.
pub fn json_value_to_string(value: &CanonicalValue) -> (r: String)
    requires
        val_wf(value@),
    ensures
        r@ == leaf_text(value@),
{
    match value {
        CanonicalValue::Null => String::new(),
        CanonicalValue::Bool(b) => {
            if *b {
                String::from_str("true")
            } else {
                String::from_str("false")
            }
        },
        CanonicalValue::Int(i) => i64_to_string(*i),
        CanonicalValue::Float(t) => t.clone(),
        CanonicalValue::Str(s) => s.clone(),
        _ => {
            let jv = json_of_canon(value);
            json_min_string(&jv)
        },
    }
}

// ---------------------------------------------------------------------------
// Flat records
// ---------------------------------------------------------------------------

/// Model of a vector of flat pairs.
pub open spec fn flat_model(m: Seq<(String, String)>) -> Seq<(Seq<char>, Seq<char>)>
    decreases m,
{
    if m.len() == 0 {
        Seq::empty()
    } else {
        flat_model(m.drop_last()).push((m.last().0@, m.last().1@))
    }
}

pub broadcast proof fn lemma_flat_model_index(m: Seq<(String, String)>)
    ensures
        (#[trigger] flat_model(m)).len() == m.len(),
        forall|i: int| 0 <= i < m.len() ==> flat_model(m)[i] == (m[i].0@, m[i].1@),
    decreases m,
{
    if m.len() == 0 {
        assert(flat_model(m).len() == 0);
    } else {
        lemma_flat_model_index(m.drop_last());
        assert(flat_model(m) == flat_model(m.drop_last()).push((m.last().0@, m.last().1@)));
        assert(forall|i: int|
            0 <= i < m.len() - 1 ==> flat_model(m)[i] == flat_model(m.drop_last())[i]);
        assert(forall|i: int| 0 <= i < m.len() - 1 ==> m.drop_last()[i] == m[i]);
    }
}

/// Ordered insertion into a flat record, mirroring `obj_insert`.
fn flat_put(m: Vec<(String, String)>, key: String, value: String) -> (r: Vec<(String, String)>)
    ensures
        flat_model(r@) == obj_insert(flat_model(m@), key@, value@),
    decreases m@.len(),
{
    let ghost pm = flat_model(m@);
    proof {
        lemma_flat_model_index(m@);
    }
    if m.len() == 0 {
        let mut r = m;
        let ghost r0 = r@;
        r.push((key, value));
        proof {
            assert(r@.drop_last() =~= r0);
            assert(flat_model(r@) =~= obj_insert(pm, key@, value@));
        }
        r
    } else {
        let c = crate::strutil::str_compare(key.as_str(), m[0].0.as_str());
        if c < 0 {
            let mut r = m;
            r.insert(0, (key, value));
            proof {
                lemma_flat_model_index(r@);
                assert(flat_model(r@) =~= seq![(key@, value@)] + pm);
            }
            r
        } else if c == 0 {
            let mut r = m;
            r.remove(0);
            r.insert(0, (key, value));
            proof {
                lemma_flat_model_index(r@);
                assert(flat_model(r@) =~= seq![(key@, value@)] + pm.skip(1));
            }
            r
        } else {
            let mut r = m;
            let head = r.remove(0);
            proof {
                lemma_flat_model_index(r@);
                assert(flat_model(r@) =~= pm.skip(1));
            }
            let r2 = flat_put(r, key, value);
            let mut r3 = r2;
            r3.insert(0, head);
            proof {
                lemma_flat_model_index(r3@);
                lemma_flat_model_index(r3@.skip(1));
                assert(flat_model(r3@.skip(1)) =~= obj_insert(pm.skip(1), key@, value@)) by {
                    assert(r3@.skip(1) =~= r2@);
                }
                assert(flat_model(r3@) =~= seq![pm[0]] + obj_insert(pm.skip(1), key@, value@));
            }
            r3
        }
    }
}

/// Lookup in a flat record, mirroring `obj_lookup`.
pub fn flat_get<'a>(m: &'a Vec<(String, String)>, key: &str) -> (r: Option<&'a String>)
    ensures
        match r {
            Some(v) => obj_lookup(flat_model(m@), key@) == Some(v@),
            None => obj_lookup(flat_model(m@), key@) is None,
        },
{
    proof {
        lemma_flat_model_index(m@);
    }
    let ghost pm = flat_model(m@);
    let mut i: usize = 0;
    while i < m.len()
        invariant
            i <= m@.len(),
            pm == flat_model(m@),
            forall|j: int| 0 <= j < i ==> (#[trigger] pm[j]).0 != key@,
        decreases m@.len() - i,
    {
        if crate::strutil::str_eq(m[i].0.as_str(), key) {
            proof {
                crate::value::lemma_obj_lookup_skip(pm, key@, i as int);
                assert(pm.skip(i as int)[0] == pm[i as int]);
            }
            return Some(&m[i].1);
        }
        i += 1;
    }
    proof {
        crate::value::lemma_obj_lookup_skip(pm, key@, i as int);
        assert(pm.skip(i as int) =~= Seq::<(Seq<char>, Seq<char>)>::empty());
    }
    None
}

// ---------------------------------------------------------------------------
// Flattening
// ---------------------------------------------------------------------------

/// Parent and child key joined with the separator.
pub open spec fn flat_key(prefix: Seq<char>, k: Seq<char>) -> Seq<char> {
    if prefix.len() == 0 {
        k
    } else {
        prefix + "_"@ + k
    }
}

fn joined_key(prefix: &str, k: &str) -> (r: String)
    ensures
        r@ == flat_key(prefix@, k@),
{
    if prefix.is_empty() {
        let mut s = String::new();
        s.append(k);
        proof {
            assert(s@ =~= k@);
        }
        s
    } else {
        let mut s = String::new();
        s.append(prefix);
        s.append("_");
        s.append(k);
        s
    }
}

/// One step of flattening: merge the flattening of `v` under `prefix` into
/// the record built so far. Nested objects recurse with the joined key;
/// everything else becomes one flat pair; a bare non-object with no prefix
/// contributes nothing.
pub open spec fn flat_extend(
    acc: Seq<(Seq<char>, Seq<char>)>,
    v: Val,
    prefix: Seq<char>,
) -> Seq<(Seq<char>, Seq<char>)>
    decreases v,
{
    match v {
        Val::Obj(m) => flat_extend_pairs(acc, m, prefix),
        _ => if prefix.len() > 0 {
            obj_insert(acc, prefix, leaf_text(v))
        } else {
            acc
        },
    }
}

pub open spec fn flat_extend_pairs(
    acc: Seq<(Seq<char>, Seq<char>)>,
    m: Seq<(Seq<char>, Val)>,
    prefix: Seq<char>,
) -> Seq<(Seq<char>, Seq<char>)>
    decreases m,
{
    if m.len() == 0 {
        acc
    } else {
        let acc1 = if m[0].1 is Obj {
            flat_extend(acc, m[0].1, flat_key(prefix, m[0].0))
        } else {
            obj_insert(acc, flat_key(prefix, m[0].0), leaf_text(m[0].1))
        };
        flat_extend_pairs(acc1, m.skip(1), prefix)
    }
}

/// The flat record of one value.
pub open spec fn flat_of(v: Val) -> Seq<(Seq<char>, Seq<char>)> {
    flat_extend(Seq::empty(), v, Seq::empty())
}

fn flatten_into(acc: Vec<(String, String)>, v: &CanonicalValue, prefix: &str) -> (r: Vec<
    (String, String),
>)
    requires
        val_wf(v@),
    ensures
        flat_model(r@) == flat_extend(flat_model(acc@), v@, prefix@),
    decreases *v,
{
    match v {
        CanonicalValue::Object(m) => {
            let ghost pm = pairs_model(m@);
            proof {
                lemma_pairs_model_index(m@);
            }
            let mut res = acc;
            let ghost acc0 = flat_model(res@);
            let mut i: usize = 0;
            proof {
                assert(pm.skip(0) =~= pm);
            }
            while i < m.len()
                invariant
                    i <= m@.len(),
                    pm == pairs_model(m@),
                    val_wf(v@),
                    v@ == Val::Obj(pm),
                    flat_extend_pairs(acc0, pm, prefix@) == flat_extend_pairs(
                        flat_model(res@),
                        pm.skip(i as int),
                        prefix@,
                    ),
                decreases m@.len() - i,
            {
                proof {
                    lemma_pairs_model_index(m@);
                    assert(pm.skip(i as int)[0] == pm[i as int]);
                    assert(pm.skip(i as int).skip(1) =~= pm.skip(i + 1));
                    assert(val_normal(pm[i as int].1) && val_num_texts(pm[i as int].1));
                }
                let key = joined_key(prefix, m[i].0.as_str());
                let is_obj = match &m[i].1 {
                    CanonicalValue::Object(_) => true,
                    _ => false,
                };
                if is_obj {
                    res = flatten_into(res, &m[i].1, key.as_str());
                } else {
                    let text = json_value_to_string(&m[i].1);
                    res = flat_put(res, key, text);
                }
                i += 1;
            }
            proof {
                assert(pm.skip(i as int) =~= Seq::<(Seq<char>, Val)>::empty());
            }
            res
        },
        _ => {
            if prefix.is_empty() {
                acc
            } else {
                let mut key = String::new();
                key.append(prefix);
                proof {
                    assert(key@ =~= prefix@);
                }
                let text = json_value_to_string(v);
                flat_put(acc, key, text)
            }
        },
    }
}

/// Flattens a value into a single-level record of compound keys, joining
/// nested object keys with the separator; arrays and other leaves render
/// by `leaf_text`.
pub fn flatten_value(v: &CanonicalValue, prefix: &str) -> (r: Vec<(String, String)>)
    requires
        val_wf(v@),
    ensures
        flat_model(r@) == flat_extend(Seq::empty(), v@, prefix@),
{
    flatten_into(Vec::new(), v, prefix)
}

// ---------------------------------------------------------------------------
// CSV export
// ---------------------------------------------------------------------------

/// Ordered insertion of one key into a duplicate-free ascending key list.
pub open spec fn key_insert(h: Seq<Seq<char>>, k: Seq<char>) -> Seq<Seq<char>>
    decreases h.len(),
{
    if h.len() == 0 {
        seq![k]
    } else if lex_lt(k, h[0]) {
        seq![k] + h
    } else if k == h[0] {
        h
    } else {
        seq![h[0]] + key_insert(h.skip(1), k)
    }
}

/// All keys of one record folded into the header list.
pub open spec fn keys_union(h: Seq<Seq<char>>, rec: Seq<(Seq<char>, Seq<char>)>) -> Seq<Seq<char>>
    decreases rec.len(),
{
    if rec.len() == 0 {
        h
    } else {
        keys_union(key_insert(h, rec[0].0), rec.skip(1))
    }
}

/// The header list of a sequence of flat records: the union of all keys,
/// in ascending order.
pub open spec fn headers_fold(h: Seq<Seq<char>>, flats: Seq<Seq<(Seq<char>, Seq<char>)>>) -> Seq<
    Seq<char>,
>
    decreases flats.len(),
{
    if flats.len() == 0 {
        h
    } else {
        headers_fold(keys_union(h, flats[0]), flats.skip(1))
    }
}

/// One CSV data row: the record's text under each header, empty where the
/// record has no such key.
pub open spec fn row_of(rec: Seq<(Seq<char>, Seq<char>)>, hs: Seq<Seq<char>>) -> Seq<Seq<char>> {
    hs.map_values(
        |h: Seq<char>|
            match obj_lookup(rec, h) {
                Some(t) => t,
                None => Seq::<char>::empty(),
            },
    )
}

pub open spec fn flats_of(elems: Seq<Val>) -> Seq<Seq<(Seq<char>, Seq<char>)>> {
    elems.map_values(|v: Val| flat_of(v))
}

/// The full CSV table for a sequence of values: the sorted union header
/// row, then one row per value.
pub open spec fn csv_export_rows(elems: Seq<Val>) -> Seq<Seq<Seq<char>>> {
    let flats = flats_of(elems);
    let hs = headers_fold(Seq::empty(), flats);
    seq![hs] + flats.map_values(|rec: Seq<(Seq<char>, Seq<char>)>| row_of(rec, hs))
}

/// Ordered insertion into a vector of keys, mirroring `key_insert`.
fn key_insert_vec(h: Vec<String>, k: &str) -> (r: Vec<String>)
    ensures
        r.deep_view() == key_insert(h.deep_view(), k@),
    decreases h@.len(),
{
    let ghost hm = h.deep_view();
    if h.len() == 0 {
        let mut r = h;
        let mut ks = String::new();
        ks.append(k);
        proof {
            assert(ks@ =~= k@);
        }
        r.push(ks);
        proof {
            assert(r.deep_view() =~= key_insert(hm, k@));
        }
        r
    } else {
        let c = crate::strutil::str_compare(k, h[0].as_str());
        if c < 0 {
            let mut r = h;
            let mut ks = String::new();
            ks.append(k);
            proof {
                assert(ks@ =~= k@);
            }
            r.insert(0, ks);
            proof {
                assert(r.deep_view() =~= seq![k@] + hm);
            }
            r
        } else if c == 0 {
            proof {
                assert(h.deep_view() =~= key_insert(hm, k@));
            }
            h
        } else {
            let mut r = h;
            let head = r.remove(0);
            proof {
                assert(r.deep_view() =~= hm.skip(1));
            }
            let r2 = key_insert_vec(r, k);
            let mut r3 = r2;
            r3.insert(0, head);
            proof {
                assert(r3.deep_view() =~= seq![hm[0]] + key_insert(hm.skip(1), k@)) by {
                    assert(r3@.len() == r2@.len() + 1);
                    assert(forall|j: int|
                        0 <= j < r2@.len() ==> r3.deep_view()[j + 1] == r2.deep_view()[j]);
                }
            }
            r3
        }
    }
}

/// Folds every key of one record into the headers.
fn record_keys_union(h: Vec<String>, rec: &Vec<(String, String)>) -> (r: Vec<String>)
    ensures
        r.deep_view() == keys_union(h.deep_view(), flat_model(rec@)),
{
    let ghost rm = flat_model(rec@);
    proof {
        lemma_flat_model_index(rec@);
        assert(rm.skip(0) =~= rm);
    }
    let mut r = h;
    let mut i: usize = 0;
    while i < rec.len()
        invariant
            i <= rec@.len(),
            rm == flat_model(rec@),
            keys_union(r.deep_view(), rm.skip(i as int)) == keys_union(h.deep_view(), rm),
        decreases rec@.len() - i,
    {
        proof {
            lemma_flat_model_index(rec@);
            assert(rm.skip(i as int)[0] == rm[i as int]);
            assert(rm.skip(i as int).skip(1) =~= rm.skip(i + 1));
        }
        r = key_insert_vec(r, rec[i].0.as_str());
        i += 1;
    }
    proof {
        assert(rm.skip(i as int) =~= Seq::<(Seq<char>, Seq<char>)>::empty());
    }
    r
}

/// Builds one data row, mirroring `row_of`.
fn row_values(rec: &Vec<(String, String)>, hs: &Vec<String>) -> (r: Vec<String>)
    ensures
        r.deep_view() == row_of(flat_model(rec@), hs.deep_view()),
{
    let ghost target = row_of(flat_model(rec@), hs.deep_view());
    let mut r: Vec<String> = Vec::new();
    let mut i: usize = 0;
    while i < hs.len()
        invariant
            i <= hs@.len(),
            target == row_of(flat_model(rec@), hs.deep_view()),
            r.deep_view() =~= target.take(i as int),
        decreases hs@.len() - i,
    {
        match flat_get(rec, hs[i].as_str()) {
            Some(t) => {
                r.push(t.clone());
            },
            None => {
                r.push(String::new());
            },
        }
        proof {
            assert(r.deep_view() =~= target.take(i + 1));
        }
        i += 1;
    }
    proof {
        assert(target.take(hs@.len() as int) =~= target);
    }
    r
}

/// Everything `values_to_csv_text` promises of the CSV export of a value
/// list: the empty list gives the empty text, otherwise the text encodes
/// exactly the export table and reads back to it, and the write succeeds
/// whenever there is at least one column.
pub open spec fn csv_out_post(elems: Seq<Val>, r: Result<String, FormatError>) -> bool {
    &&& (elems.len() == 0 ==> (r matches Ok(s) && s@ == Seq::<char>::empty()))
    &&& (elems.len() > 0 ==> (r matches Ok(s) ==> s@ == csv_text_of(csv_export_rows(elems)) && (
    csv_export_rows(elems)[0].len() > 0 ==> csv_rows_of(s@) == Some(csv_export_rows(elems)))))
    &&& (elems.len() > 0 ==> r is Ok)
    &&& (elems.len() > 0 && csv_export_rows(elems)[0].len() >= 2 && (forall|j: int|
        0 <= j < csv_export_rows(elems)[0].len() ==> crate::strutil::no_line_breaks(
            #[trigger] csv_export_rows(elems)[0][j],
        )) ==> (r matches Ok(s) ==> crate::strutil::first_nonblank_comma_spec(s@) == Some(true)))
    &&& (r matches Err(e) ==> e is SerializationError)
}

/// Serializes values to CSV text: each value flattened, the header row the
/// sorted union of all keys, missing keys rendered empty; an empty value
/// list yields the empty text. When the header list is not empty the write
/// succeeds; a writer failure surfaces as a serialization error.
pub fn values_to_csv_text(elems: &Vec<CanonicalValue>) -> (r: Result<String, FormatError>)
    requires
        val_wf(Val::Arr(elems_model(elems@))),
    ensures
        csv_out_post(elems_model(elems@), r),
{
    let ghost em = elems_model(elems@);
    proof {
        lemma_elems_model_index(elems@);
    }
    if elems.len() == 0 {
        let empty_text = String::new();
        proof {
            assert(empty_text@ =~= Seq::<char>::empty());
        }
        return Ok(empty_text);
    }
    let ghost fm = flats_of(em);
    // flatten every element
    let mut flats: Vec<Vec<(String, String)>> = Vec::new();
    let mut i: usize = 0;
    while i < elems.len()
        invariant
            i <= elems@.len(),
            em == elems_model(elems@),
            fm == flats_of(em),
            val_wf(Val::Arr(em)),
            flats@.len() == i,
            forall|j: int| 0 <= j < i ==> flat_model((#[trigger] flats@[j])@) == fm[j],
        decreases elems@.len() - i,
    {
        proof {
            lemma_elems_model_index(elems@);
            crate::outside::lemma_val_wf_arr_elem(em, i as int);
            reveal_strlit("");
            assert(""@ =~= Seq::<char>::empty());
        }
        let f = flatten_value(&elems[i], "");
        flats.push(f);
        i += 1;
    }
    // headers: union of all record keys
    let ghost hsm = headers_fold(Seq::empty(), fm);
    let mut hs: Vec<String> = Vec::new();
    let mut j: usize = 0;
    proof {
        assert(fm.skip(0) =~= fm);
        assert(hs.deep_view() =~= Seq::<Seq<char>>::empty());
    }
    while j < flats.len()
        invariant
            j <= flats@.len(),
            flats@.len() == elems@.len(),
            em == elems_model(elems@),
            fm == flats_of(em),
            hsm == headers_fold(Seq::empty(), fm),
            forall|q: int| 0 <= q < flats@.len() ==> flat_model((#[trigger] flats@[q])@) == fm[q],
            headers_fold(hs.deep_view(), fm.skip(j as int)) == hsm,
        decreases flats@.len() - j,
    {
        proof {
            assert(fm.skip(j as int)[0] == fm[j as int]);
            assert(fm.skip(j as int).skip(1) =~= fm.skip(j + 1));
        }
        hs = record_keys_union(hs, &flats[j]);
        j += 1;
    }
    proof {
        assert(fm.skip(j as int) =~= Seq::<Seq<(Seq<char>, Seq<char>)>>::empty());
        assert(hs.deep_view() == hsm);
    }
    // rows: the header row, then one row per record
    let ghost rowsm = csv_export_rows(em);
    let mut rows: Vec<Vec<String>> = Vec::new();
    let mut hrow: Vec<String> = Vec::new();
    let mut q: usize = 0;
    while q < hs.len()
        invariant
            q <= hs@.len(),
            hrow.deep_view() =~= hs.deep_view().take(q as int),
        decreases hs@.len() - q,
    {
        hrow.push(hs[q].clone());
        proof {
            assert(hrow.deep_view() =~= hs.deep_view().take(q + 1));
        }
        q += 1;
    }
    proof {
        assert(hs.deep_view().take(hs@.len() as int) =~= hs.deep_view());
    }
    rows.push(hrow);
    let mut p: usize = 0;
    while p < flats.len()
        invariant
            p <= flats@.len(),
            flats@.len() == elems@.len(),
            em == elems_model(elems@),
            fm == flats_of(em),
            hsm == headers_fold(Seq::empty(), fm),
            hs.deep_view() == hsm,
            forall|t: int| 0 <= t < flats@.len() ==> flat_model((#[trigger] flats@[t])@) == fm[t],
            rows@.len() == p + 1,
            rows.deep_view()[0] == hsm,
            forall|t: int| 0 <= t < p ==> rows.deep_view()[t + 1] == row_of(fm[t], hsm),
        decreases flats@.len() - p,
    {
        let row = row_values(&flats[p], &hs);
        rows.push(row);
        p += 1;
    }
    proof {
        assert(rows.deep_view() =~= rowsm) by {
            assert(rowsm.len() == 1 + fm.len());
            assert(rowsm[0] == hsm);
            assert(forall|t: int| 0 <= t < fm.len() ==> rowsm[t + 1] == row_of(fm[t], hsm));
        }
    }
    // encode
    match crate::outside::write_csv_rows(&rows) {
        Ok(s) => {
            proof {
                assert(rows@[0]@.len() == rowsm[0].len()) by {
                    assert(rows.deep_view()[0].len() == rows@[0]@.len());
                }
                if rowsm[0].len() >= 2 && (forall|t: int|
                    0 <= t < rowsm[0].len() ==> crate::strutil::no_line_breaks(
                        #[trigger] rowsm[0][t],
                    )) {
                    assert forall|t: int| 0 <= t < rows@[0]@.len() implies
                        crate::strutil::no_line_breaks((#[trigger] rows@[0]@[t])@) by {
                        assert(rows.deep_view()[0][t] == rows@[0]@[t]@);
                        assert(rowsm[0][t] == rows@[0]@[t]@);
                    }
                }
            }
            Ok(s)
        },
        Err(e) => {
            proof {
                // the writer promises success when all rows share a width
                assert forall|t: int| 0 <= t < rows@.len() implies (#[trigger] rows@[t])@.len()
                    == rows@[0]@.len() by {
                    assert(rows.deep_view()[t].len() == rows@[t]@.len());
                    assert(rows.deep_view()[0].len() == rows@[0]@.len());
                    if t > 0 {
                        assert(rows.deep_view()[t] == row_of(fm[t - 1], hsm));
                    }
                }
                assert(false);
            }
            let mut msg = String::from_str("Error writing CSV: ");
            msg.append(e.as_str());
            Err(FormatError::SerializationError(msg))
        },
    }
}

// ---------------------------------------------------------------------------
// Root-array wrapping
// ---------------------------------------------------------------------------

/// A root array wrapped into an object under the reserved key; the rule
/// for targets that need an object at the root. Anything else passes.
pub open spec fn wrap_root(v: Val) -> Val {
    if v is Arr {
        Val::Obj(seq![("data"@, v)])
    } else {
        v
    }
}

pub proof fn lemma_wrap_root_wf(v: Val)
    requires
        val_wf(v),
    ensures
        val_wf(wrap_root(v)),
        (wrap_root(v) is Obj) == (v is Obj || v is Arr),
        val_floats_f64(v) ==> val_floats_f64(wrap_root(v)),
{
    if v is Arr {
        let m = seq![("data"@, v)];
        crate::outside::lemma_val_obj_unfold(m);
        assert(strictly_sorted_keys(m));
    }
}

/// Wraps a root array under the reserved key and leaves everything else
/// unchanged.
pub fn wrap_root_array(c: CanonicalValue) -> (r: CanonicalValue)
    ensures
        r@ == wrap_root(c@),
{
    let is_arr = match &c {
        CanonicalValue::Array(_) => true,
        _ => false,
    };
    if is_arr {
        let ghost cv = c@;
        let mut m: Vec<(String, CanonicalValue)> = Vec::new();
        m.push((String::from_str("data"), c));
        proof {
            lemma_pairs_model_index(m@);
            assert(pairs_model(m@) =~= seq![("data"@, cv)]);
        }
        CanonicalValue::Object(m)
    } else {
        c
    }
}

// ---------------------------------------------------------------------------
// TOML readiness
// ---------------------------------------------------------------------------

/// The value with every null replaced by the empty string: TOML has no
/// null, and this library's documented policy is the lossy substitution.
pub open spec fn toml_ready(v: Val) -> Val
    decreases v,
{
    match v {
        Val::Null => Val::Str(Seq::empty()),
        Val::Arr(a) => Val::Arr(toml_ready_elems(a)),
        Val::Obj(m) => Val::Obj(toml_ready_pairs(m)),
        _ => v,
    }
}

pub open spec fn toml_ready_elems(a: Seq<Val>) -> Seq<Val>
    decreases a,
{
    if a.len() == 0 {
        Seq::empty()
    } else {
        toml_ready_elems(a.drop_last()).push(toml_ready(a.last()))
    }
}

pub open spec fn toml_ready_pairs(m: Seq<(Seq<char>, Val)>) -> Seq<(Seq<char>, Val)>
    decreases m,
{
    if m.len() == 0 {
        Seq::empty()
    } else {
        toml_ready_pairs(m.drop_last()).push((m.last().0, toml_ready(m.last().1)))
    }
}

pub broadcast proof fn lemma_toml_ready_elems_index(a: Seq<Val>)
    ensures
        (#[trigger] toml_ready_elems(a)).len() == a.len(),
        forall|i: int| 0 <= i < a.len() ==> toml_ready_elems(a)[i] == toml_ready(a[i]),
    decreases a,
{
    if a.len() == 0 {
        assert(toml_ready_elems(a).len() == 0);
    } else {
        lemma_toml_ready_elems_index(a.drop_last());
        assert(toml_ready_elems(a) == toml_ready_elems(a.drop_last()).push(toml_ready(a.last())));
        assert(forall|i: int|
            0 <= i < a.len() - 1 ==> toml_ready_elems(a)[i] == toml_ready_elems(a.drop_last())[i]);
        assert(forall|i: int| 0 <= i < a.len() - 1 ==> a.drop_last()[i] == a[i]);
    }
}

pub broadcast proof fn lemma_toml_ready_pairs_index(m: Seq<(Seq<char>, Val)>)
    ensures
        (#[trigger] toml_ready_pairs(m)).len() == m.len(),
        forall|i: int|
            0 <= i < m.len() ==> toml_ready_pairs(m)[i] == (m[i].0, toml_ready(m[i].1)),
    decreases m,
{
    if m.len() == 0 {
        assert(toml_ready_pairs(m).len() == 0);
    } else {
        lemma_toml_ready_pairs_index(m.drop_last());
        assert(toml_ready_pairs(m) == toml_ready_pairs(m.drop_last()).push(
            (m.last().0, toml_ready(m.last().1)),
        ));
        assert(forall|i: int|
            0 <= i < m.len() - 1 ==> toml_ready_pairs(m)[i] == toml_ready_pairs(m.drop_last())[i]);
        assert(forall|i: int| 0 <= i < m.len() - 1 ==> m.drop_last()[i] == m[i]);
    }
}

/// `toml_ready` keeps well-formedness and shape, removes every null, and
/// keeps float texts within the finite 64-bit range when they were there.
pub proof fn lemma_toml_ready_wf(v: Val)
    requires
        val_wf(v),
    ensures
        val_wf(toml_ready(v)),
        val_no_null(toml_ready(v)),
        (toml_ready(v) is Obj) == (v is Obj),
        val_floats_f64(v) ==> val_floats_f64(toml_ready(v)),
    decreases v,
{
    match v {
        Val::Arr(a) => {
            lemma_toml_ready_elems_index(a);
            assert forall|i: int| 0 <= i < a.len() implies val_wf(#[trigger] toml_ready_elems(a)[i])
                && val_no_null(toml_ready_elems(a)[i]) && (val_floats_f64(v) ==> val_floats_f64(
                toml_ready_elems(a)[i],
            )) by {
                assert(val_normal(a[i]) && val_num_texts(a[i]));
                if val_floats_f64(v) {
                    assert(val_floats_f64(a[i]));
                }
                lemma_toml_ready_wf(a[i]);
            }
        },
        Val::Obj(m) => {
            lemma_toml_ready_pairs_index(m);
            let res = toml_ready_pairs(m);
            assert forall|i: int| 0 <= i < m.len() implies val_wf((#[trigger] res[i]).1)
                && val_no_null(res[i].1) && (val_floats_f64(v) ==> val_floats_f64(res[i].1)) by {
                assert(val_normal(m[i].1) && val_num_texts(m[i].1));
                if val_floats_f64(v) {
                    assert(val_floats_f64(m[i].1));
                }
                lemma_toml_ready_wf(m[i].1);
            }
            assert(strictly_sorted_keys(res)) by {
                assert(forall|i: int| 0 <= i < m.len() ==> (#[trigger] res[i]).0 == m[i].0);
            }
        },
        _ => {},
    }
}

/// `toml_ready` never deepens a value: nulls become strings in place.
pub proof fn lemma_toml_ready_depth(v: Val, d: int)
    requires
        crate::outside::val_depth_le(v, d),
    ensures
        crate::outside::val_depth_le(toml_ready(v), d),
    decreases d,
{
    if d <= 0 {
    } else {
        match v {
            Val::Arr(a) => {
                lemma_toml_ready_elems_index(a);
                assert forall|i: int| 0 <= i < a.len() implies crate::outside::val_depth_le(
                    #[trigger] toml_ready_elems(a)[i],
                    d - 1,
                ) by {
                    lemma_toml_ready_depth(a[i], d - 1);
                }
            },
            Val::Obj(m) => {
                lemma_toml_ready_pairs_index(m);
                assert forall|i: int| 0 <= i < m.len() implies crate::outside::val_depth_le(
                    (#[trigger] toml_ready_pairs(m)[i]).1,
                    d - 1,
                ) by {
                    lemma_toml_ready_depth(m[i].1, d - 1);
                }
            },
            _ => {},
        }
    }
}

/// Wrapping adds at most one level of nesting.
pub proof fn lemma_wrap_root_depth(v: Val, d: int)
    requires
        crate::outside::val_depth_le(v, d),
        0 <= d,
    ensures
        crate::outside::val_depth_le(wrap_root(v), d + 1),
{
    if v is Arr {
        let m = seq![("data"@, v)];
        assert(forall|i: int| 0 <= i < m.len() ==> (#[trigger] m[i]).1 == v);
    } else {
        crate::outside::lemma_val_depth_mono(v, d, d + 1);
    }
}

/// Replaces every null in the value by an empty string, the adaptation the
/// TOML writer needs.
pub fn toml_ready_value(v: &CanonicalValue) -> (r: CanonicalValue)
    requires
        val_wf(v@),
    ensures
        r@ == toml_ready(v@),
    decreases *v,
{
    match v {
        CanonicalValue::Null => CanonicalValue::Str(String::new()),
        CanonicalValue::Bool(b) => CanonicalValue::Bool(*b),
        CanonicalValue::Int(i) => CanonicalValue::Int(*i),
        CanonicalValue::Float(s) => CanonicalValue::Float(s.clone()),
        CanonicalValue::Str(s) => CanonicalValue::Str(s.clone()),
        CanonicalValue::Array(a) => {
            let ghost am = elems_model(a@);
            proof {
                lemma_elems_model_index(a@);
                lemma_toml_ready_elems_index(am);
            }
            let mut out: Vec<CanonicalValue> = Vec::new();
            let mut i: usize = 0;
            while i < a.len()
                invariant
                    i <= a@.len(),
                    am == elems_model(a@),
                    val_wf(v@),
                    v@ == Val::Arr(am),
                    elems_model(out@) == toml_ready_elems(am.take(i as int)),
                decreases a@.len() - i,
            {
                proof {
                    lemma_elems_model_index(a@);
                    assert(val_normal(am[i as int]) && val_num_texts(am[i as int]));
                }
                let c = toml_ready_value(&a[i]);
                let ghost cg = c;
                let ghost out0 = out@;
                out.push(c);
                proof {
                    crate::value::lemma_elems_model_push(out0, cg);
                    lemma_toml_ready_elems_index(am.take(i + 1));
                    lemma_toml_ready_elems_index(am.take(i as int));
                    assert(elems_model(out@) =~= toml_ready_elems(am.take(i + 1)));
                }
                i += 1;
            }
            proof {
                assert(am.take(am.len() as int) =~= am);
            }
            CanonicalValue::Array(out)
        },
        CanonicalValue::Object(m) => {
            let ghost pm = pairs_model(m@);
            proof {
                lemma_pairs_model_index(m@);
                lemma_toml_ready_pairs_index(pm);
            }
            let mut out: Vec<(String, CanonicalValue)> = Vec::new();
            let mut i: usize = 0;
            while i < m.len()
                invariant
                    i <= m@.len(),
                    pm == pairs_model(m@),
                    val_wf(v@),
                    v@ == Val::Obj(pm),
                    pairs_model(out@) == toml_ready_pairs(pm.take(i as int)),
                decreases m@.len() - i,
            {
                proof {
                    lemma_pairs_model_index(m@);
                    assert(val_normal(pm[i as int].1) && val_num_texts(pm[i as int].1));
                }
                let k = m[i].0.clone();
                let c = toml_ready_value(&m[i].1);
                let ghost pg = (k, c);
                let ghost out0 = out@;
                out.push((k, c));
                proof {
                    crate::value::lemma_pairs_model_push(out0, pg);
                    lemma_toml_ready_pairs_index(pm.take(i + 1));
                    lemma_toml_ready_pairs_index(pm.take(i as int));
                    assert(pairs_model(out@) =~= toml_ready_pairs(pm.take(i + 1)));
                }
                i += 1;
            }
            proof {
                assert(pm.take(pm.len() as int) =~= pm);
            }
            CanonicalValue::Object(out)
        },
    }
}

} // verus!
