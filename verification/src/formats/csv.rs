//! CSV as the source format: type-inferring parse into records, and the
//! string-to-string conversions.

use vstd::prelude::*;
use crate::error::FormatError;
use crate::formats::json::canonical_to_toml_string;
use crate::formats::utils::headers_fold;
use crate::formats::utils::lemma_toml_ready_depth;
use crate::formats::utils::lemma_wrap_root_depth;
use crate::formats::utils::key_insert;
use crate::formats::utils::keys_union;
use crate::formats::utils::toml_ready;
use crate::formats::utils::wrap_root;
use crate::outside::csv_rows_of;
use crate::outside::f64_text;
use crate::outside::float_text_of;
use crate::outside::float_value_text;
use crate::outside::json_of_canon;
use crate::outside::json_pretty_of;
use crate::outside::json_pretty_string;
use crate::outside::lemma_obj_insert_wf;
use crate::outside::lemma_val_arr_unfold;
use crate::outside::lemma_val_obj_unfold;
use crate::outside::read_csv_rows;
use crate::outside::toml_text_of;
use crate::outside::val_floats_f64;
use crate::outside::val_floats_stable;
use crate::outside::val_wf;
use crate::outside::yaml_string_of_value;
use crate::outside::yaml_text_of;
use crate::strutil::first_nonblank_comma;
use crate::strutil::first_nonblank_comma_spec;
use crate::strutil::lower_seq;
use crate::strutil::lower_char;
use crate::strutil::parse_i64;
use crate::strutil::parse_i64_spec;
use crate::strutil::eq_ignore_ascii_case;
use crate::value::elems_model;
use crate::value::lemma_elems_model_index;
use crate::value::obj_insert;
use crate::value::obj_lookup;
use crate::value::object_get;
use crate::value::object_insert;
use crate::value::pairs_model;
use crate::value::strictly_sorted_keys;
use crate::value::CanonicalValue;
use crate::value::Val;

verus! {

// ---------------------------------------------------------------------------
// Type inference
// ---------------------------------------------------------------------------

/// The inference rule for one CSV field, in its strict order: empty is
/// null, a case-insensitive boolean word is a boolean, a 64-bit integer is
/// an integer, a finite float is a float, anything else stays text.
pub open spec fn infer_spec(s: Seq<char>) -> Val {
    if s.len() == 0 {
        Val::Null
    } else if lower_seq(s) == "true"@ {
        Val::Bool(true)
    } else if lower_seq(s) == "false"@ {
        Val::Bool(false)
    } else if parse_i64_spec(s) is Some {
        Val::Int(parse_i64_spec(s)->0 as int)
    } else if float_text_of(s) is Some {
        Val::Float(float_text_of(s)->0)
    } else {
        Val::Str(s)
    }
}

proof fn lemma_lower_bool_lits()
    ensures
        lower_seq("true"@) == "true"@,
        lower_seq("false"@) == "false"@,
        "true"@.len() == 4,
        "false"@.len() == 5,
        "true"@[0] == 't',
        "false"@[0] == 'f',
{
    reveal_strlit("true");
    reveal_strlit("false");
    assert(lower_seq("true"@) =~= "true"@) by {
        assert(forall|i: int|
            0 <= i < "true"@.len() ==> lower_seq("true"@)[i] == lower_char("true"@[i]));
    }
    assert(lower_seq("false"@) =~= "false"@) by {
        assert(forall|i: int|
            0 <= i < "false"@.len() ==> lower_seq("false"@)[i] == lower_char("false"@[i]));
    }
}

/// Inference never yields a nested value.
pub proof fn lemma_infer_scalar(x: Seq<char>)
    ensures
        !(infer_spec(x) is Arr),
        !(infer_spec(x) is Obj),
{
}

/// Infers the canonical value of one field's raw text.
pub fn infer_type(value: &str) -> (r: CanonicalValue)
    ensures
        r@ == infer_spec(value@),
        val_wf(r@),
        val_floats_f64(r@),
        val_floats_stable(r@),
{
    proof {
        lemma_lower_bool_lits();
    }
    if value.is_empty() {
        return CanonicalValue::Null;
    }
    if eq_ignore_ascii_case(value, "true") {
        return CanonicalValue::Bool(true);
    }
    if eq_ignore_ascii_case(value, "false") {
        return CanonicalValue::Bool(false);
    }
    match parse_i64(value) {
        Some(i) => {
            return CanonicalValue::Int(i);
        },
        None => {},
    }
    match float_value_text(value) {
        Some(t) => {
            proof {
                assert(float_text_of(value@) == Some(t@));
                assert(f64_text(t@));
            }
            return CanonicalValue::Float(t);
        },
        None => {},
    }
    let mut s = String::new();
    s.append(value);
    proof {
        assert(s@ =~= value@);
    }
    CanonicalValue::Str(s)
}

// ---------------------------------------------------------------------------
// Parsing rows into records
// ---------------------------------------------------------------------------

/// One record built from the header and a data row: each field's inferred
/// value under its header key, later duplicates of a key winning.
pub open spec fn build_record(
    acc: Seq<(Seq<char>, Val)>,
    header: Seq<Seq<char>>,
    fields: Seq<Seq<char>>,
) -> Seq<(Seq<char>, Val)>
    decreases fields.len(),
{
    if fields.len() == 0 || header.len() == 0 {
        acc
    } else {
        build_record(
            obj_insert(acc, header[0], infer_spec(fields[0])),
            header.skip(1),
            fields.skip(1),
        )
    }
}

pub open spec fn record_val(header: Seq<Seq<char>>, fields: Seq<Seq<char>>) -> Val {
    Val::Obj(build_record(Seq::empty(), header, fields))
}

/// The records of a row table: the first row is the header, every further
/// row becomes one object.
pub open spec fn csv_records_spec(rows: Seq<Seq<Seq<char>>>) -> Seq<Val> {
    if rows.len() == 0 {
        Seq::empty()
    } else {
        rows.skip(1).map_values(|row: Seq<Seq<char>>| record_val(rows[0], row))
    }
}

/// Parsed records are flat: one level of keys over scalar values.
pub proof fn lemma_records_depth(rows: Seq<Seq<Seq<char>>>)
    ensures
        crate::outside::val_depth_le(Val::Arr(csv_records_spec(rows)), 3),
{
    let recs = csv_records_spec(rows);
    assert forall|t: int| 0 <= t < recs.len() implies crate::outside::val_depth_le(
        #[trigger] recs[t],
        2,
    ) by {
        assert(recs[t] == record_val(rows[0], rows.skip(1)[t]));
        let m = build_record(Seq::<(Seq<char>, Val)>::empty(), rows[0], rows.skip(1)[t]);
        lemma_build_record_values(Seq::<(Seq<char>, Val)>::empty(), rows[0], rows.skip(1)[t]);
        assert forall|j: int| 0 <= j < m.len() implies crate::outside::val_depth_le(
            (#[trigger] m[j]).1,
            1,
        ) by {
            let x = choose|x: int|
                0 <= x < rows.skip(1)[t].len() && m[j].1 == infer_spec(
                    #[trigger] rows.skip(1)[t][x],
                );
            lemma_infer_scalar(rows.skip(1)[t][x]);
        }
    }
}

/// The inputs the CSV parse accepts: a non-blank line exists, the first
/// one holds a comma, and the reader accepts the rows.
pub open spec fn csv_parse_ok(input: Seq<char>) -> bool {
    first_nonblank_comma_spec(input) == Some(true) && csv_rows_of(input) is Some
}

pub open spec fn csv_records_of(input: Seq<char>) -> Seq<Val> {
    csv_records_spec(csv_rows_of(input)->0)
}

/// The error that a rejected CSV input carries.
pub open spec fn csv_parse_err_post(input: Seq<char>, e: FormatError) -> bool {
    &&& (first_nonblank_comma_spec(input) is None ==> (e matches FormatError::ParseError(m)
        && m@ == "CSV input is empty"@))
    &&& (first_nonblank_comma_spec(input) == Some(false) ==> (e matches FormatError::ParseError(m)
        && m@
        == "Invalid CSV format: First line contains no commas. CSV should contain comma-separated values, e.g.: name,age,city"@))
    &&& (first_nonblank_comma_spec(input) == Some(true) ==> (e matches FormatError::ParseError(m)
        && m@ == "Error reading CSV record: "@ + crate::outside::csv_read_err_of(input)))
}

/// Parses CSV text into its records: the documented pre-checks first, then
/// the reader, then per-field inference under the header keys.
pub fn parse_csv_records(input: &str) -> (r: Result<Vec<CanonicalValue>, FormatError>)
    ensures
        r is Ok <==> csv_parse_ok(input@),
        r matches Ok(recs) ==> elems_model(recs@) == csv_records_of(input@) && val_wf(
            Val::Arr(elems_model(recs@)),
        ) && val_floats_f64(Val::Arr(elems_model(recs@))) && val_floats_stable(
            Val::Arr(elems_model(recs@)),
        ),
        r is Ok ==> (forall|t: int|
            0 <= t < csv_rows_of(input@)->0.len() ==> (#[trigger] csv_rows_of(input@)->0[t]).len()
                == csv_rows_of(input@)->0[0].len()),
        r matches Err(e) ==> csv_parse_err_post(input@, e),
{
    match first_nonblank_comma(input) {
        None => {
            return Err(FormatError::ParseError(String::from_str("CSV input is empty")));
        },
        Some(false) => {
            return Err(
                FormatError::ParseError(
                    String::from_str(
                        "Invalid CSV format: First line contains no commas. CSV should contain comma-separated values, e.g.: name,age,city",
                    ),
                ),
            );
        },
        Some(true) => {},
    }
    let rows = match read_csv_rows(input) {
        Ok(rows) => rows,
        Err(e) => {
            let mut m = String::from_str("Error reading CSV record: ");
            m.append(e.as_str());
            return Err(FormatError::ParseError(m));
        },
    };
    let ghost rm = rows.deep_view();
    let mut records: Vec<CanonicalValue> = Vec::new();
    if rows.len() == 0 {
        proof {
            assert(elems_model(records@) =~= csv_records_of(input@));
            lemma_val_arr_unfold(elems_model(records@));
        }
        return Ok(records);
    }
    let mut i: usize = 1;
    while i < rows.len()
        invariant
            1 <= i <= rows@.len(),
            rm == rows.deep_view(),
            rm.len() == rows@.len(),
            csv_rows_of(input@) == Some(rm),
            records@.len() == i - 1,
            forall|t: int|
                0 <= t < i - 1 ==> (#[trigger] records@[t])@ == record_val(rm[0], rm[t + 1]),
            forall|t: int|
                0 <= t < i - 1 ==> val_wf((#[trigger] records@[t])@) && val_floats_f64(
                    records@[t]@,
                ) && val_floats_stable(records@[t]@),
        decreases rows@.len() - i,
    {
        let ghost hm = rm[0];
        let ghost fm = rm[i as int];
        let hlen = rows[0].len();
        let flen = rows[i].len();
        let n: usize = if hlen < flen {
            hlen
        } else {
            flen
        };
        proof {
            assert(hm.len() == rows@[0]@.len());
            assert(fm.len() == rows@[i as int]@.len());
            assert(hm.skip(0) =~= hm);
            assert(fm.skip(0) =~= fm);
        }
        let mut obj: Vec<(String, CanonicalValue)> = Vec::new();
        let mut j: usize = 0;
        proof {
            lemma_val_obj_unfold(pairs_model(obj@));
            assert(pairs_model(obj@) =~= Seq::<(Seq<char>, Val)>::empty());
        }
        while j < n
            invariant
                0 <= j <= n,
                n == if hm.len() < fm.len() {
                    hm.len()
                } else {
                    fm.len()
                },
                i < rows@.len(),
                rm == rows.deep_view(),
                rm.len() == rows@.len(),
                hm == rm[0],
                fm == rm[i as int],
                hm.len() == rows@[0]@.len(),
                fm.len() == rows@[i as int]@.len(),
                build_record(Seq::empty(), hm, fm) == build_record(
                    pairs_model(obj@),
                    hm.skip(j as int),
                    fm.skip(j as int),
                ),
                val_wf(Val::Obj(pairs_model(obj@))),
                val_floats_f64(Val::Obj(pairs_model(obj@))),
                val_floats_stable(Val::Obj(pairs_model(obj@))),
            decreases n - j,
        {
            let key = rows[0][j].clone();
            let cv = infer_type(rows[i][j].as_str());
            let ghost pm0 = pairs_model(obj@);
            let ghost cvg = cv@;
            proof {
                assert(key@ == rows@[0]@[j as int]@);
                assert(hm[j as int] == rows@[0]@[j as int]@);
                assert(fm[j as int] == rows@[i as int]@[j as int]@);
                assert(hm.skip(j as int)[0] == hm[j as int]);
                assert(fm.skip(j as int)[0] == fm[j as int]);
                assert(hm.skip(j as int).skip(1) =~= hm.skip(j + 1));
                assert(fm.skip(j as int).skip(1) =~= fm.skip(j + 1));
                lemma_obj_insert_wf(pm0, key@, cvg);
            }
            obj = object_insert(obj, key, cv);
            j += 1;
        }
        proof {
            if hm.len() < fm.len() {
                assert(hm.skip(n as int).len() == 0);
            } else {
                assert(fm.skip(n as int).len() == 0);
            }
            assert(build_record(Seq::empty(), hm, fm) == pairs_model(obj@));
        }
        let rec = CanonicalValue::Object(obj);
        records.push(rec);
        i += 1;
    }
    proof {
        lemma_elems_model_index(records@);
        assert(elems_model(records@) =~= csv_records_of(input@)) by {
            assert(csv_records_of(input@).len() == rm.skip(1).len());
            assert(forall|t: int|
                0 <= t < rm.len() - 1 ==> #[trigger] csv_records_of(input@)[t] == record_val(
                    rm[0],
                    rm.skip(1)[t],
                ));
            assert(forall|t: int| 0 <= t < rm.len() - 1 ==> rm.skip(1)[t] == rm[t + 1]);
        }
        lemma_val_arr_unfold(elems_model(records@));
        assert(forall|t: int|
            0 <= t < records@.len() ==> elems_model(records@)[t] == (#[trigger] records@[t])@);
    }
    Ok(records)
}

// ---------------------------------------------------------------------------
// Conversions out of CSV
// ---------------------------------------------------------------------------

/// What converting CSV text to JSON returns: an array of one object per
/// data row, with inferred field types, pretty-printed.
pub open spec fn csv_to_json_post(input: Seq<char>, r: Result<String, FormatError>) -> bool {
    &&& (r is Ok <==> csv_parse_ok(input))
    &&& (r matches Ok(s) ==> s@ == json_pretty_of(Val::Arr(csv_records_of(input)))
        && crate::outside::json_doc_of(s@) == Some(Val::Arr(csv_records_of(input))))
    &&& (r matches Err(e) ==> csv_parse_err_post(input, e))
}

/// Converts CSV text to a pretty JSON array of records.
pub fn csv_to_json_string(input: &str) -> (r: Result<String, FormatError>)
    ensures
        csv_to_json_post(input@, r),
{
    let records = match parse_csv_records(input) {
        Ok(records) => records,
        Err(e) => {
            return Err(e);
        },
    };
    let arr = CanonicalValue::Array(records);
    proof {
        lemma_records_depth(csv_rows_of(input@)->0);
        crate::outside::lemma_val_depth_mono(arr@, 3, 4);
    }
    let v = json_of_canon(&arr);
    match json_pretty_string(&v) {
        Ok(s) => Ok(s),
        Err(e) => Err(FormatError::SerializationError(e)),
    }
}

/// What converting CSV text to YAML returns.
pub open spec fn csv_to_yaml_post(input: Seq<char>, r: Result<String, FormatError>) -> bool {
    &&& (r is Ok <==> csv_parse_ok(input))
    &&& (r matches Ok(s) ==> s@ == yaml_text_of(Val::Arr(csv_records_of(input))) && (
    crate::outside::val_yaml_clean(Val::Arr(csv_records_of(input)))
        ==> crate::outside::yaml_doc_of(s@) == Some(Val::Arr(csv_records_of(input)))))
    &&& (r matches Err(e) ==> csv_parse_err_post(input, e))
}

/// Converts CSV text to a YAML sequence of records.
pub fn csv_to_yaml_string(input: &str) -> (r: Result<String, FormatError>)
    ensures
        csv_to_yaml_post(input@, r),
{
    let records = match parse_csv_records(input) {
        Ok(records) => records,
        Err(e) => {
            return Err(e);
        },
    };
    let arr = CanonicalValue::Array(records);
    proof {
        lemma_records_depth(csv_rows_of(input@)->0);
        crate::outside::lemma_val_depth_mono(arr@, 3, 4);
    }
    let v = json_of_canon(&arr);
    match yaml_string_of_value(&v) {
        Ok(s) => Ok(s),
        Err(e) => Err(FormatError::SerializationError(e)),
    }
}

/// What converting CSV text to TOML returns: the records wrapped under the
/// reserved key, since TOML needs a table at the root; inferred floats are
/// finite, so the output is exactly the TOML text of that document.
pub open spec fn csv_to_toml_post(input: Seq<char>, r: Result<String, FormatError>) -> bool {
    &&& (r is Ok <==> csv_parse_ok(input))
    &&& (r matches Ok(s) ==> {
        let w = toml_ready(wrap_root(Val::Arr(csv_records_of(input))));
        s@ == toml_text_of(w) && crate::outside::toml_doc_of(s@) == Some(w)
            && crate::outside::toml_canon_text(s@) == s@
    })
    &&& (r matches Err(e) ==> csv_parse_err_post(input, e))
}

/// Converts CSV text to TOML, the record array wrapped under the reserved
/// key.
pub fn csv_to_toml_string(input: &str) -> (r: Result<String, FormatError>)
    ensures
        csv_to_toml_post(input@, r),
{
    let records = match parse_csv_records(input) {
        Ok(records) => records,
        Err(e) => {
            return Err(e);
        },
    };
    let arr = CanonicalValue::Array(records);
    proof {
        lemma_records_depth(csv_rows_of(input@)->0);
        lemma_wrap_root_depth(arr@, 3);
        lemma_toml_ready_depth(wrap_root(arr@), 4);
    }
    match canonical_to_toml_string(arr) {
        Ok(s) => Ok(s),
        Err(e) => {
            proof {
                assert(false);
            }
            Err(e)
        },
    }
}

// ---------------------------------------------------------------------------
// CSV to CSV
// ---------------------------------------------------------------------------

pub open spec fn obj_pairs(v: Val) -> Seq<(Seq<char>, Val)> {
    match v {
        Val::Obj(m) => m,
        _ => Seq::empty(),
    }
}

/// What re-serializing CSV text returns: the records re-export through the
/// same flatten, leaf-render and sorted-union-header pipeline as every
/// other CSV target, so every scalar re-renders in its natural text form.
pub open spec fn csv_to_csv_post(input: Seq<char>, r: Result<String, FormatError>) -> bool {
    &&& (!csv_parse_ok(input) ==> (r matches Err(e) && csv_parse_err_post(input, e)))
    &&& (csv_parse_ok(input) ==> crate::formats::utils::csv_out_post(csv_records_of(input), r))
    &&& (csv_parse_ok(input) ==> val_floats_stable(Val::Arr(csv_records_of(input))))
    &&& (csv_parse_ok(input) ==> (forall|t: int|
        0 <= t < csv_rows_of(input)->0.len() ==> (#[trigger] csv_rows_of(input)->0[t]).len()
            == csv_rows_of(input)->0[0].len()))
}

/// Re-serializes CSV text: each record is flattened and re-rendered, the
/// header is the sorted union of all keys, and missing keys render empty.
pub fn csv_to_csv_string(input: &str) -> (r: Result<String, FormatError>)
    ensures
        csv_to_csv_post(input@, r),
{
    let records = match parse_csv_records(input) {
        Ok(records) => records,
        Err(e) => {
            return Err(e);
        },
    };
    crate::formats::utils::values_to_csv_text(&records)
}

// ---------------------------------------------------------------------------
// Dot-notation records
// ---------------------------------------------------------------------------

/// Insertion under a compound dot-notation key: `a.b` nests the value
/// inside the object under `a`, creating it when absent. Where a non-object
/// value already sits on the path, the insertion is dropped.
pub open spec fn insert_nested(m: Seq<(Seq<char>, Val)>, k: Seq<char>, v: Val) -> Seq<
    (Seq<char>, Val),
>
    decreases k.len(),
    via insert_nested_decreases
{
    let d = crate::strutil::first_pos(k, '.');
    if d >= k.len() {
        obj_insert(m, k, v)
    } else {
        let first = k.take(d);
        let rest = k.skip(d + 1);
        match obj_lookup(m, first) {
            None => obj_insert(
                m,
                first,
                Val::Obj(insert_nested(Seq::<(Seq<char>, Val)>::empty(), rest, v)),
            ),
            Some(w) => match w {
                Val::Obj(mm) => obj_insert(m, first, Val::Obj(insert_nested(mm, rest, v))),
                _ => m,
            },
        }
    }
}

#[via_fn]
proof fn insert_nested_decreases(m: Seq<(Seq<char>, Val)>, k: Seq<char>, v: Val) {
    crate::strutil::lemma_first_pos_bounds(k, '.');
}

/// Nested insertion keeps well-formedness and the finite-float property.
pub proof fn lemma_insert_nested_wf(m: Seq<(Seq<char>, Val)>, k: Seq<char>, v: Val)
    requires
        val_wf(Val::Obj(m)),
        val_floats_f64(Val::Obj(m)),
        val_wf(v),
        val_floats_f64(v),
    ensures
        val_wf(Val::Obj(insert_nested(m, k, v))),
        val_floats_f64(Val::Obj(insert_nested(m, k, v))),
    decreases k.len(),
{
    crate::strutil::lemma_first_pos_bounds(k, '.');
    let d = crate::strutil::first_pos(k, '.');
    if d >= k.len() {
        lemma_obj_insert_wf(m, k, v);
    } else {
        let first = k.take(d);
        let rest = k.skip(d + 1);
        match obj_lookup(m, first) {
            None => {
                let em = Seq::<(Seq<char>, Val)>::empty();
                lemma_val_obj_unfold(em);
                lemma_insert_nested_wf(em, rest, v);
                lemma_obj_insert_wf(m, first, Val::Obj(insert_nested(em, rest, v)));
            },
            Some(w) => {
                crate::outside::lemma_obj_lookup_wf(m, first);
                match w {
                    Val::Obj(mm) => {
                        lemma_insert_nested_wf(mm, rest, v);
                        lemma_obj_insert_wf(m, first, Val::Obj(insert_nested(mm, rest, v)));
                    },
                    _ => {},
                }
            },
        }
    }
}

/// Inserts a value under a compound dot-notation key, mirroring
/// `insert_nested`.
pub fn insert_nested_value(
    m: Vec<(String, CanonicalValue)>,
    key: &str,
    value: CanonicalValue,
) -> (r: Vec<(String, CanonicalValue)>)
    ensures
        pairs_model(r@) == insert_nested(pairs_model(m@), key@, value@),
    decreases key@.len(),
{
    proof {
        crate::strutil::lemma_first_pos_bounds(key@, '.');
    }
    let n = key.unicode_len();
    let d = crate::strutil::find_char(key, '.');
    if d >= n {
        let mut ks = String::new();
        ks.append(key);
        proof {
            assert(ks@ =~= key@);
        }
        object_insert(m, ks, value)
    } else {
        let first = key.substring_char(0, d);
        let rest = key.substring_char(d + 1, n);
        proof {
            assert(first@ =~= key@.take(d as int));
            assert(rest@ =~= key@.skip(d + 1));
        }
        let nested: Option<Vec<(String, CanonicalValue)>> = match object_get(&m, first) {
            None => Some(Vec::new()),
            Some(c) => {
                let cc = c.deep_copy();
                match cc {
                    CanonicalValue::Object(vv) => Some(vv),
                    _ => None,
                }
            },
        };
        match nested {
            None => m,
            Some(vv) => {
                let inner = insert_nested_value(vv, rest, value);
                let mut fs = String::new();
                fs.append(first);
                proof {
                    assert(fs@ =~= first@);
                }
                object_insert(m, fs, CanonicalValue::Object(inner))
            },
        }
    }
}

/// One record built with dot-notation nesting.
pub open spec fn build_nested(
    acc: Seq<(Seq<char>, Val)>,
    header: Seq<Seq<char>>,
    fields: Seq<Seq<char>>,
) -> Seq<(Seq<char>, Val)>
    decreases fields.len(),
{
    if fields.len() == 0 || header.len() == 0 {
        acc
    } else {
        build_nested(
            insert_nested(acc, header[0], infer_spec(fields[0])),
            header.skip(1),
            fields.skip(1),
        )
    }
}

pub open spec fn nested_record_val(header: Seq<Seq<char>>, fields: Seq<Seq<char>>) -> Val {
    Val::Obj(build_nested(Seq::empty(), header, fields))
}

pub open spec fn csv_nested_records_spec(rows: Seq<Seq<Seq<char>>>) -> Seq<Val> {
    if rows.len() == 0 {
        Seq::empty()
    } else {
        rows.skip(1).map_values(|row: Seq<Seq<char>>| nested_record_val(rows[0], row))
    }
}

/// Parses CSV text into records with dot-notation nesting: a header
/// `contact.email` builds an object under `contact`.
pub fn parse_csv_records_nested(input: &str) -> (r: Result<Vec<CanonicalValue>, FormatError>)
    ensures
        r is Ok <==> csv_rows_of(input@) is Some,
        r matches Ok(recs) ==> elems_model(recs@) == csv_nested_records_spec(
            csv_rows_of(input@)->0,
        ) && val_wf(Val::Arr(elems_model(recs@))),
        r matches Err(e) ==> e is ParseError,
{
    let rows = match read_csv_rows(input) {
        Ok(rows) => rows,
        Err(e) => {
            let mut m = String::from_str("Error reading CSV record: ");
            m.append(e.as_str());
            return Err(FormatError::ParseError(m));
        },
    };
    let ghost rm = rows.deep_view();
    let mut records: Vec<CanonicalValue> = Vec::new();
    if rows.len() == 0 {
        proof {
            assert(elems_model(records@) =~= csv_nested_records_spec(rm));
            lemma_val_arr_unfold(elems_model(records@));
        }
        return Ok(records);
    }
    let mut i: usize = 1;
    while i < rows.len()
        invariant
            1 <= i <= rows@.len(),
            rm == rows.deep_view(),
            rm.len() == rows@.len(),
            csv_rows_of(input@) == Some(rm),
            records@.len() == i - 1,
            forall|t: int|
                0 <= t < i - 1 ==> (#[trigger] records@[t])@ == nested_record_val(
                    rm[0],
                    rm[t + 1],
                ),
            forall|t: int| 0 <= t < i - 1 ==> val_wf((#[trigger] records@[t])@),
        decreases rows@.len() - i,
    {
        let ghost hm = rm[0];
        let ghost fm = rm[i as int];
        let hlen = rows[0].len();
        let flen = rows[i].len();
        let n: usize = if hlen < flen {
            hlen
        } else {
            flen
        };
        proof {
            assert(hm.len() == rows@[0]@.len());
            assert(fm.len() == rows@[i as int]@.len());
            assert(hm.skip(0) =~= hm);
            assert(fm.skip(0) =~= fm);
        }
        let mut obj: Vec<(String, CanonicalValue)> = Vec::new();
        let mut j: usize = 0;
        proof {
            lemma_val_obj_unfold(pairs_model(obj@));
            assert(pairs_model(obj@) =~= Seq::<(Seq<char>, Val)>::empty());
        }
        while j < n
            invariant
                0 <= j <= n,
                n == if hm.len() < fm.len() {
                    hm.len()
                } else {
                    fm.len()
                },
                i < rows@.len(),
                rm == rows.deep_view(),
                rm.len() == rows@.len(),
                hm == rm[0],
                fm == rm[i as int],
                hm.len() == rows@[0]@.len(),
                fm.len() == rows@[i as int]@.len(),
                build_nested(Seq::empty(), hm, fm) == build_nested(
                    pairs_model(obj@),
                    hm.skip(j as int),
                    fm.skip(j as int),
                ),
                val_wf(Val::Obj(pairs_model(obj@))),
                val_floats_f64(Val::Obj(pairs_model(obj@))),
            decreases n - j,
        {
            let cv = infer_type(rows[i][j].as_str());
            let ghost pm0 = pairs_model(obj@);
            let ghost cvg = cv@;
            proof {
                assert(rows@[0]@[j as int]@ == hm[j as int]);
                assert(fm[j as int] == rows@[i as int]@[j as int]@);
                assert(hm.skip(j as int)[0] == hm[j as int]);
                assert(fm.skip(j as int)[0] == fm[j as int]);
                assert(hm.skip(j as int).skip(1) =~= hm.skip(j + 1));
                assert(fm.skip(j as int).skip(1) =~= fm.skip(j + 1));
                lemma_insert_nested_wf(pm0, hm[j as int], cvg);
            }
            obj = insert_nested_value(obj, rows[0][j].as_str(), cv);
            j += 1;
        }
        proof {
            if hm.len() < fm.len() {
                assert(hm.skip(n as int).len() == 0);
            } else {
                assert(fm.skip(n as int).len() == 0);
            }
            assert(build_nested(Seq::empty(), hm, fm) == pairs_model(obj@));
        }
        let rec = CanonicalValue::Object(obj);
        records.push(rec);
        i += 1;
    }
    proof {
        lemma_elems_model_index(records@);
        assert(elems_model(records@) =~= csv_nested_records_spec(rm)) by {
            assert(csv_nested_records_spec(rm).len() == rm.skip(1).len());
            assert(forall|t: int|
                0 <= t < rm.len() - 1 ==> #[trigger] csv_nested_records_spec(rm)[t]
                    == nested_record_val(rm[0], rm.skip(1)[t]));
            assert(forall|t: int| 0 <= t < rm.len() - 1 ==> rm.skip(1)[t] == rm[t + 1]);
        }
        lemma_val_arr_unfold(elems_model(records@));
    }
    Ok(records)
}

/// Converts CSV text with dot-notation headers to a pretty JSON array of
/// nested records.
pub fn csv_to_json_nested_string(input: &str) -> (r: Result<String, FormatError>)
    ensures
        r is Ok <==> csv_rows_of(input@) is Some,
        r matches Ok(s) ==> s@ == json_pretty_of(
            Val::Arr(csv_nested_records_spec(csv_rows_of(input@)->0)),
        ),
        r matches Err(e) ==> e is ParseError,
{
    let records = match parse_csv_records_nested(input) {
        Ok(records) => records,
        Err(e) => {
            return Err(e);
        },
    };
    let arr = CanonicalValue::Array(records);
    let v = json_of_canon(&arr);
    match json_pretty_string(&v) {
        Ok(s) => Ok(s),
        Err(e) => Err(FormatError::SerializationError(e)),
    }
}

// ---------------------------------------------------------------------------
// Facts about record building, for the idempotence law
// ---------------------------------------------------------------------------

/// The record a strictly ascending header gives: key by key, in order.
pub open spec fn zip_record(hs: Seq<Seq<char>>, fields: Seq<Seq<char>>) -> Seq<(Seq<char>, Val)> {
    Seq::new(hs.len(), |i: int| (hs[i], infer_spec(fields[i])))
}

pub open spec fn strictly_sorted_list(hs: Seq<Seq<char>>) -> bool {
    forall|i: int, j: int|
        0 <= i < j < hs.len() ==> crate::strutil::lex_lt(#[trigger] hs[i], #[trigger] hs[j])
}

/// Over a strictly ascending header of the row's width, building a record
/// appends pair after pair: the result is the zip.
pub proof fn lemma_build_record_sorted(
    acc: Seq<(Seq<char>, Val)>,
    hs: Seq<Seq<char>>,
    fields: Seq<Seq<char>>,
)
    requires
        hs.len() == fields.len(),
        strictly_sorted_list(hs),
        forall|i: int, j: int|
            0 <= i < acc.len() && 0 <= j < hs.len() ==> crate::strutil::lex_lt(
                (#[trigger] acc[i]).0,
                #[trigger] hs[j],
            ),
    ensures
        build_record(acc, hs, fields) == acc + zip_record(hs, fields),
    decreases hs.len(),
{
    if hs.len() == 0 {
        assert(build_record(acc, hs, fields) =~= acc + zip_record(hs, fields));
    } else {
        let p = (hs[0], infer_spec(fields[0]));
        crate::value::lemma_obj_insert_append(acc, hs[0], infer_spec(fields[0]));
        let acc1 = acc.push(p);
        assert(forall|i: int| 0 <= i < hs.skip(1).len() ==> (#[trigger] hs.skip(1)[i]) == hs[i + 1]);
        assert(forall|i: int|
            0 <= i < fields.skip(1).len() ==> (#[trigger] fields.skip(1)[i]) == fields[i + 1]);
        assert(strictly_sorted_list(hs.skip(1)));
        assert(forall|i: int, j: int|
            0 <= i < acc1.len() && 0 <= j < hs.skip(1).len() ==> crate::strutil::lex_lt(
                (#[trigger] acc1[i]).0,
                #[trigger] hs.skip(1)[j],
            ));
        lemma_build_record_sorted(acc1, hs.skip(1), fields.skip(1));
        assert(build_record(acc, hs, fields) == acc1 + zip_record(hs.skip(1), fields.skip(1)));
        assert(acc1 + zip_record(hs.skip(1), fields.skip(1)) =~= acc + zip_record(hs, fields));
    }
}

/// Record building from a sorted accumulator keeps the keys sorted, and
/// every value is either an accumulator value or the inference of a field.
pub proof fn lemma_build_record_values(
    acc: Seq<(Seq<char>, Val)>,
    hs: Seq<Seq<char>>,
    fields: Seq<Seq<char>>,
)
    requires
        strictly_sorted_keys(acc),
    ensures
        strictly_sorted_keys(build_record(acc, hs, fields)),
        forall|i: int|
            0 <= i < build_record(acc, hs, fields).len() ==> (exists|j: int|
                0 <= j < acc.len() && (#[trigger] build_record(acc, hs, fields)[i]).1 == acc[j].1)
                || (exists|j: int|
                0 <= j < fields.len() && build_record(acc, hs, fields)[i].1 == infer_spec(
                    fields[j],
                )),
    decreases fields.len(),
{
    let res = build_record(acc, hs, fields);
    if fields.len() == 0 || hs.len() == 0 {
    } else {
        let v0 = infer_spec(fields[0]);
        crate::value::lemma_obj_insert_props(acc, hs[0], v0);
        let acc1 = obj_insert(acc, hs[0], v0);
        lemma_build_record_values(acc1, hs.skip(1), fields.skip(1));
        assert(forall|i: int|
            0 <= i < fields.skip(1).len() ==> (#[trigger] fields.skip(1)[i]) == fields[i + 1]);
        assert forall|i: int| 0 <= i < res.len() implies (exists|j: int|
            0 <= j < acc.len() && (#[trigger] res[i]).1 == acc[j].1) || (exists|j: int|
            0 <= j < fields.len() && res[i].1 == infer_spec(fields[j])) by {
            if exists|j: int| 0 <= j < acc1.len() && res[i].1 == (#[trigger] acc1[j]).1 {
                let j = choose|j: int| 0 <= j < acc1.len() && res[i].1 == (#[trigger] acc1[j]).1;
                if acc1[j] == (hs[0], v0) {
                    assert(res[i].1 == infer_spec(fields[0]));
                } else {
                    assert(acc.contains(acc1[j]));
                    let w = choose|w: int| 0 <= w < acc.len() && acc[w] == acc1[j];
                    assert(res[i].1 == acc[w].1);
                }
            } else {
                let j = choose|j: int|
                    0 <= j < fields.skip(1).len() && res[i].1 == infer_spec(
                        #[trigger] fields.skip(1)[j],
                    );
                assert(res[i].1 == infer_spec(fields[j + 1]));
            }
        }
    }
}

/// The key list of an object's pairs.
pub open spec fn obj_keys(m: Seq<(Seq<char>, Val)>) -> Seq<Seq<char>> {
    m.map_values(|p: (Seq<char>, Val)| p.0)
}

/// On a strictly ascending list, inserting a member changes nothing.
pub proof fn lemma_key_insert_member(h: Seq<Seq<char>>, k: Seq<char>)
    requires
        strictly_sorted_list(h),
        h.contains(k),
    ensures
        key_insert(h, k) == h,
    decreases h.len(),
{
    let i = choose|i: int| 0 <= i < h.len() && h[i] == k;
    assert(h.len() > 0);
    crate::strutil::lemma_lex_irreflexive(k);
    if k == h[0] {
    } else {
        assert(i > 0);
        assert(crate::strutil::lex_lt(h[0], k));
        crate::strutil::lemma_lex_asymmetric(h[0], k);
        assert(forall|q: int| 0 <= q < h.skip(1).len() ==> (#[trigger] h.skip(1)[q]) == h[q + 1]);
        assert(strictly_sorted_list(h.skip(1)));
        assert(h.skip(1).contains(k)) by {
            assert(h.skip(1)[i - 1] == k);
        }
        lemma_key_insert_member(h.skip(1), k);
        assert(key_insert(h, k) =~= h);
    }
}

/// Inserting a key above every member appends it.
pub proof fn lemma_key_insert_append(h: Seq<Seq<char>>, k: Seq<char>)
    requires
        forall|i: int| 0 <= i < h.len() ==> crate::strutil::lex_lt(#[trigger] h[i], k),
    ensures
        key_insert(h, k) == h.push(k),
    decreases h.len(),
{
    if h.len() == 0 {
        assert(key_insert(h, k) =~= h.push(k));
    } else {
        crate::strutil::lemma_lex_asymmetric(h[0], k);
        crate::strutil::lemma_lex_irreflexive(k);
        assert(forall|q: int| 0 <= q < h.skip(1).len() ==> (#[trigger] h.skip(1)[q]) == h[q + 1]);
        lemma_key_insert_append(h.skip(1), k);
        assert(key_insert(h, k) =~= h.push(k));
    }
}

/// Folding keys that are all members leaves the header list unchanged.
pub proof fn lemma_keys_union_members(h: Seq<Seq<char>>, rec: Seq<(Seq<char>, Seq<char>)>)
    requires
        strictly_sorted_list(h),
        forall|i: int| 0 <= i < rec.len() ==> h.contains((#[trigger] rec[i]).0),
    ensures
        keys_union(h, rec) == h,
    decreases rec.len(),
{
    if rec.len() > 0 {
        lemma_key_insert_member(h, rec[0].0);
        assert(forall|q: int|
            0 <= q < rec.skip(1).len() ==> (#[trigger] rec.skip(1)[q]) == rec[q + 1]);
        lemma_keys_union_members(h, rec.skip(1));
    }
}

/// Folding strictly ascending new keys appends them in order.
pub proof fn lemma_keys_union_ascending(h: Seq<Seq<char>>, rec: Seq<(Seq<char>, Seq<char>)>)
    requires
        strictly_sorted_list(h),
        forall|i: int, j: int|
            0 <= i < j < rec.len() ==> crate::strutil::lex_lt(
                (#[trigger] rec[i]).0,
                (#[trigger] rec[j]).0,
            ),
        forall|i: int, j: int|
            0 <= i < h.len() && 0 <= j < rec.len() ==> crate::strutil::lex_lt(
                #[trigger] h[i],
                (#[trigger] rec[j]).0,
            ),
    ensures
        keys_union(h, rec) == h + rec.map_values(|p: (Seq<char>, Seq<char>)| p.0),
    decreases rec.len(),
{
    if rec.len() == 0 {
        assert(keys_union(h, rec) =~= h + rec.map_values(|p: (Seq<char>, Seq<char>)| p.0));
    } else {
        lemma_key_insert_append(h, rec[0].0);
        let h1 = h.push(rec[0].0);
        assert(forall|q: int|
            0 <= q < rec.skip(1).len() ==> (#[trigger] rec.skip(1)[q]) == rec[q + 1]);
        assert(strictly_sorted_list(h1));
        lemma_keys_union_ascending(h1, rec.skip(1));
        assert(keys_union(h, rec) =~= h + rec.map_values(|p: (Seq<char>, Seq<char>)| p.0));
    }
}

/// Folding records whose keys are all members changes nothing.
pub proof fn lemma_headers_fold_same(h: Seq<Seq<char>>, flats: Seq<Seq<(Seq<char>, Seq<char>)>>)
    requires
        strictly_sorted_list(h),
        forall|t: int, i: int|
            0 <= t < flats.len() && 0 <= i < flats[t].len() ==> h.contains(
                (#[trigger] flats[t][i]).0,
            ),
    ensures
        headers_fold(h, flats) == h,
    decreases flats.len(),
{
    if flats.len() > 0 {
        lemma_keys_union_members(h, flats[0]);
        assert(forall|q: int|
            0 <= q < flats.skip(1).len() ==> (#[trigger] flats.skip(1)[q]) == flats[q + 1]);
        lemma_headers_fold_same(h, flats.skip(1));
    }
}

/// Flattening a sorted object with no nested objects under the empty
/// prefix yields its pairs with leaf-rendered values, in order.
pub proof fn lemma_flat_scalars(acc: Seq<(Seq<char>, Seq<char>)>, m: Seq<(Seq<char>, Val)>)
    requires
        forall|i: int| 0 <= i < m.len() ==> !((#[trigger] m[i]).1 is Obj),
        strictly_sorted_keys(m),
        forall|i: int, j: int|
            0 <= i < acc.len() && 0 <= j < m.len() ==> crate::strutil::lex_lt(
                (#[trigger] acc[i]).0,
                (#[trigger] m[j]).0,
            ),
    ensures
        crate::formats::utils::flat_extend_pairs(acc, m, Seq::<char>::empty()) == acc
            + m.map_values(
            |p: (Seq<char>, Val)| (p.0, crate::formats::utils::leaf_text(p.1)),
        ),
    decreases m.len(),
{
    let target = acc + m.map_values(
        |p: (Seq<char>, Val)| (p.0, crate::formats::utils::leaf_text(p.1)),
    );
    if m.len() == 0 {
        assert(crate::formats::utils::flat_extend_pairs(acc, m, Seq::<char>::empty())
            =~= target);
    } else {
        assert(crate::formats::utils::flat_key(Seq::<char>::empty(), m[0].0) == m[0].0);
        let p = (m[0].0, crate::formats::utils::leaf_text(m[0].1));
        crate::value::lemma_obj_insert_append(acc, m[0].0, crate::formats::utils::leaf_text(m[0].1));
        let acc1 = acc.push(p);
        assert(forall|q: int| 0 <= q < m.skip(1).len() ==> (#[trigger] m.skip(1)[q]) == m[q + 1]);
        assert(strictly_sorted_keys(m.skip(1)));
        lemma_flat_scalars(acc1, m.skip(1));
        assert(crate::formats::utils::flat_extend_pairs(acc, m, Seq::<char>::empty()) =~= target);
    }
}

/// The keys an insertion produces depend only on the keys it finds.
pub proof fn lemma_obj_insert_keys(
    m1: Seq<(Seq<char>, Val)>,
    m2: Seq<(Seq<char>, Val)>,
    k: Seq<char>,
    v1: Val,
    v2: Val,
)
    requires
        obj_keys(m1) == obj_keys(m2),
    ensures
        obj_keys(obj_insert(m1, k, v1)) == obj_keys(obj_insert(m2, k, v2)),
    decreases m1.len(),
{
    assert(obj_keys(m1).len() == m1.len());
    assert(obj_keys(m2).len() == m2.len());
    let r1 = obj_insert(m1, k, v1);
    let r2 = obj_insert(m2, k, v2);
    if m1.len() == 0 {
        assert(obj_keys(r1) =~= obj_keys(r2)) by {
            assert(obj_keys(r1)[0] == r1[0].0);
            assert(obj_keys(r2)[0] == r2[0].0);
        }
    } else {
        assert(m1[0].0 == m2[0].0) by {
            assert(obj_keys(m1)[0] == m1[0].0);
            assert(obj_keys(m2)[0] == m2[0].0);
        }
        if crate::strutil::lex_lt(k, m1[0].0) {
            assert(r1 == seq![(k, v1)] + m1);
            assert(r2 == seq![(k, v2)] + m2);
            assert forall|q: int| 0 <= q < r1.len() implies obj_keys(r1)[q] == obj_keys(r2)[q] by {
                assert(obj_keys(r1)[q] == r1[q].0);
                assert(obj_keys(r2)[q] == r2[q].0);
                if q > 0 {
                    assert((seq![(k, v1)] + m1)[q] == m1[q - 1]);
                    assert((seq![(k, v2)] + m2)[q] == m2[q - 1]);
                    assert(obj_keys(m1)[q - 1] == m1[q - 1].0);
                    assert(obj_keys(m2)[q - 1] == m2[q - 1].0);
                }
            }
            assert(obj_keys(r1) =~= obj_keys(r2));
        } else if k == m1[0].0 {
            assert(r1 == seq![(k, v1)] + m1.skip(1));
            assert(r2 == seq![(k, v2)] + m2.skip(1));
            assert forall|q: int| 0 <= q < r1.len() implies obj_keys(r1)[q] == obj_keys(r2)[q] by {
                assert(obj_keys(r1)[q] == r1[q].0);
                assert(obj_keys(r2)[q] == r2[q].0);
                if q > 0 {
                    assert((seq![(k, v1)] + m1.skip(1))[q] == m1.skip(1)[q - 1]);
                    assert((seq![(k, v2)] + m2.skip(1))[q] == m2.skip(1)[q - 1]);
                    assert(m1.skip(1)[q - 1] == m1[q]);
                    assert(m2.skip(1)[q - 1] == m2[q]);
                    assert(obj_keys(m1)[q] == m1[q].0);
                    assert(obj_keys(m2)[q] == m2[q].0);
                }
            }
            assert(obj_keys(r1) =~= obj_keys(r2));
        } else {
            assert(obj_keys(m1.skip(1)) =~= obj_keys(m2.skip(1))) by {
                assert forall|q: int| 0 <= q < m1.skip(1).len() implies obj_keys(m1.skip(1))[q]
                    == obj_keys(m2.skip(1))[q] by {
                    assert(obj_keys(m1.skip(1))[q] == m1.skip(1)[q].0);
                    assert(obj_keys(m2.skip(1))[q] == m2.skip(1)[q].0);
                    assert(m1.skip(1)[q] == m1[q + 1]);
                    assert(m2.skip(1)[q] == m2[q + 1]);
                    assert(obj_keys(m1)[q + 1] == m1[q + 1].0);
                    assert(obj_keys(m2)[q + 1] == m2[q + 1].0);
                }
            }
            lemma_obj_insert_keys(m1.skip(1), m2.skip(1), k, v1, v2);
            let t1 = obj_insert(m1.skip(1), k, v1);
            let t2 = obj_insert(m2.skip(1), k, v2);
            assert(obj_keys(t1).len() == t1.len());
            assert(obj_keys(t2).len() == t2.len());
            assert(r1 == seq![m1[0]] + t1);
            assert(r2 == seq![m2[0]] + t2);
            assert forall|q: int| 0 <= q < r1.len() implies obj_keys(r1)[q] == obj_keys(r2)[q] by {
                assert(obj_keys(r1)[q] == r1[q].0);
                assert(obj_keys(r2)[q] == r2[q].0);
                if q > 0 {
                    assert((seq![m1[0]] + t1)[q] == t1[q - 1]);
                    assert((seq![m2[0]] + t2)[q] == t2[q - 1]);
                    assert(obj_keys(t1)[q - 1] == t1[q - 1].0);
                    assert(obj_keys(t2)[q - 1] == t2[q - 1].0);
                }
            }
            assert(obj_keys(r1) =~= obj_keys(r2));
        }
    }
}

/// The keys of a built record depend only on the header and the row width.
pub proof fn lemma_build_record_keys(
    acc1: Seq<(Seq<char>, Val)>,
    acc2: Seq<(Seq<char>, Val)>,
    hs: Seq<Seq<char>>,
    f1: Seq<Seq<char>>,
    f2: Seq<Seq<char>>,
)
    requires
        obj_keys(acc1) == obj_keys(acc2),
        f1.len() == f2.len(),
    ensures
        obj_keys(build_record(acc1, hs, f1)) == obj_keys(build_record(acc2, hs, f2)),
    decreases f1.len(),
{
    if f1.len() == 0 || hs.len() == 0 {
    } else {
        lemma_obj_insert_keys(acc1, acc2, hs[0], infer_spec(f1[0]), infer_spec(f2[0]));
        lemma_build_record_keys(
            obj_insert(acc1, hs[0], infer_spec(f1[0])),
            obj_insert(acc2, hs[0], infer_spec(f2[0])),
            hs.skip(1),
            f1.skip(1),
            f2.skip(1),
        );
    }
}

/// A value that inference produced re-infers from its leaf text: the flat
/// rendering loses nothing on scalars.
pub proof fn lemma_infer_leaf(x: Seq<char>, v: Val)
    requires
        v == infer_spec(x),
        v matches Val::Float(t) ==> float_text_of(t) == Some(t) && parse_i64_spec(t) is None
            && t.len() > 0 && lower_seq(t) != "true"@ && lower_seq(t) != "false"@,
    ensures
        infer_spec(crate::formats::utils::leaf_text(v)) == v,
{
    lemma_lower_bool_lits();
    match v {
        Val::Null => {
        },
        Val::Bool(b) => {
        },
        Val::Int(n) => {
            let s = crate::strutil::i64_text(n);
            crate::strutil::lemma_parse_i64_text(n);
            assert(crate::strutil::lower_char(s[0]) == s[0]);
            assert(lower_seq(s).len() == s.len());
            if lower_seq(s) == "true"@ {
                assert(lower_seq(s)[0] == "true"@[0]);
                assert(lower_seq(s)[0] == crate::strutil::lower_char(s[0]));
                assert(false);
            }
            if lower_seq(s) == "false"@ {
                assert(lower_seq(s)[0] == "false"@[0]);
                assert(lower_seq(s)[0] == crate::strutil::lower_char(s[0]));
                assert(false);
            }
        },
        Val::Float(t) => {
        },
        Val::Str(s) => {
            assert(s == x);
        },
        Val::Arr(a) => {
            assert(false);
        },
        Val::Obj(m) => {
            assert(false);
        },
    }
}

} // verus!
