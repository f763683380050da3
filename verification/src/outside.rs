//! The boundary to the outside serialization crates.
//!
//! Everything in this module is trusted: Verus believes the contracts here
//! without reading the bodies. Each item names the outside function it
//! relies on. The uninterpreted spec functions name results that would take
//! pages to state (a parser's output, a writer's text); the contracts state
//! only facts that the crates' sources show, and the relations between a
//! text and its parsed document that the writers guarantee.

use vstd::prelude::*;
use serde_json::Value as JsonValue;
use toml::Value as TomlValue;
use crate::value::CanonicalValue;
use crate::value::Val;
use crate::value::strictly_sorted_keys;
use crate::value::val_normal;
use crate::value::val_no_null;

verus! {

#[verifier::external_type_specification]
#[verifier::external_body]
pub struct ExJsonValue(serde_json::Value);

#[verifier::external_type_specification]
#[verifier::external_body]
pub struct ExYamlValue(serde_yaml::Value);

#[verifier::external_type_specification]
#[verifier::external_body]
pub struct ExTomlValue(toml::Value);

// ---------------------------------------------------------------------------
// Names for outside results
// ---------------------------------------------------------------------------

/// The canonical model of a JSON tree held by `serde_json`.
pub uninterp spec fn jv_model(v: JsonValue) -> Val;

/// The canonical image of a YAML tree, where one exists: `None` when the
/// tree cannot be carried over to a JSON tree (a complex mapping key).
pub uninterp spec fn yv_model(y: serde_yaml::Value) -> Option<Val>;

/// The canonical image of a TOML tree, as `serde_json::to_value` maps it:
/// dates become their private tagged object, non-finite floats become null.
pub uninterp spec fn tv_model(t: TomlValue) -> Val;

/// What `serde_json::from_str` parses a text to, when it parses.
pub uninterp spec fn json_doc_of(text: Seq<char>) -> Option<Val>;

/// The pretty-printed JSON text of a document.
pub uninterp spec fn json_pretty_of(v: Val) -> Seq<char>;

/// The compact JSON text of a document.
pub uninterp spec fn json_min_of(v: Val) -> Seq<char>;

/// The canonical image of a YAML text: `None` when the text does not parse
/// as YAML, or parses to a tree with no JSON image.
pub uninterp spec fn yaml_doc_of(text: Seq<char>) -> Option<Val>;

/// The texts that parse as YAML.
pub uninterp spec fn yaml_wf(text: Seq<char>) -> bool;

/// The block-style YAML text of a document.
pub uninterp spec fn yaml_text_of(v: Val) -> Seq<char>;

/// The block-style YAML text of a parsed YAML tree.
pub uninterp spec fn yaml_render_of(y: serde_yaml::Value) -> Seq<char>;

/// The re-rendered form of a parseable YAML text.
pub uninterp spec fn yaml_canon_text(text: Seq<char>) -> Seq<char>;

/// The canonical image of a TOML text: `None` when it does not parse.
pub uninterp spec fn toml_doc_of(text: Seq<char>) -> Option<Val>;

/// The pretty-printed TOML text of a parsed TOML tree.
pub uninterp spec fn toml_render_of(t: TomlValue) -> Seq<char>;

/// The pretty-printed TOML form of a parseable TOML text.
pub uninterp spec fn toml_canon_text(text: Seq<char>) -> Seq<char>;

/// The pretty-printed TOML text of a document; meaningful for the trees
/// `tv_plain` describes, whose model determines the text.
pub uninterp spec fn toml_text_of(v: Val) -> Seq<char>;

/// TOML trees free of dates and non-finite floats, tables in their map's
/// ascending key order: on these, `tv_model` is one-to-one, so the
/// rendered text is a function of the model.
pub uninterp spec fn tv_plain(t: TomlValue) -> bool;

/// TOML trees whose root is a table: exactly what the writer accepts.
pub uninterp spec fn tv_table(t: TomlValue) -> bool;

/// The rows that the CSV reader produces from a text, `None` when it
/// reports an error (an inconsistent row width, a malformed quote).
pub uninterp spec fn csv_rows_of(text: Seq<char>) -> Option<Seq<Seq<Seq<char>>>>;

/// The text that the CSV writer produces from rows of fields.
pub uninterp spec fn csv_text_of(rows: Seq<Seq<Seq<char>>>) -> Seq<char>;

/// The canonical text of a finite 64-bit float parsed from a field, `None`
/// when the field does not read as a finite float in Rust's grammar.
pub uninterp spec fn float_text_of(s: Seq<char>) -> Option<Seq<char>>;

/// The documents that, printed as JSON, parse back: every JSON- or
/// YAML-parsed document is one, as is any document within the bounds the
/// wrappers state; a tree nested beyond the parsers' recursion limits is
/// not.
pub uninterp spec fn val_reparses_json(v: Val) -> bool;

/// The documents that, printed as YAML, parse back: granted only for
/// break-free documents, since the emitter writes NEL, LS and PS raw and
/// the parser folds them to spaces.
pub uninterp spec fn val_reparses_yaml(v: Val) -> bool;

/// The YAML trees whose block rendering re-parses to them losslessly;
/// granted for parsed trees whose document image is break-free.
pub uninterp spec fn yv_parsed(y: serde_yaml::Value) -> bool;

/// The TOML trees whose pretty text parses back to them; granted only
/// within a nesting bound, since deep trees print dotted headers longer
/// than the parser's per-key segment cap.
pub uninterp spec fn tv_reparses(t: TomlValue) -> bool;

/// The message text of the JSON parse error a text provokes.
pub uninterp spec fn json_err_of(text: Seq<char>) -> Seq<char>;

/// The message text of the YAML parse error a text provokes.
pub uninterp spec fn yaml_err_of(text: Seq<char>) -> Seq<char>;

/// The message text of the TOML parse error a text provokes.
pub uninterp spec fn toml_err_of(text: Seq<char>) -> Seq<char>;

/// The message text of the CSV read error a text provokes.
pub uninterp spec fn csv_read_err_of(text: Seq<char>) -> Seq<char>;

/// The TOML tree built from a well-formed value: the build is a function
/// of the value alone, so the printed TOML text is one too.
pub uninterp spec fn tv_of_val(v: Val) -> TomlValue;

/// The message text the TOML writer reports for a tree it rejects.
pub uninterp spec fn toml_ser_err_of(t: TomlValue) -> Seq<char>;

/// The message text `serde_json::to_value` reports for a YAML tree with
/// no JSON image.
pub uninterp spec fn yv_err_of(y: serde_yaml::Value) -> Seq<char>;

/// That message as a function of the YAML text the tree was parsed from.
pub uninterp spec fn yaml_image_err_of(text: Seq<char>) -> Seq<char>;

/// The canonical JSON number texts: each parses as a JSON number and is
/// exactly the text that number prints back as. Every float a canonical
/// value carries is one, so rebuilding the number from the text and
/// printing it again gives the text back.
pub uninterp spec fn num_text(t: Seq<char>) -> bool;

// ---------------------------------------------------------------------------
// Derived predicates over the names
// ---------------------------------------------------------------------------

/// The texts of finite floats: exactly what `float_text_of` can return.
pub open spec fn f64_text(t: Seq<char>) -> bool {
    exists|s: Seq<char>| float_text_of(s) == Some(t)
}

/// Every float in the value carries a JSON-number text.
pub open spec fn val_num_texts(v: Val) -> bool
    decreases v,
{
    match v {
        Val::Float(t) => num_text(t),
        Val::Arr(a) => forall|i: int| 0 <= i < a.len() ==> val_num_texts(#[trigger] a[i]),
        Val::Obj(m) => forall|i: int| 0 <= i < m.len() ==> val_num_texts(#[trigger] m[i].1),
        _ => true,
    }
}

/// Every float in the value carries its canonical text: a fixed point of
/// the float reading, outside the integer grammar and the boolean words,
/// and not empty. What `float_value_text` promises of each text it hands
/// out, lifted over a whole value.
pub open spec fn val_floats_stable(v: Val) -> bool
    decreases v,
{
    match v {
        Val::Float(t) => float_text_of(t) == Some(t) && crate::strutil::parse_i64_spec(t) is None
            && t.len() > 0 && crate::strutil::lower_seq(t) != "true"@ && crate::strutil::lower_seq(
            t,
        ) != "false"@,
        Val::Arr(a) => forall|i: int| 0 <= i < a.len() ==> val_floats_stable(#[trigger] a[i]),
        Val::Obj(m) => forall|i: int| 0 <= i < m.len() ==> val_floats_stable(#[trigger] m[i].1),
        _ => true,
    }
}

/// Every float in the value carries the text of a finite 64-bit float.
pub open spec fn val_floats_f64(v: Val) -> bool
    decreases v,
{
    match v {
        Val::Float(t) => f64_text(t),
        Val::Arr(a) => forall|i: int| 0 <= i < a.len() ==> val_floats_f64(#[trigger] a[i]),
        Val::Obj(m) => forall|i: int| 0 <= i < m.len() ==> val_floats_f64(#[trigger] m[i].1),
        _ => true,
    }
}

/// The values the serializer wrappers accept: object keys strictly sorted,
/// float texts in JSON number syntax. Every parsed document satisfies this.
pub open spec fn val_wf(v: Val) -> bool {
    val_normal(v) && val_num_texts(v)
}

/// No Unicode line-break character inside the text: the YAML emitter
/// writes NEL, LS and PS raw inside quoted scalars, and the parser folds
/// such breaks to spaces, so only break-free text round-trips through
/// YAML.
pub open spec fn text_break_free(s: Seq<char>) -> bool {
    forall|i: int|
        0 <= i < s.len() ==> #[trigger] s[i] != '\u{85}' && s[i] != '\u{2028}' && s[i]
            != '\u{2029}'
}

/// Every string and every key in the value is break-free; what a document
/// needs to survive a YAML print and re-parse unchanged.
pub open spec fn val_yaml_clean(v: Val) -> bool
    decreases v,
{
    match v {
        Val::Str(s) => text_break_free(s),
        Val::Arr(a) => forall|i: int| 0 <= i < a.len() ==> val_yaml_clean(#[trigger] a[i]),
        Val::Obj(m) => forall|i: int|
            0 <= i < m.len() ==> text_break_free((#[trigger] m[i]).0) && val_yaml_clean(m[i].1),
        _ => true,
    }
}

/// Nesting bounded by `d`: far inside every parser's recursion limit for
/// the small bounds this library uses, so such documents always parse
/// back.
pub open spec fn val_depth_le(v: Val, d: int) -> bool
    decreases d,
{
    if d <= 0 {
        !(v is Arr) && !(v is Obj)
    } else {
        match v {
            Val::Arr(a) => forall|i: int| 0 <= i < a.len() ==> val_depth_le(#[trigger] a[i], d - 1),
            Val::Obj(m) => forall|i: int|
                0 <= i < m.len() ==> val_depth_le(#[trigger] m[i].1, d - 1),
            _ => true,
        }
    }
}

/// A depth bound weakens upward.
pub proof fn lemma_val_depth_mono(v: Val, d1: int, d2: int)
    requires
        val_depth_le(v, d1),
        d1 <= d2,
    ensures
        val_depth_le(v, d2),
    decreases d2,
{
    if d2 <= 0 {
    } else if d1 <= 0 {
        assert(!(v is Arr) && !(v is Obj));
    } else {
        match v {
            Val::Arr(a) => {
                assert forall|i: int| 0 <= i < a.len() implies val_depth_le(
                    #[trigger] a[i],
                    d2 - 1,
                ) by {
                    lemma_val_depth_mono(a[i], d1 - 1, d2 - 1);
                }
            },
            Val::Obj(m) => {
                assert forall|i: int| 0 <= i < m.len() implies val_depth_le(
                    (#[trigger] m[i]).1,
                    d2 - 1,
                ) by {
                    lemma_val_depth_mono(m[i].1, d1 - 1, d2 - 1);
                }
            },
            _ => {},
        }
    }
}

/// The structural predicates, unfolded at an array.
pub proof fn lemma_val_arr_unfold(a: Seq<Val>)
    ensures
        val_normal(Val::Arr(a)) == (forall|i: int|
            0 <= i < a.len() ==> val_normal(#[trigger] a[i])),
        val_num_texts(Val::Arr(a)) == (forall|i: int|
            0 <= i < a.len() ==> val_num_texts(#[trigger] a[i])),
        val_floats_f64(Val::Arr(a)) == (forall|i: int|
            0 <= i < a.len() ==> val_floats_f64(#[trigger] a[i])),
        val_no_null(Val::Arr(a)) == (forall|i: int|
            0 <= i < a.len() ==> val_no_null(#[trigger] a[i])),
        val_floats_stable(Val::Arr(a)) == (forall|i: int|
            0 <= i < a.len() ==> val_floats_stable(#[trigger] a[i])),
{
    let v = Val::Arr(a);
    assert(val_normal(v) == match v {
        Val::Arr(b) => forall|j: int| 0 <= j < b.len() ==> val_normal(#[trigger] b[j]),
        _ => true,
    });
    assert(val_num_texts(v) == match v {
        Val::Arr(b) => forall|j: int| 0 <= j < b.len() ==> val_num_texts(#[trigger] b[j]),
        _ => true,
    });
    assert(val_floats_f64(v) == match v {
        Val::Arr(b) => forall|j: int| 0 <= j < b.len() ==> val_floats_f64(#[trigger] b[j]),
        _ => true,
    });
    assert(val_no_null(v) == match v {
        Val::Arr(b) => forall|j: int| 0 <= j < b.len() ==> val_no_null(#[trigger] b[j]),
        _ => true,
    });
    assert(val_floats_stable(v) == match v {
        Val::Arr(b) => forall|j: int| 0 <= j < b.len() ==> val_floats_stable(#[trigger] b[j]),
        _ => true,
    });
}

/// The structural predicates, unfolded at an object.
pub proof fn lemma_val_obj_unfold(m: Seq<(Seq<char>, Val)>)
    ensures
        val_normal(Val::Obj(m)) == (strictly_sorted_keys(m) && forall|i: int|
            0 <= i < m.len() ==> val_normal(#[trigger] m[i].1)),
        val_num_texts(Val::Obj(m)) == (forall|i: int|
            0 <= i < m.len() ==> val_num_texts(#[trigger] m[i].1)),
        val_floats_f64(Val::Obj(m)) == (forall|i: int|
            0 <= i < m.len() ==> val_floats_f64(#[trigger] m[i].1)),
        val_no_null(Val::Obj(m)) == (forall|i: int|
            0 <= i < m.len() ==> val_no_null(#[trigger] m[i].1)),
        val_floats_stable(Val::Obj(m)) == (forall|i: int|
            0 <= i < m.len() ==> val_floats_stable(#[trigger] m[i].1)),
{
    let v = Val::Obj(m);
    assert(val_normal(v) == match v {
        Val::Obj(w) => strictly_sorted_keys(w) && forall|j: int|
            0 <= j < w.len() ==> val_normal(#[trigger] w[j].1),
        _ => true,
    });
    assert(val_num_texts(v) == match v {
        Val::Obj(w) => forall|j: int| 0 <= j < w.len() ==> val_num_texts(#[trigger] w[j].1),
        _ => true,
    });
    assert(val_floats_f64(v) == match v {
        Val::Obj(w) => forall|j: int| 0 <= j < w.len() ==> val_floats_f64(#[trigger] w[j].1),
        _ => true,
    });
    assert(val_no_null(v) == match v {
        Val::Obj(w) => forall|j: int| 0 <= j < w.len() ==> val_no_null(#[trigger] w[j].1),
        _ => true,
    });
    assert(val_floats_stable(v) == match v {
        Val::Obj(w) => forall|j: int| 0 <= j < w.len() ==> val_floats_stable(#[trigger] w[j].1),
        _ => true,
    });
}

pub proof fn lemma_val_wf_arr_elem(a: Seq<Val>, i: int)
    requires
        val_wf(Val::Arr(a)),
        0 <= i < a.len(),
    ensures
        val_wf(a[i]),
{
    lemma_val_arr_unfold(a);
}

pub proof fn lemma_val_wf_obj_value(m: Seq<(Seq<char>, Val)>, i: int)
    requires
        val_wf(Val::Obj(m)),
        0 <= i < m.len(),
    ensures
        val_wf(m[i].1),
{
    lemma_val_obj_unfold(m);
}

/// Ordered insertion of a well-formed value into a well-formed object
/// keeps both well-formedness and the finite-float property.
pub proof fn lemma_obj_insert_wf(m: Seq<(Seq<char>, Val)>, k: Seq<char>, v: Val)
    requires
        val_wf(Val::Obj(m)),
        val_wf(v),
    ensures
        val_wf(Val::Obj(crate::value::obj_insert(m, k, v))),
        val_floats_f64(Val::Obj(m)) && val_floats_f64(v) ==> val_floats_f64(
            Val::Obj(crate::value::obj_insert(m, k, v)),
        ),
        val_floats_stable(Val::Obj(m)) && val_floats_stable(v) ==> val_floats_stable(
            Val::Obj(crate::value::obj_insert(m, k, v)),
        ),
{
    lemma_val_obj_unfold(m);
    crate::value::lemma_obj_insert_props(m, k, v);
    let res = crate::value::obj_insert(m, k, v);
    lemma_val_obj_unfold(res);
    assert forall|i: int| 0 <= i < res.len() implies val_normal((#[trigger] res[i]).1)
        && val_num_texts(res[i].1) by {
        if res[i] == (k, v) {
        } else {
            assert(m.contains(res[i]));
            let w = choose|w: int| 0 <= w < m.len() && m[w] == res[i];
            assert(val_normal(m[w].1) && val_num_texts(m[w].1));
        }
    }
    if val_floats_f64(Val::Obj(m)) && val_floats_f64(v) {
        assert forall|i: int| 0 <= i < res.len() implies val_floats_f64(
            (#[trigger] res[i]).1,
        ) by {
            if res[i] == (k, v) {
            } else {
                assert(m.contains(res[i]));
                let w = choose|w: int| 0 <= w < m.len() && m[w] == res[i];
                assert(val_floats_f64(m[w].1));
            }
        }
    }
    if val_floats_stable(Val::Obj(m)) && val_floats_stable(v) {
        assert forall|i: int| 0 <= i < res.len() implies val_floats_stable(
            (#[trigger] res[i]).1,
        ) by {
            if res[i] == (k, v) {
            } else {
                assert(m.contains(res[i]));
                let w = choose|w: int| 0 <= w < m.len() && m[w] == res[i];
                assert(val_floats_stable(m[w].1));
            }
        }
    }
}

/// A value found in a well-formed object is well formed, and carries only
/// finite floats when the object does.
pub proof fn lemma_obj_lookup_wf(m: Seq<(Seq<char>, Val)>, k: Seq<char>)
    requires
        val_wf(Val::Obj(m)),
        crate::value::obj_lookup(m, k) is Some,
    ensures
        val_wf(crate::value::obj_lookup(m, k)->0),
        val_floats_f64(Val::Obj(m)) ==> val_floats_f64(crate::value::obj_lookup(m, k)->0),
    decreases m.len(),
{
    lemma_val_obj_unfold(m);
    if m.len() > 0 && m[0].0 != k {
        assert(m.skip(1).len() == m.len() - 1);
        assert(forall|i: int| 0 <= i < m.skip(1).len() ==> (#[trigger] m.skip(1)[i]) == m[i + 1]);
        lemma_val_obj_unfold(m.skip(1));
        lemma_obj_lookup_wf(m.skip(1), k);
    }
}

// ---------------------------------------------------------------------------
// JSON
// ---------------------------------------------------------------------------

/// Relies on `serde_json::from_str::<JsonValue>`: parses exactly
/// the JSON texts, to the tree the text spells.
#[verifier::external_body]
pub(crate) fn parse_json_value(input: &str) -> (r: Result<JsonValue, String>)
    ensures
        r is Ok <==> json_doc_of(input@) is Some,
        r matches Ok(v) ==> jv_model(v) == json_doc_of(input@)->0 && val_reparses_json(jv_model(v))
            && (val_yaml_clean(jv_model(v)) ==> val_reparses_yaml(jv_model(v))),
        r matches Err(e) ==> e@ == json_err_of(input@),
{
    match serde_json::from_str::<JsonValue>(input) {
        Ok(v) => Ok(v),
        Err(e) => Err(e.to_string()),
    }
}

/// Relies on `JsonValue`: one arm per variant. Its maps keep keys
/// unique and byte-sorted, and a number is a 64-bit integer or else renders
/// as a JSON number text, so the result is well formed.
#[verifier::external_body]
pub(crate) fn canon_of_json(v: &JsonValue) -> (r: CanonicalValue)
    ensures
        r@ == jv_model(*v),
        val_wf(r@),
{
    match v {
        JsonValue::Null => CanonicalValue::Null,
        JsonValue::Bool(b) => CanonicalValue::Bool(*b),
        JsonValue::Number(n) => match n.as_i64() {
            Some(i) => CanonicalValue::Int(i),
            None => CanonicalValue::Float(n.to_string()),
        },
        JsonValue::String(s) => CanonicalValue::Str(s.clone()),
        JsonValue::Array(a) => CanonicalValue::Array(
            a.iter().map(canon_of_json).collect(),
        ),
        JsonValue::Object(m) => CanonicalValue::Object(
            m.iter().map(|(k, x)| (k.clone(), canon_of_json(x))).collect(),
        ),
    }
}

/// Relies on `JsonValue`: the inverse direction, one arm per
/// variant. For a well-formed value the built tree models back to it: the
/// map is fed in ascending key order, and a float text reparses to the
/// number that printed it.
#[verifier::external_body]
pub(crate) fn json_of_canon(c: &CanonicalValue) -> (r: JsonValue)
    requires
        val_wf(c@),
    ensures
        jv_model(r) == c@,
{
    match c {
        CanonicalValue::Null => JsonValue::Null,
        CanonicalValue::Bool(b) => JsonValue::Bool(*b),
        CanonicalValue::Int(i) => JsonValue::Number(serde_json::Number::from(*i)),
        CanonicalValue::Float(s) => match s.as_str().parse::<serde_json::Number>() {
            Ok(n) => JsonValue::Number(n),
            Err(_) => JsonValue::String(s.clone()),
        },
        CanonicalValue::Str(s) => JsonValue::String(s.clone()),
        CanonicalValue::Array(a) => JsonValue::Array(a.iter().map(json_of_canon).collect()),
        CanonicalValue::Object(m) => JsonValue::Object(
            m.iter().map(|(k, v)| (k.clone(), json_of_canon(v))).collect(),
        ),
    }
}

/// Relies on `serde_json::to_string_pretty`: never fails on a `Value` (all
/// map keys are strings), and on a document within the parser's limits —
/// one a parser produced, or one of small bounded depth — it prints a
/// text that parses back to the same tree.
#[verifier::external_body]
pub(crate) fn json_pretty_string(v: &JsonValue) -> (r: Result<String, String>)
    ensures
        r is Ok,
        r matches Ok(s) ==> s@ == json_pretty_of(jv_model(*v)) && ((val_reparses_json(jv_model(*v))
            || val_depth_le(jv_model(*v), 4)) ==> json_doc_of(s@) == Some(jv_model(*v))),
{
    match serde_json::to_string_pretty(v) {
        Ok(s) => Ok(s),
        Err(e) => Err(e.to_string()),
    }
}

/// Relies on `serde_json::to_string`: the compact form, empty on the error
/// path that a `Value` cannot reach.
#[verifier::external_body]
pub(crate) fn json_min_string(v: &JsonValue) -> (r: String)
    ensures
        r@ == json_min_of(jv_model(*v)),
{
    serde_json::to_string(v).unwrap_or_default()
}

// ---------------------------------------------------------------------------
// YAML
// ---------------------------------------------------------------------------

/// Relies on `serde_yaml::from_str::<serde_yaml::Value>`: parses exactly
/// the YAML texts it accepts.
#[verifier::external_body]
pub(crate) fn parse_yaml(input: &str) -> (r: Result<serde_yaml::Value, String>)
    ensures
        r is Ok <==> yaml_wf(input@),
        r matches Ok(y) ==> yv_model(y) == yaml_doc_of(input@) && yaml_render_of(y)
            == yaml_canon_text(input@) && yv_err_of(y) == yaml_image_err_of(input@) && (yv_model(
            y,
        ) matches Some(v) ==> val_reparses_json(v) && (val_yaml_clean(v) ==> val_reparses_yaml(v)
            && yv_parsed(y))),
        !(r is Ok) ==> yaml_doc_of(input@) is None,
        r matches Err(e) ==> e@ == yaml_err_of(input@),
{
    match serde_yaml::from_str::<serde_yaml::Value>(input) {
        Ok(y) => Ok(y),
        Err(e) => Err(e.to_string()),
    }
}

/// Relies on `serde_json::to_value`: carries a YAML tree over to a JSON
/// tree, failing exactly where the tree has no JSON image.
#[verifier::external_body]
pub(crate) fn yaml_value_to_json(y: &serde_yaml::Value) -> (r: Result<JsonValue, String>)
    ensures
        r is Ok <==> yv_model(*y) is Some,
        r matches Ok(v) ==> Some(jv_model(v)) == yv_model(*y),
        r matches Err(e) ==> e@ == yv_err_of(*y),
{
    match serde_json::to_value(y) {
        Ok(v) => Ok(v),
        Err(e) => Err(e.to_string()),
    }
}

/// Relies on `serde_yaml::to_string`: never fails on a JSON tree, and on a
/// break-free document within the parser's limits — one a parser
/// produced, or one of small bounded depth — it prints block-style YAML
/// that parses back to the same document.
#[verifier::external_body]
pub(crate) fn yaml_string_of_value(v: &JsonValue) -> (r: Result<String, String>)
    ensures
        r is Ok,
        r matches Ok(s) ==> s@ == yaml_text_of(jv_model(*v)) && ((val_reparses_yaml(jv_model(*v))
            || (val_depth_le(jv_model(*v), 4) && val_yaml_clean(jv_model(*v)))) ==> yaml_doc_of(
            s@,
        ) == Some(jv_model(*v))),
{
    match serde_yaml::to_string(v) {
        Ok(s) => Ok(s),
        Err(e) => Err(e.to_string()),
    }
}

/// Relies on `serde_yaml::to_string` on a parsed YAML tree: never fails on
/// one, prints block-style YAML that parses back to the same tree, and a
/// re-rendered text re-renders to itself.
#[verifier::external_body]
pub(crate) fn yaml_string_of_yaml(y: &serde_yaml::Value) -> (r: Result<String, String>)
    ensures
        r is Ok,
        r matches Ok(s) ==> s@ == yaml_render_of(*y) && (yv_parsed(*y) ==> yaml_wf(s@)
            && yaml_canon_text(s@) == s@ && yaml_doc_of(s@) == yv_model(*y)),
{
    match serde_yaml::to_string(y) {
        Ok(s) => Ok(s),
        Err(e) => Err(e.to_string()),
    }
}

// ---------------------------------------------------------------------------
// TOML
// ---------------------------------------------------------------------------

/// Relies on `toml::from_str::<TomlValue>`: parses exactly the TOML
/// texts, always to a table at the root, and the parsed tree re-renders to
/// the text's canonical form. Re-parse facts are granted only within a
/// nesting bound: dotted keys may carry up to eighty segments each, so a
/// parsed tree can be deeper than what the printer's dotted headers can
/// feed back through the parser, and deeper than JSON's recursion limit.
#[verifier::external_body]
pub(crate) fn parse_toml(input: &str) -> (r: Result<TomlValue, String>)
    ensures
        r is Ok <==> toml_doc_of(input@) is Some,
        r matches Ok(t) ==> tv_model(t) == toml_doc_of(input@)->0 && tv_model(t) is Obj
            && tv_table(t) && toml_render_of(t) == toml_canon_text(input@) && (val_depth_le(
            tv_model(t),
            40,
        ) ==> tv_reparses(t) && val_reparses_json(tv_model(t)) && (val_yaml_clean(tv_model(t))
            ==> val_reparses_yaml(tv_model(t)))),
        r matches Err(e) ==> e@ == toml_err_of(input@),
{
    match toml::from_str::<TomlValue>(input) {
        Ok(t) => Ok(t),
        Err(e) => Err(e.to_string()),
    }
}

/// Relies on `serde_json::to_value`: carries a TOML tree over to a JSON
/// tree; this never fails, since TOML keys are strings.
#[verifier::external_body]
pub(crate) fn toml_value_to_json(t: &TomlValue) -> (r: Result<JsonValue, String>)
    ensures
        r is Ok,
        r matches Ok(v) ==> jv_model(v) == tv_model(*t),
{
    match serde_json::to_value(t) {
        Ok(v) => Ok(v),
        Err(e) => Err(e.to_string()),
    }
}

/// Relies on `TomlValue`: builds the TOML tree of a well-formed value
/// with no nulls, one arm per variant. When every float text is a finite
/// 64-bit float's, the tree models back to the value exactly; a float text
/// beyond that range is rounded, and an unreadable one kept as a string.
/// Shape is kept in every case, and a tree of small bounded depth prints
/// to a text that parses back to it.
#[verifier::external_body]
pub(crate) fn toml_of_canon(c: &CanonicalValue) -> (r: TomlValue)
    requires
        val_wf(c@),
        val_no_null(c@),
    ensures
        r == tv_of_val(c@),
        val_floats_f64(c@) ==> tv_model(r) == c@,
        (tv_model(r) is Obj) == (c@ is Obj),
        tv_plain(r),
        c@ is Obj ==> tv_table(r),
        val_depth_le(c@, 4) ==> tv_reparses(r),
{
    match c {
        CanonicalValue::Null => TomlValue::String(String::new()),
        CanonicalValue::Bool(b) => TomlValue::Boolean(*b),
        CanonicalValue::Int(i) => TomlValue::Integer(*i),
        CanonicalValue::Float(s) => match s.as_str().parse() {
            Ok(f) => TomlValue::Float(f),
            Err(_) => TomlValue::String(s.clone()),
        },
        CanonicalValue::Str(s) => TomlValue::String(s.clone()),
        CanonicalValue::Array(a) => TomlValue::Array(a.iter().map(toml_of_canon).collect()),
        CanonicalValue::Object(m) => TomlValue::Table(
            m.iter().map(|(k, v)| (k.clone(), toml_of_canon(v))).collect(),
        ),
    }
}

/// Relies on `toml::to_string_pretty`: succeeds on exactly the trees whose
/// root is a table; on a tree within the parser's limits it prints a text
/// that parses back to the same tree and whose canonical form is itself.
/// On a tree `tv_plain` describes, the text is a function of the model
/// alone.
#[verifier::external_body]
pub(crate) fn toml_pretty_string(t: &TomlValue) -> (r: Result<String, String>)
    ensures
        r is Ok <==> tv_table(*t),
        r is Ok ==> tv_model(*t) is Obj,
        r matches Ok(s) ==> s@ == toml_render_of(*t) && (tv_plain(*t) ==> s@ == toml_text_of(
            tv_model(*t),
        )) && (tv_reparses(*t) ==> toml_doc_of(s@) == Some(tv_model(*t)) && toml_canon_text(s@)
            == s@),
        r matches Err(e) ==> e@ == toml_ser_err_of(*t),
{
    match toml::to_string_pretty(t) {
        Ok(s) => Ok(s),
        Err(e) => Err(e.to_string()),
    }
}

// ---------------------------------------------------------------------------
// CSV
// ---------------------------------------------------------------------------

/// Relies on `csv::ReaderBuilder` with headers off and `flexible(false)`:
/// yields every row, all of one width, or reports the error.
#[verifier::external_body]
pub(crate) fn read_csv_rows(input: &str) -> (r: Result<Vec<Vec<String>>, String>)
    ensures
        r is Ok <==> csv_rows_of(input@) is Some,
        r matches Ok(rows) ==> rows.deep_view() == csv_rows_of(input@)->0 && (forall|i: int|
            0 <= i < rows.deep_view().len() ==> (#[trigger] rows.deep_view()[i]).len()
                == rows.deep_view()[0].len()),
        r matches Err(e) ==> e@ == csv_read_err_of(input@),
{
    let mut reader = csv::ReaderBuilder::new().has_headers(false).flexible(false).from_reader(
        input.as_bytes(),
    );
    let mut rows: Vec<Vec<String>> = Vec::new();
    for record in reader.records() {
        match record {
            Ok(rec) => rows.push(rec.iter().map(|f| f.to_string()).collect()),
            Err(e) => {
                return Err(e.to_string());
            },
        }
    }
    Ok(rows)
}

/// Relies on `csv::Writer`: encodes the rows, quoting fields only where
/// needed; it succeeds whenever the rows share one width, zero included
/// (a zero-field record is written as one empty quoted field). Because of
/// that padding, only rows with at least one field each read back as the
/// same rows. When the first row has two or more fields, all free of line
/// breaks, that row's encoding is the first line of the text, and it
/// holds the separating comma.
#[verifier::external_body]
pub(crate) fn write_csv_rows(rows: &Vec<Vec<String>>) -> (r: Result<String, String>)
    ensures
        (rows@.len() > 0 && (forall|i: int|
            0 <= i < rows@.len() ==> (#[trigger] rows@[i])@.len() == rows@[0]@.len())) ==> r is Ok,
        r matches Ok(s) ==> s@ == csv_text_of(rows.deep_view()) && ((rows@.len() == 0 || rows@[0]@.len()
            > 0) ==> csv_rows_of(s@) == Some(rows.deep_view())),
        r matches Ok(s) ==> ((rows@.len() > 0 && rows@[0]@.len() >= 2 && (forall|j: int|
            0 <= j < rows@[0]@.len() ==> crate::strutil::no_line_breaks(
                (#[trigger] rows@[0]@[j])@,
            ))) ==> crate::strutil::first_nonblank_comma_spec(s@) == Some(true)),
{
    let mut writer = csv::Writer::from_writer(Vec::new());
    for row in rows {
        if let Err(e) = writer.write_record(row) {
            return Err(e.to_string());
        }
    }
    match writer.into_inner() {
        Ok(data) => match String::from_utf8(data) {
            Ok(s) => Ok(s),
            Err(e) => Err(e.to_string()),
        },
        Err(e) => Err(e.to_string()),
    }
}

// ---------------------------------------------------------------------------
// Floats
// ---------------------------------------------------------------------------

/// Relies on `str::parse` to a 64-bit float, `serde_json::Number::from_f64`
/// and the number's rendering: accepts exactly Rust's float grammar with a
/// finite value, and gives the canonical text that the float prints as
/// everywhere in this library. A canonical text is a fixed point of this
/// function; it always carries a point or an exponent, so it is never an
/// integer in the 64-bit grammar, never empty, and never a boolean word.
#[verifier::external_body]
pub(crate) fn float_value_text(s: &str) -> (r: Option<String>)
    ensures
        r matches Some(t) ==> float_text_of(s@) == Some(t@) && num_text(t@) && float_text_of(t@)
            == Some(t@) && crate::strutil::parse_i64_spec(t@) is None && t@.len() > 0
            && crate::strutil::lower_seq(t@) != "true"@ && crate::strutil::lower_seq(t@)
            != "false"@,
        r is None ==> float_text_of(s@) is None,
{
    match s.parse().ok().and_then(serde_json::Number::from_f64) {
        Some(n) => Some(n.to_string()),
        None => None,
    }
}

} // verus!
