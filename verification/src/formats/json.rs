//! JSON as the source format: string-to-string conversions.

use vstd::prelude::*;
use crate::error::FormatError;
use crate::formats::utils::csv_out_post;
use crate::formats::utils::lemma_toml_ready_wf;
use crate::formats::utils::lemma_wrap_root_wf;
use crate::formats::utils::toml_ready;
use crate::formats::utils::toml_ready_value;
use crate::formats::utils::values_to_csv_text;
use crate::formats::utils::wrap_root;
use crate::formats::utils::wrap_root_array;
use crate::outside::canon_of_json;
use crate::outside::json_doc_of;
use crate::outside::json_pretty_of;
use crate::outside::json_pretty_string;
use crate::outside::parse_json_value;
use crate::outside::toml_canon_text;
use crate::outside::toml_doc_of;
use crate::outside::toml_of_canon;
use crate::outside::toml_pretty_string;
use crate::outside::toml_text_of;
use crate::outside::val_floats_f64;
use crate::outside::val_wf;
use crate::outside::yaml_doc_of;
use crate::outside::yaml_string_of_value;
use crate::outside::yaml_text_of;
use crate::value::elems_model;
use crate::value::lemma_elems_model_index;
use crate::value::CanonicalValue;
use crate::value::Val;

verus! {

/// What converting JSON text to pretty JSON returns: the pretty form of
/// the parsed document on every parseable input, a parse error otherwise;
/// the output parses back to the same document.
pub open spec fn json_to_json_post(input: Seq<char>, r: Result<String, FormatError>) -> bool {
    &&& (r is Ok <==> json_doc_of(input) is Some)
    &&& (r matches Ok(s) ==> s@ == json_pretty_of(json_doc_of(input)->0) && json_doc_of(s@)
        == json_doc_of(input))
    &&& (r matches Err(e) ==> (e matches FormatError::ParseError(m) && m@ == "Invalid JSON: "@
        + crate::outside::json_err_of(input)))
}

/// Pretty-prints JSON text, canonicalizing it.
pub fn json_to_json_string(input: &str) -> (r: Result<String, FormatError>)
    ensures
        json_to_json_post(input@, r),
{
    let v = match parse_json_value(input) {
        Ok(v) => v,
        Err(e) => {
            let mut m = String::from_str("Invalid JSON: ");
            m.append(e.as_str());
            return Err(FormatError::ParseError(m));
        },
    };
    match json_pretty_string(&v) {
        Ok(s) => Ok(s),
        Err(e) => Err(FormatError::SerializationError(e)),
    }
}

/// What converting JSON text to YAML returns. The output parses back to
/// the document whenever the document is break-free; the YAML emitter
/// folds raw Unicode line breaks inside strings, so those documents carry
/// no such promise.
pub open spec fn json_to_yaml_post(input: Seq<char>, r: Result<String, FormatError>) -> bool {
    &&& (r is Ok <==> json_doc_of(input) is Some)
    &&& (r matches Ok(s) ==> s@ == yaml_text_of(json_doc_of(input)->0) && (
    crate::outside::val_yaml_clean(json_doc_of(input)->0) ==> yaml_doc_of(s@) == json_doc_of(
        input,
    )))
    &&& (r matches Err(e) ==> (e matches FormatError::ParseError(m) && m@ == "Invalid JSON: "@
        + crate::outside::json_err_of(input)))
}

/// Converts JSON text to block-style YAML.
pub fn json_to_yaml_string(input: &str) -> (r: Result<String, FormatError>)
    ensures
        json_to_yaml_post(input@, r),
{
    let v = match parse_json_value(input) {
        Ok(v) => v,
        Err(e) => {
            let mut m = String::from_str("Invalid JSON: ");
            m.append(e.as_str());
            return Err(FormatError::ParseError(m));
        },
    };
    match yaml_string_of_value(&v) {
        Ok(s) => Ok(s),
        Err(e) => Err(FormatError::SerializationError(e)),
    }
}

/// What converting a parsed document to TOML returns: a root array is
/// first wrapped under the reserved key, nulls become empty strings, and
/// the conversion succeeds exactly when that leaves an object at the root.
/// When every float is a finite 64-bit one, the output is exactly the TOML
/// text of the adapted document; and when that document is also of small
/// depth, the output parses back to it.
pub open spec fn to_toml_value_post(v: Val, r: Result<String, FormatError>) -> bool {
    let w = toml_ready(wrap_root(v));
    &&& (r is Ok <==> (v is Obj || v is Arr))
    &&& (r matches Ok(s) ==> s@ == crate::outside::toml_render_of(crate::outside::tv_of_val(w)))
    &&& (r matches Ok(s) ==> (val_floats_f64(v) ==> s@ == toml_text_of(w)))
    &&& (r matches Ok(s) ==> (val_floats_f64(v) && crate::outside::val_depth_le(w, 4)
        ==> toml_doc_of(s@) == Some(w) && toml_canon_text(s@) == s@))
    &&& (r matches Err(e) ==> (e matches FormatError::SerializationError(m) && m@
        == "Error serializing TOML: "@ + crate::outside::toml_ser_err_of(
        crate::outside::tv_of_val(w),
    )))
}

pub open spec fn to_toml_post(
    doc: Option<Val>,
    parse_msg: Seq<char>,
    r: Result<String, FormatError>,
) -> bool {
    &&& (doc is None ==> (r matches Err(e) && e matches FormatError::ParseError(m) && m@
        == parse_msg))
    &&& (doc matches Some(v) ==> to_toml_value_post(v, r))
}

/// The shared TOML target pipeline: wrap a root array, replace nulls,
/// build and pretty-print the TOML tree.
pub(crate) fn canonical_to_toml_string(c: CanonicalValue) -> (r: Result<String, FormatError>)
    requires
        val_wf(c@),
    ensures
        to_toml_value_post(c@, r),
{
    let ghost v = c@;
    let wrapped = wrap_root_array(c);
    proof {
        lemma_wrap_root_wf(v);
    }
    let ready = toml_ready_value(&wrapped);
    proof {
        lemma_toml_ready_wf(wrap_root(v));
    }
    let t = toml_of_canon(&ready);
    match toml_pretty_string(&t) {
        Ok(s) => Ok(s),
        Err(e) => {
            let mut m = String::from_str("Error serializing TOML: ");
            m.append(e.as_str());
            Err(FormatError::SerializationError(m))
        },
    }
}

/// Converts JSON text to TOML, wrapping a root array under the reserved
/// key since TOML requires a table at the root.
pub fn json_to_toml_string(input: &str) -> (r: Result<String, FormatError>)
    ensures
        to_toml_post(json_doc_of(input@), "Invalid JSON: "@ + crate::outside::json_err_of(input@), r),
{
    let v = match parse_json_value(input) {
        Ok(v) => v,
        Err(e) => {
            let mut m = String::from_str("Invalid JSON: ");
            m.append(e.as_str());
            return Err(FormatError::ParseError(m));
        },
    };
    let c = canon_of_json(&v);
    canonical_to_toml_string(c)
}

/// What converting a parsed document to CSV returns: a scalar root is
/// rejected, an object root is treated as a one-row array, and an array
/// exports by the CSV table rules.
pub open spec fn to_csv_value_post(v: Val, scalar_msg: Seq<char>, r: Result<
    String,
    FormatError,
>) -> bool {
    &&& (!(v is Arr) && !(v is Obj) ==> (r matches Err(e) && e matches
        FormatError::SerializationError(m) && m@ == scalar_msg))
    &&& (v matches Val::Arr(a) ==> csv_out_post(a, r))
    &&& (v is Obj ==> csv_out_post(seq![v], r))
}

pub open spec fn to_csv_post(
    doc: Option<Val>,
    parse_msg: Seq<char>,
    scalar_msg: Seq<char>,
    r: Result<String, FormatError>,
) -> bool {
    &&& (doc is None ==> (r matches Err(e) && e matches FormatError::ParseError(m) && m@
        == parse_msg))
    &&& (doc matches Some(v) ==> to_csv_value_post(v, scalar_msg, r))
}

/// The shared CSV target pipeline: normalize the root to an array of
/// values, then export.
pub(crate) fn canonical_to_csv_string(c: CanonicalValue, scalar_msg: &str) -> (r: Result<
    String,
    FormatError,
>)
    requires
        val_wf(c@),
    ensures
        to_csv_value_post(c@, scalar_msg@, r),
{
    let ghost v = c@;
    let elems: Vec<CanonicalValue> = match c {
        CanonicalValue::Array(a) => a,
        CanonicalValue::Object(_) => {
            let mut one: Vec<CanonicalValue> = Vec::new();
            one.push(c);
            one
        },
        _ => {
            let mut m = String::new();
            m.append(scalar_msg);
            proof {
                assert(m@ =~= scalar_msg@);
            }
            return Err(FormatError::SerializationError(m));
        },
    };
    proof {
        lemma_elems_model_index(elems@);
        match v {
            Val::Arr(a) => {
                assert(elems_model(elems@) =~= a);
            },
            _ => {
                assert(elems_model(elems@) =~= seq![v]);
                crate::outside::lemma_val_arr_unfold(seq![v]);
            },
        }
        assert(val_wf(Val::Arr(elems_model(elems@)))) by {
            crate::outside::lemma_val_arr_unfold(elems_model(elems@));
            match v {
                Val::Arr(a) => {
                    assert forall|i: int| 0 <= i < a.len() implies crate::value::val_normal(
                        #[trigger] a[i],
                    ) && crate::outside::val_num_texts(a[i]) by {
                        crate::outside::lemma_val_wf_arr_elem(a, i);
                    }
                },
                _ => {},
            }
        }
    }
    values_to_csv_text(&elems)
}

/// Converts JSON text to CSV: the document must be an array of values or a
/// single object; each element is flattened, and the header row is the
/// sorted union of all keys.
pub fn json_to_csv_string(input: &str) -> (r: Result<String, FormatError>)
    ensures
        to_csv_post(
            json_doc_of(input@),
            "Invalid JSON: "@ + crate::outside::json_err_of(input@),
            "JSON must be an array or object for CSV"@,
            r,
        ),
{
    let v = match parse_json_value(input) {
        Ok(v) => v,
        Err(e) => {
            let mut m = String::from_str("Invalid JSON: ");
            m.append(e.as_str());
            return Err(FormatError::ParseError(m));
        },
    };
    let c = canon_of_json(&v);
    canonical_to_csv_string(c, "JSON must be an array or object for CSV")
}

} // verus!
