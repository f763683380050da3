//! TOML as the source format: string-to-string conversions.

use vstd::prelude::*;
use crate::error::FormatError;
use crate::formats::json::canonical_to_csv_string;
use crate::outside::canon_of_json;
use crate::outside::json_doc_of;
use crate::outside::json_pretty_of;
use crate::outside::json_pretty_string;
use crate::outside::parse_toml;
use crate::outside::toml_canon_text;
use crate::outside::toml_doc_of;
use crate::outside::toml_pretty_string;
use crate::outside::toml_value_to_json;
use crate::outside::val_wf;
use crate::outside::yaml_doc_of;
use crate::outside::yaml_string_of_value;
use crate::outside::yaml_text_of;
use crate::value::CanonicalValue;
use crate::value::Val;

verus! {

/// What converting TOML text to JSON returns.
pub open spec fn toml_to_json_post(input: Seq<char>, r: Result<String, FormatError>) -> bool {
    &&& (r is Ok <==> toml_doc_of(input) is Some)
    &&& (toml_doc_of(input) matches Some(v) ==> v is Obj)
    &&& (r matches Ok(s) ==> s@ == json_pretty_of(toml_doc_of(input)->0) && (
    crate::outside::val_depth_le(toml_doc_of(input)->0, 40) ==> json_doc_of(s@) == toml_doc_of(
        input,
    )))
    &&& (r matches Err(e) ==> e is ParseError || e is SerializationError)
    &&& (r matches Err(e) ==> (e matches FormatError::ParseError(m) ==> m@ == "Invalid TOML: "@
        + crate::outside::toml_err_of(input)))
}

/// Converts TOML text to pretty JSON.
pub fn toml_to_json_string(input: &str) -> (r: Result<String, FormatError>)
    ensures
        toml_to_json_post(input@, r),
{
    let t = match parse_toml(input) {
        Ok(t) => t,
        Err(e) => {
            let mut m = String::from_str("Invalid TOML: ");
            m.append(e.as_str());
            return Err(FormatError::ParseError(m));
        },
    };
    let v = match toml_value_to_json(&t) {
        Ok(v) => v,
        Err(e) => {
            let mut m = String::from_str("Error converting: ");
            m.append(e.as_str());
            return Err(FormatError::SerializationError(m));
        },
    };
    match json_pretty_string(&v) {
        Ok(s) => Ok(s),
        Err(e) => Err(FormatError::SerializationError(e)),
    }
}

/// What converting TOML text to YAML returns.
pub open spec fn toml_to_yaml_post(input: Seq<char>, r: Result<String, FormatError>) -> bool {
    &&& (r is Ok <==> toml_doc_of(input) is Some)
    &&& (toml_doc_of(input) matches Some(v) ==> v is Obj)
    &&& (r matches Ok(s) ==> s@ == yaml_text_of(toml_doc_of(input)->0) && ((
    crate::outside::val_depth_le(toml_doc_of(input)->0, 40) && crate::outside::val_yaml_clean(
        toml_doc_of(input)->0,
    )) ==> yaml_doc_of(s@) == toml_doc_of(input)))
    &&& (r matches Err(e) ==> e is ParseError || e is SerializationError)
    &&& (r matches Err(e) ==> (e matches FormatError::ParseError(m) ==> m@ == "Invalid TOML: "@
        + crate::outside::toml_err_of(input)))
}

/// Converts TOML text to block-style YAML.
pub fn toml_to_yaml_string(input: &str) -> (r: Result<String, FormatError>)
    ensures
        toml_to_yaml_post(input@, r),
{
    let t = match parse_toml(input) {
        Ok(t) => t,
        Err(e) => {
            let mut m = String::from_str("Invalid TOML: ");
            m.append(e.as_str());
            return Err(FormatError::ParseError(m));
        },
    };
    let v = match toml_value_to_json(&t) {
        Ok(v) => v,
        Err(e) => {
            let mut m = String::from_str("Error converting: ");
            m.append(e.as_str());
            return Err(FormatError::SerializationError(m));
        },
    };
    match yaml_string_of_value(&v) {
        Ok(s) => Ok(s),
        Err(e) => Err(FormatError::SerializationError(e)),
    }
}

/// What re-serializing TOML text returns: the canonical pretty form; for
/// a document within the nesting bound it parses to the same document and
/// is a fixed point of re-rendering. Deeper documents can print dotted
/// headers past the parser's per-key segment cap.
pub open spec fn toml_to_toml_post(input: Seq<char>, r: Result<String, FormatError>) -> bool {
    &&& (r is Ok <==> toml_doc_of(input) is Some)
    &&& (r matches Ok(s) ==> s@ == toml_canon_text(input) && (crate::outside::val_depth_le(
        toml_doc_of(input)->0,
        40,
    ) ==> toml_canon_text(s@) == s@ && toml_doc_of(s@) == toml_doc_of(input)))
    &&& (r matches Err(e) ==> e is ParseError || e is SerializationError)
    &&& (r matches Err(e) ==> (e matches FormatError::ParseError(m) ==> m@ == "Invalid TOML: "@
        + crate::outside::toml_err_of(input)))
}

/// Re-serializes TOML text in the pretty form.
pub fn toml_to_toml_string(input: &str) -> (r: Result<String, FormatError>)
    ensures
        toml_to_toml_post(input@, r),
{
    let t = match parse_toml(input) {
        Ok(t) => t,
        Err(e) => {
            let mut m = String::from_str("Invalid TOML: ");
            m.append(e.as_str());
            return Err(FormatError::ParseError(m));
        },
    };
    match toml_pretty_string(&t) {
        Ok(s) => Ok(s),
        Err(e) => {
            let mut m = String::from_str("Error formatting TOML: ");
            m.append(e.as_str());
            Err(FormatError::SerializationError(m))
        },
    }
}

/// The opportunistic unwrap on the TOML side: a root object whose sole
/// key is `data` — the shape this library's own wrapping produces — is
/// replaced by that key's value. A document that legitimately holds only
/// a `data` key is unwrapped too; this is the documented heuristic, not a
/// guaranteed round trip.
pub open spec fn unwrap_data(v: Val) -> Val {
    match v {
        Val::Obj(m) => if m.len() == 1 && m[0].0 == "data"@ {
            m[0].1
        } else {
            v
        },
        _ => v,
    }
}

/// What converting TOML text to CSV returns: the export of the document
/// after the `data` unwrap.
pub open spec fn toml_to_csv_post(input: Seq<char>, r: Result<String, FormatError>) -> bool {
    &&& (toml_doc_of(input) is None ==> (r matches Err(e) && e matches FormatError::ParseError(m)
        && m@ == "Invalid TOML: "@ + crate::outside::toml_err_of(input)))
    &&& (toml_doc_of(input) matches Some(v) ==> crate::formats::json::to_csv_value_post(
        unwrap_data(v),
        "TOML must be an array or object"@,
        r,
    ))
}

/// Converts TOML text to CSV: a `data`-wrapped array from this library's
/// own TOML output is unwrapped first, then the shared export rules apply.
pub fn toml_to_csv_string(input: &str) -> (r: Result<String, FormatError>)
    ensures
        toml_to_csv_post(input@, r),
{
    let t = match parse_toml(input) {
        Ok(t) => t,
        Err(e) => {
            let mut m = String::from_str("Invalid TOML: ");
            m.append(e.as_str());
            return Err(FormatError::ParseError(m));
        },
    };
    let v = match toml_value_to_json(&t) {
        Ok(v) => v,
        Err(e) => {
            let mut m = String::from_str("Error converting: ");
            m.append(e.as_str());
            return Err(FormatError::SerializationError(m));
        },
    };
    let c = canon_of_json(&v);
    let ghost cv = c@;
    let data_copy: Option<CanonicalValue> = match &c {
        CanonicalValue::Object(m) => {
            proof {
                crate::value::lemma_pairs_model_index(m@);
                assert(cv == Val::Obj(crate::value::pairs_model(m@)));
            }
            if m.len() == 1 && crate::strutil::str_eq(m[0].0.as_str(), "data") {
                let dc = m[0].1.deep_copy();
                proof {
                    assert(crate::value::pairs_model(m@)[0] == (m@[0].0@, m@[0].1@));
                    assert(unwrap_data(cv) == m@[0].1@);
                    crate::outside::lemma_val_wf_obj_value(crate::value::pairs_model(m@), 0);
                }
                Some(dc)
            } else {
                proof {
                    if m@.len() == 1 {
                        assert(crate::value::pairs_model(m@)[0] == (m@[0].0@, m@[0].1@));
                    }
                    assert(unwrap_data(cv) == cv);
                }
                None
            }
        },
        _ => None,
    };
    let unwrapped: CanonicalValue = match data_copy {
        Some(d) => d,
        None => c,
    };
    proof {
        assert(unwrapped@ == unwrap_data(cv));
        assert(val_wf(unwrapped@));
    }
    canonical_to_csv_string(unwrapped, "TOML must be an array or object")
}

} // verus!
