//! YAML as the source format: string-to-string conversions.

use vstd::prelude::*;
use crate::error::FormatError;
use crate::formats::json::canonical_to_csv_string;
use crate::formats::json::canonical_to_toml_string;
use crate::formats::json::to_toml_value_post;
use crate::outside::canon_of_json;
use crate::outside::json_doc_of;
use crate::outside::json_pretty_of;
use crate::outside::json_pretty_string;
use crate::outside::parse_yaml;
use crate::outside::yaml_canon_text;
use crate::outside::yaml_doc_of;
use crate::outside::yaml_string_of_yaml;
use crate::outside::yaml_value_to_json;
use crate::outside::yaml_wf;

verus! {

/// What converting YAML text to JSON returns: the pretty JSON of the
/// document on every input with a canonical image, and that output parses
/// back to the same document.
pub open spec fn yaml_to_json_post(input: Seq<char>, r: Result<String, FormatError>) -> bool {
    &&& (r is Ok <==> yaml_doc_of(input) is Some)
    &&& (r matches Ok(s) ==> s@ == json_pretty_of(yaml_doc_of(input)->0) && json_doc_of(s@)
        == yaml_doc_of(input))
    &&& (r matches Err(e) ==> e is ParseError || e is SerializationError)
    &&& (r matches Err(e) ==> (e matches FormatError::SerializationError(m) ==> m@
        == "Error converting: "@ + crate::outside::yaml_image_err_of(input)))
    &&& (r matches Err(e) ==> (e matches FormatError::ParseError(m) ==> m@ == "Invalid YAML: "@
        + crate::outside::yaml_err_of(input)))
}

/// Converts YAML text to pretty JSON.
pub fn yaml_to_json_string(input: &str) -> (r: Result<String, FormatError>)
    ensures
        yaml_to_json_post(input@, r),
{
    let y = match parse_yaml(input) {
        Ok(y) => y,
        Err(e) => {
            let mut m = String::from_str("Invalid YAML: ");
            m.append(e.as_str());
            return Err(FormatError::ParseError(m));
        },
    };
    let v = match yaml_value_to_json(&y) {
        Ok(v) => v,
        Err(e) => {
            let mut m = String::from_str("Error converting: ");
            m.append(e.as_str());
            return Err(FormatError::SerializationError(m));
        },
    };
    match json_pretty_string(&v) {
        Ok(s) => Ok(s),
        Err(e) => Err(FormatError::SerializationError(e)),
    }
}

/// What re-serializing YAML text returns: the canonical rendering of the
/// parsed tree; for a document with a break-free canonical image, that
/// rendering is itself parseable, a fixed point of re-rendering, and
/// carries the same document.
pub open spec fn yaml_to_yaml_post(input: Seq<char>, r: Result<String, FormatError>) -> bool {
    &&& (r is Ok <==> yaml_wf(input))
    &&& (r matches Ok(s) ==> s@ == yaml_canon_text(input) && ((yaml_doc_of(input) matches Some(v)
        && crate::outside::val_yaml_clean(v)) ==> yaml_wf(s@) && yaml_canon_text(s@) == s@
        && yaml_doc_of(s@) == yaml_doc_of(input)))
    &&& (r matches Err(e) ==> e is ParseError || e is SerializationError)
    &&& (r matches Err(e) ==> (e matches FormatError::ParseError(m) ==> m@ == "Invalid YAML: "@
        + crate::outside::yaml_err_of(input)))
}

/// Re-serializes YAML text in block style.
pub fn yaml_to_yaml_string(input: &str) -> (r: Result<String, FormatError>)
    ensures
        yaml_to_yaml_post(input@, r),
{
    let y = match parse_yaml(input) {
        Ok(y) => y,
        Err(e) => {
            let mut m = String::from_str("Invalid YAML: ");
            m.append(e.as_str());
            return Err(FormatError::ParseError(m));
        },
    };
    match yaml_string_of_yaml(&y) {
        Ok(s) => Ok(s),
        Err(e) => Err(FormatError::SerializationError(e)),
    }
}

/// What converting YAML text to TOML returns.
pub open spec fn yaml_to_toml_post(input: Seq<char>, r: Result<String, FormatError>) -> bool {
    &&& (yaml_doc_of(input) is None ==> (r matches Err(e) && (e is ParseError
        || e is SerializationError)))
    &&& (yaml_doc_of(input) is None ==> (r matches Err(e) ==> (e matches
        FormatError::SerializationError(m) ==> m@ == "Error converting: "@
        + crate::outside::yaml_image_err_of(input))))
    &&& (yaml_doc_of(input) matches Some(v) ==> to_toml_value_post(v, r))
    &&& (r matches Err(e) ==> (e matches FormatError::ParseError(m) ==> m@ == "Invalid YAML: "@
        + crate::outside::yaml_err_of(input)))
}

/// Converts YAML text to TOML, wrapping a root array under the reserved
/// key.
pub fn yaml_to_toml_string(input: &str) -> (r: Result<String, FormatError>)
    ensures
        yaml_to_toml_post(input@, r),
{
    let y = match parse_yaml(input) {
        Ok(y) => y,
        Err(e) => {
            let mut m = String::from_str("Invalid YAML: ");
            m.append(e.as_str());
            return Err(FormatError::ParseError(m));
        },
    };
    let v = match yaml_value_to_json(&y) {
        Ok(v) => v,
        Err(e) => {
            let mut m = String::from_str("Error converting: ");
            m.append(e.as_str());
            return Err(FormatError::SerializationError(m));
        },
    };
    let c = canon_of_json(&v);
    canonical_to_toml_string(c)
}

/// What converting YAML text to CSV returns.
pub open spec fn yaml_to_csv_post(input: Seq<char>, r: Result<String, FormatError>) -> bool {
    &&& (yaml_doc_of(input) is None ==> (r matches Err(e) && (e is ParseError
        || e is SerializationError)))
    &&& (yaml_doc_of(input) is None ==> (r matches Err(e) ==> (e matches
        FormatError::SerializationError(m) ==> m@ == "Error converting: "@
        + crate::outside::yaml_image_err_of(input))))
    &&& (yaml_doc_of(input) matches Some(v) ==> crate::formats::json::to_csv_value_post(
        v,
        "YAML must be an array or object"@,
        r,
    ))
    &&& (r matches Err(e) ==> (e matches FormatError::ParseError(m) ==> m@ == "Invalid YAML: "@
        + crate::outside::yaml_err_of(input)))
}

/// Converts YAML text to CSV by the shared export rules.
pub fn yaml_to_csv_string(input: &str) -> (r: Result<String, FormatError>)
    ensures
        yaml_to_csv_post(input@, r),
{
    let y = match parse_yaml(input) {
        Ok(y) => y,
        Err(e) => {
            let mut m = String::from_str("Invalid YAML: ");
            m.append(e.as_str());
            return Err(FormatError::ParseError(m));
        },
    };
    let v = match yaml_value_to_json(&y) {
        Ok(v) => v,
        Err(e) => {
            let mut m = String::from_str("Error converting: ");
            m.append(e.as_str());
            return Err(FormatError::SerializationError(m));
        },
    };
    let c = canon_of_json(&v);
    canonical_to_csv_string(c, "YAML must be an array or object")
}

} // verus!
