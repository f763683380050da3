//! The format tag and the full conversion matrix.

use vstd::prelude::*;
use crate::error::FormatError;
use crate::formats::csv::csv_to_csv_post;
use crate::formats::csv::csv_to_csv_string;
use crate::formats::csv::csv_to_json_post;
use crate::formats::csv::csv_to_json_string;
use crate::formats::csv::csv_to_toml_post;
use crate::formats::csv::csv_to_toml_string;
use crate::formats::csv::csv_to_yaml_post;
use crate::formats::csv::csv_to_yaml_string;
use crate::formats::json::json_to_json_post;
use crate::formats::json::json_to_json_string;
use crate::formats::json::json_to_yaml_post;
use crate::formats::json::json_to_yaml_string;
use crate::formats::json::json_to_toml_string;
use crate::formats::json::to_toml_post;
use crate::formats::json::to_csv_post;
use crate::formats::json::json_to_csv_string;
use crate::formats::toml::toml_to_csv_post;
use crate::formats::toml::toml_to_csv_string;
use crate::formats::toml::toml_to_json_post;
use crate::formats::toml::toml_to_json_string;
use crate::formats::toml::toml_to_toml_post;
use crate::formats::toml::toml_to_toml_string;
use crate::formats::toml::toml_to_yaml_post;
use crate::formats::toml::toml_to_yaml_string;
use crate::formats::yaml::yaml_to_csv_post;
use crate::formats::yaml::yaml_to_csv_string;
use crate::formats::yaml::yaml_to_json_post;
use crate::formats::yaml::yaml_to_json_string;
use crate::formats::yaml::yaml_to_toml_post;
use crate::formats::yaml::yaml_to_toml_string;
use crate::formats::yaml::yaml_to_yaml_post;
use crate::formats::yaml::yaml_to_yaml_string;
use crate::outside::json_doc_of;
use crate::strutil::eq_ignore_ascii_case;
use crate::strutil::lower_char;
use crate::strutil::lower_seq;

verus! {

/// The four supported data formats.
#[derive(Debug, Clone, Copy, PartialEq, Eq, Structural)]
pub enum FileFormat {
    Json,
    Toml,
    Yaml,
    Csv,
}

/// What `convert` promises for each of the sixteen format pairs: the
/// postcondition of the pair's conversion function.
pub open spec fn convert_post(
    src: FileFormat,
    dst: FileFormat,
    input: Seq<char>,
    r: Result<String, FormatError>,
) -> bool {
    match (src, dst) {
        (FileFormat::Json, FileFormat::Json) => json_to_json_post(input, r),
        (FileFormat::Json, FileFormat::Toml) => to_toml_post(
            json_doc_of(input),
            "Invalid JSON: "@ + crate::outside::json_err_of(input),
            r,
        ),
        (FileFormat::Json, FileFormat::Yaml) => json_to_yaml_post(input, r),
        (FileFormat::Json, FileFormat::Csv) => to_csv_post(
            json_doc_of(input),
            "Invalid JSON: "@ + crate::outside::json_err_of(input),
            "JSON must be an array or object for CSV"@,
            r,
        ),
        (FileFormat::Toml, FileFormat::Json) => toml_to_json_post(input, r),
        (FileFormat::Toml, FileFormat::Toml) => toml_to_toml_post(input, r),
        (FileFormat::Toml, FileFormat::Yaml) => toml_to_yaml_post(input, r),
        (FileFormat::Toml, FileFormat::Csv) => toml_to_csv_post(input, r),
        (FileFormat::Yaml, FileFormat::Json) => yaml_to_json_post(input, r),
        (FileFormat::Yaml, FileFormat::Toml) => yaml_to_toml_post(input, r),
        (FileFormat::Yaml, FileFormat::Yaml) => yaml_to_yaml_post(input, r),
        (FileFormat::Yaml, FileFormat::Csv) => yaml_to_csv_post(input, r),
        (FileFormat::Csv, FileFormat::Json) => csv_to_json_post(input, r),
        (FileFormat::Csv, FileFormat::Toml) => csv_to_toml_post(input, r),
        (FileFormat::Csv, FileFormat::Yaml) => csv_to_yaml_post(input, r),
        (FileFormat::Csv, FileFormat::Csv) => csv_to_csv_post(input, r),
    }
}

impl FileFormat {
    /// Converts the input text from this format to the target format; the
    /// full sixteen-pair dispatch.
    pub fn convert(&self, input: &str, output_format: FileFormat) -> (r: Result<
        String,
        FormatError,
    >)
        ensures
            convert_post(*self, output_format, input@, r),
    {
        match (self, output_format) {
            (FileFormat::Json, FileFormat::Json) => json_to_json_string(input),
            (FileFormat::Json, FileFormat::Toml) => json_to_toml_string(input),
            (FileFormat::Json, FileFormat::Yaml) => json_to_yaml_string(input),
            (FileFormat::Json, FileFormat::Csv) => json_to_csv_string(input),
            (FileFormat::Toml, FileFormat::Json) => toml_to_json_string(input),
            (FileFormat::Toml, FileFormat::Toml) => toml_to_toml_string(input),
            (FileFormat::Toml, FileFormat::Yaml) => toml_to_yaml_string(input),
            (FileFormat::Toml, FileFormat::Csv) => toml_to_csv_string(input),
            (FileFormat::Yaml, FileFormat::Json) => yaml_to_json_string(input),
            (FileFormat::Yaml, FileFormat::Toml) => yaml_to_toml_string(input),
            (FileFormat::Yaml, FileFormat::Yaml) => yaml_to_yaml_string(input),
            (FileFormat::Yaml, FileFormat::Csv) => yaml_to_csv_string(input),
            (FileFormat::Csv, FileFormat::Json) => csv_to_json_string(input),
            (FileFormat::Csv, FileFormat::Toml) => csv_to_toml_string(input),
            (FileFormat::Csv, FileFormat::Yaml) => csv_to_yaml_string(input),
            (FileFormat::Csv, FileFormat::Csv) => csv_to_csv_string(input),
        }
    }

    /// The format's name.
    pub open spec fn name_spec(self) -> Seq<char> {
        match self {
            FileFormat::Json => "json"@,
            FileFormat::Toml => "toml"@,
            FileFormat::Yaml => "yaml"@,
            FileFormat::Csv => "csv"@,
        }
    }

    /// The format name as text.
    pub fn as_str(&self) -> (r: &'static str)
        ensures
            r@ == self.name_spec(),
    {
        match self {
            FileFormat::Json => "json",
            FileFormat::Toml => "toml",
            FileFormat::Yaml => "yaml",
            FileFormat::Csv => "csv",
        }
    }

    /// The standard file extension for the format.
    pub fn extension(&self) -> (r: &'static str)
        ensures
            r@ == self.name_spec(),
    {
        self.as_str()
    }

    /// The tag a text names, matched case-insensitively, with `yml` as an
    /// alias of YAML; `None` for anything else.
    pub open spec fn tag_of(s: Seq<char>) -> Option<FileFormat> {
        let l = lower_seq(s);
        if l == "json"@ {
            Some(FileFormat::Json)
        } else if l == "toml"@ {
            Some(FileFormat::Toml)
        } else if l == "yaml"@ || l == "yml"@ {
            Some(FileFormat::Yaml)
        } else if l == "csv"@ {
            Some(FileFormat::Csv)
        } else {
            None
        }
    }

    /// Parses a format tag from text: case-insensitive, `yml` aliasing
    /// YAML; an unknown tag fails with a parse error whose message names
    /// the offending text after the fixed `Unknown format` phrase.
    pub fn parse_tag(s: &str) -> (r: Result<FileFormat, FormatError>)
        ensures
            Self::tag_of(s@) matches Some(f) ==> r == Result::<FileFormat, FormatError>::Ok(f),
            Self::tag_of(s@) is None ==> (r matches Err(e) && e matches FormatError::ParseError(m)
                && m@ == "Unknown format: "@ + s@),
    {
        proof {
            lemma_lower_tag_lits();
        }
        if eq_ignore_ascii_case(s, "json") {
            Ok(FileFormat::Json)
        } else if eq_ignore_ascii_case(s, "toml") {
            Ok(FileFormat::Toml)
        } else if eq_ignore_ascii_case(s, "yaml") || eq_ignore_ascii_case(s, "yml") {
            Ok(FileFormat::Yaml)
        } else if eq_ignore_ascii_case(s, "csv") {
            Ok(FileFormat::Csv)
        } else {
            let mut m = String::from_str("Unknown format: ");
            m.append(s);
            Err(FormatError::ParseError(m))
        }
    }
}

pub proof fn lemma_lower_tag_lits()
    ensures
        lower_seq("json"@) == "json"@,
        lower_seq("toml"@) == "toml"@,
        lower_seq("yaml"@) == "yaml"@,
        lower_seq("yml"@) == "yml"@,
        lower_seq("csv"@) == "csv"@,
        "json"@.len() == 4,
        "toml"@.len() == 4,
        "yaml"@.len() == 4,
        "yml"@.len() == 3,
        "csv"@.len() == 3,
{
    reveal_strlit("json");
    reveal_strlit("toml");
    reveal_strlit("yaml");
    reveal_strlit("yml");
    reveal_strlit("csv");
    assert(lower_seq("json"@) =~= "json"@) by {
        assert(forall|i: int|
            0 <= i < "json"@.len() ==> lower_seq("json"@)[i] == lower_char("json"@[i]));
    }
    assert(lower_seq("toml"@) =~= "toml"@) by {
        assert(forall|i: int|
            0 <= i < "toml"@.len() ==> lower_seq("toml"@)[i] == lower_char("toml"@[i]));
    }
    assert(lower_seq("yaml"@) =~= "yaml"@) by {
        assert(forall|i: int|
            0 <= i < "yaml"@.len() ==> lower_seq("yaml"@)[i] == lower_char("yaml"@[i]));
    }
    assert(lower_seq("yml"@) =~= "yml"@) by {
        assert(forall|i: int|
            0 <= i < "yml"@.len() ==> lower_seq("yml"@)[i] == lower_char("yml"@[i]));
    }
    assert(lower_seq("csv"@) =~= "csv"@) by {
        assert(forall|i: int|
            0 <= i < "csv"@.len() ==> lower_seq("csv"@)[i] == lower_char("csv"@[i]));
    }
}

impl core::str::FromStr for FileFormat {
    type Err = FormatError;

    fn from_str(s: &str) -> Result<FileFormat, FormatError> {
        FileFormat::parse_tag(s)
    }
}

} // verus!
