//! The interactive shell's state: chosen formats, chosen files, and a
//! status line. File contents are handed in and out as text; reading and
//! writing them is the caller's business.

use vstd::prelude::*;
use crate::error::FormatError;
use crate::format::convert_post;
use crate::format::FileFormat;
use crate::strutil::eq_ignore_ascii_case;
use crate::strutil::extension_of;
use crate::strutil::extension_spec;
use crate::strutil::lower_seq;

verus! {

/// Conversion shell state. Formats are indices into the fixed format
/// list: JSON, TOML, YAML, CSV in that order.
pub struct App {
    pub input_format: usize,
    pub output_format: usize,
    pub input_file: Option<String>,
    pub output_file: Option<String>,
    pub status: String,
}

/// The format index a path's extension selects, with JSON as fallback.
pub open spec fn detect_spec(path: Seq<char>) -> int {
    match extension_spec(path) {
        Some(e) => {
            let l = lower_seq(e);
            if l == "json"@ {
                0
            } else if l == "toml"@ {
                1
            } else if l == "yaml"@ || l == "yml"@ {
                2
            } else if l == "csv"@ {
                3
            } else {
                0
            }
        },
        None => 0,
    }
}

/// The display name of a format index.
pub open spec fn name_of(format: int) -> Seq<char> {
    if format == 0 {
        "JSON"@
    } else if format == 1 {
        "TOML"@
    } else if format == 2 {
        "YAML"@
    } else if format == 3 {
        "CSV"@
    } else {
        "Unbekannt"@
    }
}

/// The status line for a choice of files and formats.
pub open spec fn status_text(
    input_some: bool,
    output_some: bool,
    input_format: int,
    output_format: int,
) -> Seq<char> {
    if input_some && output_some {
        "Bereit: "@ + name_of(input_format) + " \u{2192} "@ + name_of(output_format)
            + " (Enter dr\u{fc}cken)"@
    } else if input_some {
        "Ausgabedatei w\u{e4}hlen"@
    } else {
        "Eingabedatei w\u{e4}hlen"@
    }
}

/// The format index the tables use, as a tag; indices past the four
/// formats select none.
pub open spec fn tag_at(format: int) -> Option<FileFormat> {
    if format == 0 {
        Some(FileFormat::Json)
    } else if format == 1 {
        Some(FileFormat::Toml)
    } else if format == 2 {
        Some(FileFormat::Yaml)
    } else if format == 3 {
        Some(FileFormat::Csv)
    } else {
        None
    }
}

impl App {
    pub fn new() -> (r: App)
        ensures
            r.input_format == 0,
            r.output_format == 0,
            r.input_file is None,
            r.output_file is None,
            r.status@ == "Bereit - W\u{e4}hle Input/Output Format"@,
    {
        App {
            input_format: 0,
            output_format: 0,
            input_file: None,
            output_file: None,
            status: String::from_str("Bereit - W\u{e4}hle Input/Output Format"),
        }
    }

    /// Detects the format a path selects by its extension.
    fn detect_format(path: &str) -> (r: usize)
        ensures
            r == detect_spec(path@),
            r <= 3,
    {
        proof {
            crate::format::lemma_lower_tag_lits();
        }
        let ext: String = match extension_of(path) {
            Some(e) => e,
            None => String::new(),
        };
        proof {
            match extension_spec(path@) {
                Some(e) => {
                    assert(ext@ == e);
                },
                None => {
                    assert(ext@ =~= Seq::<char>::empty());
                    assert(lower_seq(ext@) =~= Seq::<char>::empty());
                    assert(lower_seq(ext@) != "json"@ && lower_seq(ext@) != "toml"@ && lower_seq(
                        ext@,
                    ) != "yaml"@ && lower_seq(ext@) != "yml"@ && lower_seq(ext@) != "csv"@);
                },
            }
        }
        if eq_ignore_ascii_case(ext.as_str(), "json") {
            0
        } else if eq_ignore_ascii_case(ext.as_str(), "toml") {
            1
        } else if eq_ignore_ascii_case(ext.as_str(), "yaml") || eq_ignore_ascii_case(
            ext.as_str(),
            "yml",
        ) {
            2
        } else if eq_ignore_ascii_case(ext.as_str(), "csv") {
            3
        } else {
            0
        }
    }

    /// The display name of a format index.
    fn format_name(format: usize) -> (r: &'static str)
        ensures
            r@ == name_of(format as int),
    {
        match format {
            0 => "JSON",
            1 => "TOML",
            2 => "YAML",
            3 => "CSV",
            _ => "Unbekannt",
        }
    }

    /// Refreshes the status line from the chosen files and formats.
    fn update_status(&mut self)
        ensures
            final(self).status@ == status_text(
                old(self).input_file is Some,
                old(self).output_file is Some,
                old(self).input_format as int,
                old(self).output_format as int,
            ),
            final(self).input_format == old(self).input_format,
            final(self).output_format == old(self).output_format,
            final(self).input_file == old(self).input_file,
            final(self).output_file == old(self).output_file,
    {
        if self.input_file.is_some() && self.output_file.is_some() {
            let mut s = String::from_str("Bereit: ");
            s.append(Self::format_name(self.input_format));
            s.append(" \u{2192} ");
            s.append(Self::format_name(self.output_format));
            s.append(" (Enter dr\u{fc}cken)");
            self.status = s;
        } else if self.input_file.is_some() {
            self.status = String::from_str("Ausgabedatei w\u{e4}hlen");
        } else {
            self.status = String::from_str("Eingabedatei w\u{e4}hlen");
        }
    }

    /// Chooses the input file, detecting its format from the extension.
    pub fn set_input_file(&mut self, path: String)
        ensures
            final(self).input_format == detect_spec(path@),
            final(self).input_file matches Some(p) && p@ == path@,
            final(self).output_format == old(self).output_format,
            final(self).output_file == old(self).output_file,
            final(self).status@ == status_text(
                true,
                old(self).output_file is Some,
                detect_spec(path@),
                old(self).output_format as int,
            ),
    {
        self.input_format = Self::detect_format(path.as_str());
        self.input_file = Some(path);
        self.update_status();
    }

    /// Chooses the output file, detecting its format from the extension.
    pub fn set_output_file(&mut self, path: String)
        ensures
            final(self).output_format == detect_spec(path@),
            final(self).output_file matches Some(p) && p@ == path@,
            final(self).input_format == old(self).input_format,
            final(self).input_file == old(self).input_file,
            final(self).status@ == status_text(
                old(self).input_file is Some,
                true,
                old(self).input_format as int,
                detect_spec(path@),
            ),
    {
        self.output_format = Self::detect_format(path.as_str());
        self.output_file = Some(path);
        self.update_status();
    }

    /// Converts the input file's text to the output format. Both files
    /// must have been chosen; the status line reports the outcome.
    pub fn convert(&mut self, input: &str) -> (r: Result<String, FormatError>)
        ensures
            old(self).input_file is None ==> (r matches Err(e) && e matches
                FormatError::SerializationError(m) && m@ == "Keine Eingabedatei"@ && *final(self)
                == *old(self)),
            old(self).input_file is Some && old(self).output_file is None ==> (r matches Err(e)
                && e matches FormatError::SerializationError(m) && m@ == "Keine Ausgabedatei"@
                && *final(self) == *old(self)),
            old(self).input_file is Some && old(self).output_file is Some ==> {
                &&& (tag_at(old(self).input_format as int) matches Some(fi) ==> (tag_at(
                    old(self).output_format as int,
                ) matches Some(fo) ==> convert_post(fi, fo, input@, r)))
                &&& (r matches Ok(s) ==> final(self).status@ == "\u{2713} Erfolgreich: "@ + name_of(
                    old(self).input_format as int,
                ) + " \u{2192} "@ + name_of(old(self).output_format as int))
                &&& (r matches Err(e) ==> final(self).status@ == "\u{2717} Fehler: "@ + e.prefix()
                    + e.msg())
            },
            final(self).input_format == old(self).input_format,
            final(self).output_format == old(self).output_format,
            final(self).input_file == old(self).input_file,
            final(self).output_file == old(self).output_file,
    {
        if self.input_file.is_none() {
            return Err(FormatError::SerializationError(String::from_str("Keine Eingabedatei")));
        }
        if self.output_file.is_none() {
            return Err(FormatError::SerializationError(String::from_str("Keine Ausgabedatei")));
        }
        let fi = match self.input_format {
            0 => FileFormat::Json,
            1 => FileFormat::Toml,
            2 => FileFormat::Yaml,
            3 => FileFormat::Csv,
            _ => {
                let e = FormatError::SerializationError(
                    String::from_str("Ung\u{fc}ltiges Format"),
                );
                let msg = e.message();
                let mut s = String::from_str("\u{2717} Fehler: ");
                s.append(msg.as_str());
                self.status = s;
                return Err(e);
            },
        };
        let fo = match self.output_format {
            0 => FileFormat::Json,
            1 => FileFormat::Toml,
            2 => FileFormat::Yaml,
            3 => FileFormat::Csv,
            _ => {
                let e = FormatError::SerializationError(
                    String::from_str("Ung\u{fc}ltiges Format"),
                );
                let msg = e.message();
                let mut s = String::from_str("\u{2717} Fehler: ");
                s.append(msg.as_str());
                self.status = s;
                return Err(e);
            },
        };
        match fi.convert(input, fo) {
            Ok(out) => {
                let mut s = String::from_str("\u{2713} Erfolgreich: ");
                s.append(Self::format_name(self.input_format));
                s.append(" \u{2192} ");
                s.append(Self::format_name(self.output_format));
                self.status = s;
                Ok(out)
            },
            Err(e) => {
                let msg = e.message();
                let mut s = String::from_str("\u{2717} Fehler: ");
                s.append(msg.as_str());
                self.status = s;
                Err(e)
            },
        }
    }
}

} // verus!
