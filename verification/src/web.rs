//! The browser front-end's text-level logic: the error-line heuristic and
//! the tag-driven conversion entry point.

use vstd::prelude::*;
use crate::error::FormatError;
use crate::format::convert_post;
use crate::format::FileFormat;
use crate::strutil::contains_sub;
use crate::strutil::digits_comma_prefix_end;
use crate::strutil::digits_prefix_end;
use crate::strutil::find_from;
use crate::strutil::find_sub;
use crate::strutil::parse_usize;
use crate::strutil::parse_usize_spec;
use crate::strutil::starts_with_spec;
use crate::strutil::str_starts_with;
use crate::strutil::trim_end_commas;

verus! {

/// The heuristic that tells a genuine syntax error from a likely format
/// mismatch: a parse error reported at line 1 within the first ten columns
/// is treated as a mismatch, everything else that carries the parse error
/// prefix as a genuine syntax error.
pub open spec fn is_syntax_error_spec(s: Seq<char>) -> bool {
    if !starts_with_spec(s, "Parse Error:"@) {
        false
    } else if contains_sub(s, "line 1"@) && contains_sub(s, "column"@) && find_from(
        s,
        "column "@,
        0,
    ) is Some {
        let rest = s.skip(find_from(s, "column "@, 0)->0 + 7);
        let col = parse_usize_spec(rest.take(digits_prefix_end(rest)));
        !(col matches Some(c) && c <= 10)
    } else {
        true
    }
}

/// Decides whether an error message reports a genuine syntax error.
pub fn is_syntax_error(error_msg: &str) -> (r: bool)
    ensures
        r == is_syntax_error_spec(error_msg@),
{
    if !str_starts_with(error_msg, "Parse Error:") {
        return false;
    }
    if find_sub(error_msg, "line 1").is_none() {
        return true;
    }
    if find_sub(error_msg, "column").is_none() {
        return true;
    }
    let cs = match find_sub(error_msg, "column ") {
        Some(cs) => cs,
        None => {
            return true;
        },
    };
    proof {
        reveal_strlit("column ");
        crate::strutil::lemma_find_from_some(error_msg@, "column "@, 0);
    }
    let n = error_msg.unicode_len();
    let rest = error_msg.substring_char(cs + 7, n);
    let ghost restm = error_msg@.skip(cs + 7);
    proof {
        assert(rest@ =~= restm);
    }
    // the run of digits after the marker
    let k = crate::strutil::digits_run_len(rest);
    let col_str = rest.substring_char(0, k);
    proof {
        assert(col_str@ =~= restm.take(k as int));
    }
    match parse_usize(col_str) {
        Some(column) => !(column <= 10),
        None => true,
    }
}

/// The line number extracted from an error message, only when the message
/// reports a genuine syntax error: the digit run after the line marker,
/// trailing commas dropped.
pub open spec fn extract_error_line_spec(s: Seq<char>) -> Option<usize> {
    if !is_syntax_error_spec(s) {
        None
    } else {
        match find_from(s, "line "@, 0) {
            Some(ls) => {
                let rest = s.skip(ls + 5);
                let k = digits_comma_prefix_end(rest);
                if k >= rest.len() {
                    None
                } else {
                    parse_usize_spec(trim_end_commas(rest.take(k)))
                }
            },
            None => None,
        }
    }
}

/// Extracts the offending line number from a syntax error message.
pub fn extract_error_line(error_msg: &str) -> (r: Option<usize>)
    ensures
        r == extract_error_line_spec(error_msg@),
{
    if !is_syntax_error(error_msg) {
        return None;
    }
    let ls = match find_sub(error_msg, "line ") {
        Some(ls) => ls,
        None => {
            return None;
        },
    };
    proof {
        reveal_strlit("line ");
        crate::strutil::lemma_find_from_some(error_msg@, "line "@, 0);
    }
    let n = error_msg.unicode_len();
    let rest = error_msg.substring_char(ls + 5, n);
    let ghost restm = error_msg@.skip(ls + 5);
    proof {
        assert(rest@ =~= restm);
    }
    let rl = rest.unicode_len();
    let k = crate::strutil::digits_comma_run_len(rest);
    if k >= rl {
        return None;
    }
    // drop trailing commas from the run
    let mut e: usize = k;
    while e > 0 && rest.get_char(e - 1) == ','
        invariant
            e <= k,
            k <= rl,
            rl == restm.len(),
            rest@ == restm,
            trim_end_commas(restm.take(k as int)) == trim_end_commas(restm.take(e as int)),
        decreases e,
    {
        proof {
            assert(restm.take(e as int).drop_last() =~= restm.take(e - 1));
        }
        e -= 1;
    }
    let num = rest.substring_char(0, e);
    proof {
        assert(num@ =~= restm.take(e as int));
        if e > 0 {
            assert(trim_end_commas(restm.take(e as int)) == restm.take(e as int));
        } else {
            assert(restm.take(0) =~= Seq::<char>::empty());
        }
    }
    parse_usize(num)
}

/// What the front-end conversion returns: unknown tags are rejected with a
/// message naming the side, and otherwise the result is the conversion
/// matrix's, errors rendered as their message text.
pub open spec fn perform_conversion_post(
    input_text: Seq<char>,
    input_format: Seq<char>,
    output_format: Seq<char>,
    r: Result<String, String>,
) -> bool {
    &&& (FileFormat::tag_of(input_format) is None ==> (r matches Err(m) && m@
        == "Invalid input format: "@ + "Parse Error: "@ + "Unknown format: "@ + input_format))
    &&& (FileFormat::tag_of(input_format) is Some && FileFormat::tag_of(output_format) is None
        ==> (r matches Err(m) && m@ == "Invalid output format: "@ + "Parse Error: "@
        + "Unknown format: "@ + output_format))
    &&& (FileFormat::tag_of(input_format) matches Some(fi) ==> (FileFormat::tag_of(output_format)
        matches Some(fo) ==> {
        &&& (r matches Ok(s) ==> convert_post(fi, fo, input_text, Result::Ok(s)))
        &&& (r matches Err(m) ==> exists|e: FormatError|
            convert_post(fi, fo, input_text, Result::Err(e)) && m@ == e.prefix() + e.msg())
    }))
}

/// Runs one conversion for the front-end, with tag parsing and error
/// rendering.
pub fn perform_conversion(input_text: &str, input_format: &str, output_format: &str) -> (r: Result<
    String,
    String,
>)
    ensures
        perform_conversion_post(input_text@, input_format@, output_format@, r),
{
    let input_fmt = match FileFormat::parse_tag(input_format) {
        Ok(f) => f,
        Err(e) => {
            let mut m = String::from_str("Invalid input format: ");
            m.append(e.message().as_str());
            proof {
                assert(m@ =~= "Invalid input format: "@ + "Parse Error: "@ + "Unknown format: "@
                    + input_format@);
            }
            return Err(m);
        },
    };
    let output_fmt = match FileFormat::parse_tag(output_format) {
        Ok(f) => f,
        Err(e) => {
            let mut m = String::from_str("Invalid output format: ");
            m.append(e.message().as_str());
            proof {
                assert(m@ =~= "Invalid output format: "@ + "Parse Error: "@ + "Unknown format: "@
                    + output_format@);
            }
            return Err(m);
        },
    };
    match input_fmt.convert(input_text, output_fmt) {
        Ok(s) => Ok(s),
        Err(e) => {
            let ghost eg = e;
            let m = e.message();
            proof {
                assert(convert_post(input_fmt, output_fmt, input_text@, Result::Err(eg)));
            }
            Err(m)
        },
    }
}

} // verus!
