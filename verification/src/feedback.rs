//! Serialization of a feedback batch into JSON, ready to be embedded
//! verbatim in the next upstream prompt.
//!
//! The format is one array of objects, one object per executed action, in
//! execution order, with the fields in declaration order. String contents
//! are escaped as JSON demands: quote, backslash and the named control
//! characters by their two-character escapes, any other control character as
//! a four-digit hexadecimal escape.

use crate::actions::{CommandFeedback, CommandStatus};
use crate::errors::AppError;
use crate::text::{push_char, str_chars};
use vstd::prelude::*;
use vstd::string::StringExecFns;

verus! {

/// The hexadecimal digit for `d < 16`, lower case.
pub open spec fn hex_digit(d: nat) -> char
    recommends
        d < 16,
{
    if d == 0 {
        '0'
    } else if d == 1 {
        '1'
    } else if d == 2 {
        '2'
    } else if d == 3 {
        '3'
    } else if d == 4 {
        '4'
    } else if d == 5 {
        '5'
    } else if d == 6 {
        '6'
    } else if d == 7 {
        '7'
    } else if d == 8 {
        '8'
    } else if d == 9 {
        '9'
    } else if d == 10 {
        'a'
    } else if d == 11 {
        'b'
    } else if d == 12 {
        'c'
    } else if d == 13 {
        'd'
    } else if d == 14 {
        'e'
    } else {
        'f'
    }
}

/// How one character is written inside a JSON string literal.
pub open spec fn esc_char(c: char) -> Seq<char> {
    if c == '"' {
        "\\\""@
    } else if c == '\\' {
        "\\\\"@
    } else if c == '\u{8}' {
        "\\b"@
    } else if c == '\u{c}' {
        "\\f"@
    } else if c == '\n' {
        "\\n"@
    } else if c == '\r' {
        "\\r"@
    } else if c == '\t' {
        "\\t"@
    } else if (c as u32) < 0x20 {
        "\\u00"@ + seq![
            hex_digit(((c as u32) / 16) as nat),
            hex_digit(((c as u32) % 16) as nat),
        ]
    } else {
        seq![c]
    }
}

/// The escapes of the characters of `s` from index `i` on, concatenated.
pub open spec fn json_escaped_from(s: Seq<char>, i: int) -> Seq<char>
    decreases s.len() - i,
{
    if 0 <= i < s.len() {
        esc_char(s[i]) + json_escaped_from(s, i + 1)
    } else {
        Seq::empty()
    }
}

/// `s` as a JSON string literal, quotes included.
pub open spec fn json_string(s: Seq<char>) -> Seq<char> {
    "\""@ + json_escaped_from(s, 0) + "\""@
}

/// A status as JSON: the variant's name as a string.
pub open spec fn status_json(st: CommandStatus) -> Seq<char> {
    match st {
        CommandStatus::Success => "\"Success\""@,
        CommandStatus::Failure => "\"Failure\""@,
    }
}

/// One feedback record as a JSON object, fields in declaration order.
pub open spec fn feedback_json(fb: CommandFeedback) -> Seq<char> {
    "{\"command_type\":"@ + json_string(fb.command_type@) + ",\"command_details\":"@ + json_string(
        fb.command_details@,
    ) + ",\"status\":"@ + status_json(fb.status) + ",\"message\":"@ + json_string(fb.message@)
        + "}"@
}

/// The first `i` records as JSON objects joined with commas.
pub open spec fn items_upto(fbs: Seq<CommandFeedback>, i: int) -> Seq<char>
    decreases i,
{
    if i <= 0 {
        Seq::empty()
    } else if i == 1 {
        feedback_json(fbs[0])
    } else {
        items_upto(fbs, i - 1) + ","@ + feedback_json(fbs[i - 1])
    }
}

/// A whole batch as a JSON array, in execution order.
pub open spec fn batch_json(fbs: Seq<CommandFeedback>) -> Seq<char> {
    "["@ + items_upto(fbs, fbs.len() as int) + "]"@
}

/// The hexadecimal digit character for `d < 16`.
fn hex_digit_char(d: u32) -> (c: char)
    requires
        d < 16,
    ensures
        c == hex_digit(d as nat),
{
    match d {
        0 => '0',
        1 => '1',
        2 => '2',
        3 => '3',
        4 => '4',
        5 => '5',
        6 => '6',
        7 => '7',
        8 => '8',
        9 => '9',
        10 => 'a',
        11 => 'b',
        12 => 'c',
        13 => 'd',
        14 => 'e',
        _ => 'f',
    }
}

/// Appends `field` to `out` as a JSON string literal.
fn push_json_string(out: &mut String, field: &str)
    ensures
        final(out)@ == old(out)@ + json_string(field@),
{
    let ghost f = field@;
    out.append("\"");
    let ghost opened = out@;
    let chars = str_chars(field);
    let mut i: usize = 0;
    while i < chars.len()
        invariant
            0 <= i <= f.len(),
            chars@ == f,
            out@ + json_escaped_from(f, i as int) == opened + json_escaped_from(f, 0),
        decreases f.len() - i,
    {
        let ghost before = out@;
        let c = chars[i];
        if c == '"' {
            out.append("\\\"");
        } else if c == '\\' {
            out.append("\\\\");
        } else if c == '\u{8}' {
            out.append("\\b");
        } else if c == '\u{c}' {
            out.append("\\f");
        } else if c == '\n' {
            out.append("\\n");
        } else if c == '\r' {
            out.append("\\r");
        } else if c == '\t' {
            out.append("\\t");
        } else {
            let u = c as u32;
            if u < 0x20 {
                out.append("\\u00");
                push_char(out, hex_digit_char(u / 16));
                push_char(out, hex_digit_char(u % 16));
                proof {
                    assert(out@ =~= before + ("\\u00"@ + seq![
                        hex_digit(((c as u32) / 16) as nat),
                        hex_digit(((c as u32) % 16) as nat),
                    ]));
                }
            } else {
                push_char(out, c);
            }
        }
        proof {
            assert(out@ =~= before + esc_char(f[i as int]));
            assert(before + esc_char(f[i as int]) + json_escaped_from(f, i as int + 1) =~= before
                + (esc_char(f[i as int]) + json_escaped_from(f, i as int + 1)));
        }
        i += 1;
    }
    out.append("\"");
    proof {
        assert(out@ =~= old(out)@ + ("\""@ + json_escaped_from(f, 0) + "\""@));
    }
}

/// Appends one feedback record to `out` as a JSON object.
fn push_feedback_json(out: &mut String, fb: &CommandFeedback)
    ensures
        final(out)@ == old(out)@ + feedback_json(*fb),
{
    out.append("{\"command_type\":");
    push_json_string(out, fb.command_type.as_str());
    out.append(",\"command_details\":");
    push_json_string(out, fb.command_details.as_str());
    out.append(",\"status\":");
    match fb.status {
        CommandStatus::Success => out.append("\"Success\""),
        CommandStatus::Failure => out.append("\"Failure\""),
    }
    out.append(",\"message\":");
    push_json_string(out, fb.message.as_str());
    out.append("}");
    proof {
        assert(out@ =~= old(out)@ + feedback_json(*fb));
    }
}

/// Serializes a feedback batch as JSON, one object per action in execution
/// order. Serialization of these records cannot fail: the result is always
/// the exact array, and the error arm is never taken.
pub fn format_feedback(feedback: Vec<CommandFeedback>) -> (r: Result<String, AppError>)
    ensures
        ({
            match r {
                Ok(s) => s@ == batch_json(feedback@),
                Err(_) => false,
            }
        }),
{
    let ghost fbs = feedback@;
    let mut out = "[".to_owned();
    let mut i: usize = 0;
    proof {
        assert(out@ =~= "["@ + items_upto(fbs, 0));
    }
    while i < feedback.len()
        invariant
            0 <= i <= fbs.len(),
            feedback@ == fbs,
            out@ == "["@ + items_upto(fbs, i as int),
        decreases fbs.len() - i,
    {
        let ghost before = out@;
        if i > 0 {
            out.append(",");
        }
        push_feedback_json(&mut out, &feedback[i]);
        proof {
            if i == 0 {
                assert(out@ =~= "["@ + items_upto(fbs, 1));
            } else {
                assert(items_upto(fbs, i as int + 1) == items_upto(fbs, i as int) + ","@
                    + feedback_json(fbs[i as int]));
                assert(out@ =~= "["@ + items_upto(fbs, i as int + 1));
            }
        }
        i += 1;
    }
    out.append("]");
    proof {
        assert(out@ =~= "["@ + items_upto(fbs, fbs.len() as int) + "]"@);
    }
    Ok(out)
}

/// Folds a fresh serialization into the feedback string carried between
/// turns: the new string when serialization succeeded, the previous one —
/// kept unchanged, so no context is lost — when it did not.
pub fn fold_feedback(previous: String, formatted: Result<String, AppError>) -> (r: String)
    ensures
        (match formatted {
            Ok(s) => r == s,
            Err(_) => r == previous,
        }),
{
    match formatted {
        Ok(s) => s,
        Err(_) => previous,
    }
}

} // verus!
