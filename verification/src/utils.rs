//! Value classification and conversion: deciding whether a line is skipped,
//! splitting a `key = value` line, classifying a raw value, and recursively
//! converting inline brace-delimited objects into JSON object text.

use vstd::prelude::*;
use vstd::string::*;
use crate::error::ConvertError;
use crate::text::{
    find_char_from, find_from, is_wsp, lemma_find_from, lemma_trim_le, trim_spec, trim_str,
};

verus! {

/// The syntactic kind of a raw value: a double-quoted string, an inline
/// brace-delimited object, or a passthrough literal.
#[derive(Clone, Copy, Debug, PartialEq, Eq, Structural)]
pub enum ValueType {
    Str,
    Obj,
    Other,
}

/// Whether a line is blank or a comment, and is therefore skipped.
pub open spec fn should_skip_spec(line: Seq<char>) -> bool {
    trim_spec(line).len() == 0 || trim_spec(line)[0] == '#'
}

/// Decides whether a source line is blank or a comment.
pub fn should_skip(line: &str) -> (b: bool)
    ensures
        b == should_skip_spec(line@),
{
    let t = trim_str(line);
    t.unicode_len() == 0 || t.get_char(0) == '#'
}

/// The kind of a raw, trimmed value string.
pub open spec fn get_type_spec(v: Seq<char>) -> ValueType {
    if v.len() >= 2 && v[0] == '"' && v[v.len() - 1] == '"' {
        ValueType::Str
    } else if v.len() >= 1 && v[0] == '{' {
        ValueType::Obj
    } else {
        ValueType::Other
    }
}

/// Classifies a raw value string by its delimiters.
pub fn get_type(v: &str) -> (t: ValueType)
    ensures
        t == get_type_spec(v@),
{
    let n = v.unicode_len();
    if n >= 2 && v.get_char(0) == '"' && v.get_char(n - 1) == '"' {
        ValueType::Str
    } else if n >= 1 && v.get_char(0) == '{' {
        ValueType::Obj
    } else {
        ValueType::Other
    }
}

/// The content of a quoted value, with the delimiting quotes stripped.
pub open spec fn get_string_spec(v: Seq<char>) -> Seq<char> {
    v.subrange(1, v.len() - 1)
}

/// Strips the delimiting quotes from a quoted value.
pub fn get_string(v: &str) -> (r: String)
    requires
        get_type_spec(v@) == ValueType::Str,
    ensures
        r@ == get_string_spec(v@),
{
    let n = v.unicode_len();
    String::from_str(v.substring_char(1, n - 1))
}

/// Splits a line at its first `=` into a trimmed key and a trimmed value;
/// a line without `=` does not split.
pub open spec fn split_entry_spec(line: Seq<char>) -> Option<(Seq<char>, Seq<char>)> {
    match find_from(line, '=', 0) {
        None => None,
        Some(i) => Some(
            (
                trim_spec(line.subrange(0, i)),
                trim_spec(line.subrange(i + 1, line.len() as int)),
            ),
        ),
    }
}

pub proof fn lemma_split_entry_len(line: Seq<char>)
    ensures
        match split_entry_spec(line) {
            Some(kv) => kv.1.len() < line.len(),
            None => true,
        },
{
    lemma_find_from(line, '=', 0);
    match find_from(line, '=', 0) {
        Some(i) => {
            lemma_trim_le(line.subrange(i + 1, line.len() as int));
        },
        None => {},
    }
}

/// Splits one body line at the first `=` into key and value, both trimmed.
pub fn split_entry(line: &str) -> (r: Option<(String, String)>)
    ensures
        match split_entry_spec(line@) {
            Some(kv) => r matches Some(p) && p.0@ == kv.0 && p.1@ == kv.1,
            None => r is None,
        },
{
    let n = line.unicode_len();
    match find_char_from(line, '=', 0) {
        None => None,
        Some(i) => {
            proof {
                lemma_find_from(line@, '=', 0);
            }
            let k = trim_str(line.substring_char(0, i));
            let v = trim_str(line.substring_char(i + 1, n));
            Some((String::from_str(k), String::from_str(v)))
        },
    }
}

/// How a character changes the brace/bracket nesting depth.
pub open spec fn depth_delta(c: char) -> int {
    if c == '{' || c == '[' {
        1
    } else if c == '}' || c == ']' {
        -1
    } else {
        0
    }
}

/// The first index at or after `i` holding a comma at nesting depth zero,
/// where `depth` is the nesting depth already open before index `i`.
pub open spec fn first_top_comma_from(s: Seq<char>, i: int, depth: int) -> Option<int>
    decreases s.len() - i,
    when 0 <= i
{
    if i >= s.len() {
        None
    } else if s[i] == ',' && depth == 0 {
        Some(i)
    } else {
        first_top_comma_from(s, i + 1, depth + depth_delta(s[i]))
    }
}

pub proof fn lemma_first_top_comma_bounds(s: Seq<char>, i: int, depth: int)
    requires
        0 <= i <= s.len(),
    ensures
        match first_top_comma_from(s, i, depth) {
            Some(j) => i <= j < s.len() && s[j] == ',',
            None => true,
        },
    decreases s.len() - i,
{
    if i < s.len() && !(s[i] == ',' && depth == 0) {
        lemma_first_top_comma_bounds(s, i + 1, depth + depth_delta(s[i]));
    }
}

/// Finds the first comma of `s` that sits at brace/bracket depth zero.
fn find_top_comma(s: &str) -> (r: Option<usize>)
    ensures
        match r {
            Some(i) => first_top_comma_from(s@, 0, 0) == Some(i as int),
            None => first_top_comma_from(s@, 0, 0) is None,
        },
{
    let n = s.unicode_len();
    let mut i: usize = 0;
    let mut opens: usize = 0;
    let mut closes: usize = 0;
    while i < n
        invariant
            n == s@.len(),
            0 <= i <= n,
            opens <= i,
            closes <= i,
            first_top_comma_from(s@, 0, 0) == first_top_comma_from(
                s@,
                i as int,
                opens as int - closes as int,
            ),
        decreases n - i,
    {
        let c = s.get_char(i);
        if c == ',' && opens == closes {
            return Some(i);
        }
        if c == '{' || c == '[' {
            opens = opens + 1;
        } else if c == '}' || c == ']' {
            closes = closes + 1;
        }
        i = i + 1;
    }
    None
}

/// The JSON text for a raw value: a quoted value is re-quoted with its
/// delimiters stripped, an inline object is converted recursively, and any
/// other value passes through unchanged.
pub open spec fn value_json_spec(v: Seq<char>) -> Option<Seq<char>>
    decreases v.len(), 1int,
{
    match get_type_spec(v) {
        ValueType::Str => Some(seq!['"'] + get_string_spec(v) + seq!['"']),
        ValueType::Obj => to_json_obj_spec(v),
        ValueType::Other => Some(v),
    }
}

/// The JSON object text for an inline `{ ... }` value, or nothing when the
/// braces or members cannot be decomposed.
pub open spec fn to_json_obj_spec(v: Seq<char>) -> Option<Seq<char>>
    decreases v.len(), 0int,
{
    if v.len() >= 2 && v[0] == '{' && v[v.len() - 1] == '}' {
        if trim_spec(v.subrange(1, v.len() - 1)).len() == 0 {
            Some(seq!['{', '}'])
        } else {
            match obj_body_json_spec(v.subrange(1, v.len() - 1)) {
                Some(b) => Some(seq!['{'] + b + seq!['}']),
                None => None,
            }
        }
    } else {
        None
    }
}

/// The joined member fragments of an inline object's inner text, split at
/// depth-zero commas.
pub open spec fn obj_body_json_spec(s: Seq<char>) -> Option<Seq<char>>
    decreases s.len(), 3int,
{
    proof {
        lemma_first_top_comma_bounds(s, 0, 0);
    }
    match first_top_comma_from(s, 0, 0) {
        None => member_json_spec(s),
        Some(i) => match member_json_spec(s.subrange(0, i)) {
            None => None,
            Some(m) => match obj_body_json_spec(s.subrange(i + 1, s.len() as int)) {
                None => None,
                Some(rest) => Some(m + seq![','] + rest),
            },
        },
    }
}

/// The JSON fragment for one inline-object member, split at its first `=`.
pub open spec fn member_json_spec(m: Seq<char>) -> Option<Seq<char>>
    decreases m.len(), 2int,
{
    proof {
        lemma_split_entry_len(m);
    }
    match split_entry_spec(m) {
        None => None,
        Some(kv) => entry_raw_json_spec(kv.0, kv.1),
    }
}

/// The `"key": value` JSON fragment for one entry.
pub open spec fn entry_raw_json_spec(key: Seq<char>, value: Seq<char>) -> Option<Seq<char>>
    decreases value.len(), 2int,
{
    match value_json_spec(value) {
        None => None,
        Some(j) => Some(seq!['"'] + key + seq!['"', ':', ' '] + j),
    }
}

/// Converts one raw value into JSON value text.
pub(crate) fn value_json(v: &str) -> (r: Result<String, ConvertError>)
    ensures
        match value_json_spec(v@) {
            Some(j) => r matches Ok(s) && s@ == j,
            None => r matches Err(e) && e == ConvertError::MalformedInlineObject,
        },
    decreases v@.len(), 1int,
{
    match get_type(v) {
        ValueType::Str => {
            let gs = get_string(v);
            let mut out = String::from_str("\"");
            out.append(gs.as_str());
            out.append("\"");
            proof {
                reveal_strlit("\"");
                assert(out@ =~= seq!['"'] + get_string_spec(v@) + seq!['"']);
            }
            Ok(out)
        },
        ValueType::Obj => to_json_obj(v),
        ValueType::Other => Ok(String::from_str(v)),
    }
}

/// Converts an inline brace-delimited object into JSON object text by
/// splitting its members at depth-zero commas and converting each member.
pub fn to_json_obj(v: &str) -> (r: Result<String, ConvertError>)
    ensures
        match to_json_obj_spec(v@) {
            Some(j) => r matches Ok(s) && s@ == j,
            None => r matches Err(e) && e == ConvertError::MalformedInlineObject,
        },
    decreases v@.len(), 0int,
{
    let n = v.unicode_len();
    if n < 2 || v.get_char(0) != '{' || v.get_char(n - 1) != '}' {
        return Err(ConvertError::MalformedInlineObject);
    }
    let inner = v.substring_char(1, n - 1);
    let t = trim_str(inner);
    if t.unicode_len() == 0 {
        proof {
            reveal_strlit("{}");
            assert(("{}")@ =~= seq!['{', '}']);
        }
        return Ok(String::from_str("{}"));
    }
    match obj_body_json(inner) {
        Ok(b) => {
            let mut out = String::from_str("{");
            out.append(b.as_str());
            out.append("}");
            proof {
                reveal_strlit("{");
                reveal_strlit("}");
                assert(out@ =~= seq!['{'] + b@ + seq!['}']);
            }
            Ok(out)
        },
        Err(e) => Err(e),
    }
}

/// Converts the inner text of an inline object, one member at a time.
fn obj_body_json(s: &str) -> (r: Result<String, ConvertError>)
    ensures
        match obj_body_json_spec(s@) {
            Some(j) => r matches Ok(t) && t@ == j,
            None => r matches Err(e) && e == ConvertError::MalformedInlineObject,
        },
    decreases s@.len(), 3int,
{
    let n = s.unicode_len();
    match find_top_comma(s) {
        None => member_json(s),
        Some(i) => {
            proof {
                lemma_first_top_comma_bounds(s@, 0, 0);
            }
            let head = s.substring_char(0, i);
            let tail = s.substring_char(i + 1, n);
            match member_json(head) {
                Err(e) => Err(e),
                Ok(mj) => match obj_body_json(tail) {
                    Err(e) => Err(e),
                    Ok(rest) => {
                        let mut out = mj;
                        out.append(",");
                        out.append(rest.as_str());
                        proof {
                            reveal_strlit(",");
                            assert(out@ =~= member_json_spec(s@.subrange(0, i as int)).unwrap()
                                + seq![','] + obj_body_json_spec(
                                s@.subrange(i + 1, s@.len() as int),
                            ).unwrap());
                        }
                        Ok(out)
                    },
                },
            }
        },
    }
}

/// Converts one inline-object member into its `"key": value` fragment.
fn member_json(m: &str) -> (r: Result<String, ConvertError>)
    ensures
        match member_json_spec(m@) {
            Some(j) => r matches Ok(s) && s@ == j,
            None => r matches Err(e) && e == ConvertError::MalformedInlineObject,
        },
    decreases m@.len(), 2int,
{
    match split_entry(m) {
        None => Err(ConvertError::MalformedInlineObject),
        Some(kv) => {
            proof {
                lemma_split_entry_len(m@);
            }
            match value_json(kv.1.as_str()) {
                Err(e) => Err(e),
                Ok(j) => {
                    let mut out = String::from_str("\"");
                    out.append(kv.0.as_str());
                    out.append("\": ");
                    out.append(j.as_str());
                    proof {
                        reveal_strlit("\"");
                        reveal_strlit("\": ");
                        assert(("\": ")@ =~= seq!['"', ':', ' ']);
                        assert(out@ =~= seq!['"'] + kv.0@ + seq!['"', ':', ' '] + j@);
                    }
                    Ok(out)
                },
            }
        },
    }
}

} // verus!
