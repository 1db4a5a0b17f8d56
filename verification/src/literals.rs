//! Parsers for the literal tokens `true`, `false` and `null`.

use vstd::prelude::*;
use vstd::string::{StrSliceExecFns, StringExecFns};
use crate::grammar::{
    false_chars, keyword_at, null_chars, sp_false, sp_null, sp_true, spec_delim, true_chars,
};
use crate::model::JsonErrorKind;
use crate::value::{error_kind, Json, JsonError};

verus! {

/// Whether a literal token may end right before `c`: at the end of the
/// input, or before a structural character or whitespace.
pub fn is_json_delim(c: Option<char>) -> (b: bool)
    ensures
        b == match c {
            None => true,
            Some(ch) => spec_delim(ch),
        },
{
    matches!(
        c,
        None | Some(',') | Some('}') | Some(']') | Some(':') | Some(' ') | Some('\t') | Some('\n')
            | Some('\r')
    )
}

/// Builds the mismatch message for a literal parser: the expected word and
/// an excerpt of the offending input no longer than `cap` characters.
fn literal_error(source: &str, expected: &str, cap: usize) -> (e: JsonError)
    ensures
        error_kind(e) == JsonErrorKind::Syntax,
{
    let n: usize = source.unicode_len();
    let upto: usize = if n < cap {
        n
    } else {
        cap
    };
    let excerpt = source.substring_char(0, upto);
    let msg = "Expected '".to_owned().concat(expected).concat("' but found '").concat(
        excerpt,
    ).concat("'");
    JsonError::SyntaxError(msg)
}

/// Parses the literal `true`: the input must start with exactly that word,
/// followed by a delimiter or the end of the input, and the remainder starts
/// right after it; anything else is a syntax error.
pub fn parse_true(source: &str) -> (res: Result<(Json, &str), JsonError>)
    ensures
        match sp_true(source@) {
            Ok((v, rest)) => res matches Ok(p) && p.0@ == v && p.1@ == rest,
            Err(k) => res matches Err(e) && error_kind(e) == k,
        },
        res matches Ok(p) ==> p.1@.len() <= source@.len(),
{
    let n: usize = source.unicode_len();
    if n >= 4 && source.get_char(0) == 't' && source.get_char(1) == 'r' && source.get_char(2)
        == 'u' && source.get_char(3) == 'e' {
        let next: Option<char> = if n > 4 {
            Some(source.get_char(4))
        } else {
            None
        };
        if is_json_delim(next) {
            proof {
                assert(source@.take(4) =~= true_chars());
            }
            let rest = source.substring_char(4, n);
            proof {
                assert(rest@ =~= source@.skip(4));
            }
            return Ok((Json::JsonBoolean(true), rest));
        }
        return Err(literal_error(source, "true", 8));
    }
    proof {
        if keyword_at(source@, true_chars()) {
            assert(source@.take(4)[0] == 't');
            assert(source@.take(4)[1] == 'r');
            assert(source@.take(4)[2] == 'u');
            assert(source@.take(4)[3] == 'e');
            assert(false);
        }
    }
    Err(literal_error(source, "true", 4))
}

/// Parses the literal `false`, in the same way as [`parse_true`].
pub fn parse_false(source: &str) -> (res: Result<(Json, &str), JsonError>)
    ensures
        match sp_false(source@) {
            Ok((v, rest)) => res matches Ok(p) && p.0@ == v && p.1@ == rest,
            Err(k) => res matches Err(e) && error_kind(e) == k,
        },
        res matches Ok(p) ==> p.1@.len() <= source@.len(),
{
    let n: usize = source.unicode_len();
    if n >= 5 && source.get_char(0) == 'f' && source.get_char(1) == 'a' && source.get_char(2)
        == 'l' && source.get_char(3) == 's' && source.get_char(4) == 'e' {
        let next: Option<char> = if n > 5 {
            Some(source.get_char(5))
        } else {
            None
        };
        if is_json_delim(next) {
            proof {
                assert(source@.take(5) =~= false_chars());
            }
            let rest = source.substring_char(5, n);
            proof {
                assert(rest@ =~= source@.skip(5));
            }
            return Ok((Json::JsonBoolean(false), rest));
        }
        return Err(literal_error(source, "false", 9));
    }
    proof {
        if keyword_at(source@, false_chars()) {
            assert(source@.take(5)[0] == 'f');
            assert(source@.take(5)[1] == 'a');
            assert(source@.take(5)[2] == 'l');
            assert(source@.take(5)[3] == 's');
            assert(source@.take(5)[4] == 'e');
            assert(false);
        }
    }
    Err(literal_error(source, "false", 5))
}

/// Parses the literal `null`, in the same way as [`parse_true`].
pub fn parse_null(source: &str) -> (res: Result<(Json, &str), JsonError>)
    ensures
        match sp_null(source@) {
            Ok((v, rest)) => res matches Ok(p) && p.0@ == v && p.1@ == rest,
            Err(k) => res matches Err(e) && error_kind(e) == k,
        },
        res matches Ok(p) ==> p.1@.len() <= source@.len(),
{
    let n: usize = source.unicode_len();
    if n >= 4 && source.get_char(0) == 'n' && source.get_char(1) == 'u' && source.get_char(2)
        == 'l' && source.get_char(3) == 'l' {
        let next: Option<char> = if n > 4 {
            Some(source.get_char(4))
        } else {
            None
        };
        if is_json_delim(next) {
            proof {
                assert(source@.take(4) =~= null_chars());
            }
            let rest = source.substring_char(4, n);
            proof {
                assert(rest@ =~= source@.skip(4));
            }
            return Ok((Json::JsonNull, rest));
        }
        return Err(literal_error(source, "null", 8));
    }
    proof {
        if keyword_at(source@, null_chars()) {
            assert(source@.take(4)[0] == 'n');
            assert(source@.take(4)[1] == 'u');
            assert(source@.take(4)[2] == 'l');
            assert(source@.take(4)[3] == 'l');
            assert(false);
        }
    }
    Err(literal_error(source, "null", 4))
}

} // verus!
