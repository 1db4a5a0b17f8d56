//! The object parser: `{` … `}` with quoted field names, colons, and
//! comma-separated entries resolved with last-write-wins.

use vstd::prelude::*;
use vstd::string::{StrSliceExecFns, StringExecFns};
use crate::grammar::{first_quote, sp_field, sp_obj_entries, sp_object};
use crate::model::{JsonErrorKind, JsonRep};
use crate::parser::parse;
use crate::utils::{ignore_ws, ws_suffix};
use crate::value::{entries_insert, error_kind, fields_rep, Json, JsonError};

verus! {

broadcast use crate::utils::lemma_ws_suffix;

/// Parses an object field name: after leading whitespace, a quote, the
/// characters up to the next quote taken verbatim (no escapes are
/// interpreted in field names), and the closing quote. The remainder starts
/// right after the closing quote; a missing quote on either side is a
/// syntax error.
pub fn parse_field(source: &str) -> (res: Result<(String, &str), JsonError>)
    ensures
        match sp_field(source@) {
            Ok((name, rest)) => res matches Ok(p) && p.0@ == name && p.1@ == rest,
            Err(k) => res matches Err(e) && error_kind(e) == k,
        },
        res matches Ok(p) ==> p.1@.len() < source@.len(),
{
    let s = ignore_ws(source);
    let n: usize = s.unicode_len();
    if n == 0 {
        return Err(
            JsonError::SyntaxError(
                "Expected a '\"' start of JSON object field but found end of string".to_owned(),
            ),
        );
    }
    if s.get_char(0) != '"' {
        let found = s.substring_char(0, 1);
        let msg = "Expected a '\"' as start of JSON object field but found '".to_owned().concat(
            found,
        ).concat("'");
        return Err(JsonError::SyntaxError(msg));
    }
    let mut k: usize = 1;
    while k < n && s.get_char(k) != '"'
        invariant
            1 <= k <= n,
            n == s@.len(),
            first_quote(s@, 1) == first_quote(s@, k as int),
        decreases n - k,
    {
        k = k + 1;
    }
    if k == n {
        return Err(JsonError::SyntaxError("Expected a '\"' but reached end of string".to_owned()));
    }
    let name = s.substring_char(1, k).to_owned();
    let rest = s.substring_char(k + 1, n);
    proof {
        assert(name@ =~= s@.subrange(1, k as int));
        assert(rest@ =~= s@.skip(k + 1));
    }
    Ok((name, rest))
}

/// Parses an object: after leading whitespace an opening brace, then
/// entries — a field name, a colon and a value each — separated by commas
/// until the closing brace. Duplicate keys are resolved with last-write-wins
/// (the most recently parsed value stays, at the key's first position); a
/// comma directly before the closing brace is a trailing-comma syntax
/// error, and running out of input before the brace is its own syntax
/// error.
pub fn parse_object(source: &str) -> (res: Result<(Json, &str), JsonError>)
    ensures
        match sp_object(source@) {
            Ok((v, rest)) => res matches Ok(p) && p.0@ == v && p.1@ == rest,
            Err(k) => res matches Err(e) && error_kind(e) == k,
        },
        res matches Ok(p) ==> p.1@.len() <= source@.len(),
    decreases source@.len(), 2int,
{
    let mut s: &str = ignore_ws(source);
    let n0: usize = s.unicode_len();
    if n0 == 0 || s.get_char(0) != '{' {
        return Err(JsonError::SyntaxError("Expected '{' at start of object".to_owned()));
    }
    s = s.substring_char(1, n0);
    proof {
        assert(s@ =~= ws_suffix(source@).drop_first());
    }
    let mut fields: Vec<(String, Json)> = Vec::new();
    let ghost target = sp_object(source@);
    proof {
        assert(fields_rep(fields@) =~= Seq::<(Seq<char>, JsonRep)>::empty());
        assert(sp_obj_entries(s@, fields_rep(fields@)) == target);
    }
    loop
        invariant
            s@.len() < source@.len(),
            sp_obj_entries(s@, fields_rep(fields@)) == target,
            sp_object(source@) == target,
        decreases s@.len(),
    {
        s = ignore_ws(s);
        let n: usize = s.unicode_len();
        if n > 0 && s.get_char(0) == '}' {
            let rest = s.substring_char(1, n);
            proof {
                assert(rest@ =~= s@.drop_first());
            }
            return Ok((Json::JsonObject(fields), rest));
        }
        match parse_field(s) {
            Err(e) => {
                return Err(e);
            },
            Ok((name, tail)) => {
                s = ignore_ws(tail);
                let n1: usize = s.unicode_len();
                if !(n1 > 0 && s.get_char(0) == ':') {
                    return Err(JsonError::SyntaxError("Expected ':' after field name".to_owned()));
                }
                let after_colon = s.substring_char(1, n1);
                proof {
                    assert(after_colon@ =~= s@.drop_first());
                }
                s = ignore_ws(after_colon);
                match parse(s) {
                    Err(e) => {
                        return Err(e);
                    },
                    Ok((value, tail2)) => {
                        entries_insert(&mut fields, name, value);
                        s = ignore_ws(tail2);
                        let n2: usize = s.unicode_len();
                        if n2 > 0 && s.get_char(0) == ',' {
                            let after_comma = s.substring_char(1, n2);
                            proof {
                                assert(after_comma@ =~= s@.drop_first());
                            }
                            let next = ignore_ws(after_comma);
                            if next.unicode_len() > 0 && next.get_char(0) == '}' {
                                return Err(
                                    JsonError::SyntaxError(
                                        "JSON object should not end in a comma".to_owned(),
                                    ),
                                );
                            }
                            s = next;
                        } else if n2 > 0 && s.get_char(0) == '}' {
                            let rest = s.substring_char(1, n2);
                            proof {
                                assert(rest@ =~= s@.drop_first());
                            }
                            return Ok((Json::JsonObject(fields), rest));
                        } else if n2 == 0 {
                            return Err(
                                JsonError::SyntaxError("Unexpected end of input in object".to_owned()),
                            );
                        } else {
                            let found = s.substring_char(0, 1);
                            let msg = "Unexpected character in object: '".to_owned().concat(
                                found,
                            ).concat("'");
                            return Err(JsonError::SyntaxError(msg));
                        }
                    },
                }
            },
        }
    }
}

} // verus!
