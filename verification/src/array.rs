//! The array parser: `[` … `]` with comma-separated elements.

use vstd::prelude::*;
use vstd::string::{StrSliceExecFns, StringExecFns};
use crate::grammar::{sp_arr_items, sp_array};
use crate::model::JsonRep;
use crate::parser::parse;
use crate::utils::{ignore_ws, ws_suffix};
use crate::value::{elems_rep, error_kind, lemma_elems_rep, Json, JsonError};

verus! {

broadcast use crate::utils::lemma_ws_suffix;

/// Parses an array: after leading whitespace an opening bracket, then
/// comma-separated elements until the closing bracket. A comma directly
/// before the closing bracket is a trailing-comma syntax error, and a value
/// not followed by a comma or the closing bracket is a missing-comma syntax
/// error.
pub fn parse_array(source: &str) -> (res: Result<(Json, &str), JsonError>)
    ensures
        match sp_array(source@) {
            Ok((v, rest)) => res matches Ok(p) && p.0@ == v && p.1@ == rest,
            Err(k) => res matches Err(e) && error_kind(e) == k,
        },
        res matches Ok(p) ==> p.1@.len() <= source@.len(),
    decreases source@.len(), 2int,
{
    let mut s: &str = ignore_ws(source);
    let n0: usize = s.unicode_len();
    if n0 == 0 || s.get_char(0) != '[' {
        return Err(JsonError::SyntaxError("Expected '[' at start of array".to_owned()));
    }
    let after_bracket = s.substring_char(1, n0);
    proof {
        assert(after_bracket@ =~= ws_suffix(source@).drop_first());
    }
    s = ignore_ws(after_bracket);
    let mut items: Vec<Json> = Vec::new();
    let n1: usize = s.unicode_len();
    if n1 > 0 && s.get_char(0) == ']' {
        let rest = s.substring_char(1, n1);
        proof {
            assert(rest@ =~= s@.drop_first());
            assert(elems_rep(items@) =~= Seq::<JsonRep>::empty());
        }
        return Ok((Json::JsonArray(items), rest));
    }
    let ghost target = sp_array(source@);
    proof {
        assert(elems_rep(items@) =~= Seq::<JsonRep>::empty());
        assert(sp_arr_items(s@, elems_rep(items@)) == target);
    }
    loop
        invariant
            s@.len() < source@.len(),
            sp_arr_items(s@, elems_rep(items@)) == target,
            sp_array(source@) == target,
        decreases s@.len(),
    {
        match parse(s) {
            Err(e) => {
                return Err(e);
            },
            Ok((value, tail)) => {
                proof {
                    lemma_elems_rep(items@);
                    lemma_elems_rep(items@.push(value));
                    assert(elems_rep(items@.push(value)) =~= elems_rep(items@).push(value@));
                }
                items.push(value);
                s = ignore_ws(tail);
                let n2: usize = s.unicode_len();
                if n2 > 0 && s.get_char(0) == ',' {
                    let after_comma = s.substring_char(1, n2);
                    proof {
                        assert(after_comma@ =~= s@.drop_first());
                    }
                    let next = ignore_ws(after_comma);
                    if next.unicode_len() > 0 && next.get_char(0) == ']' {
                        return Err(
                            JsonError::SyntaxError(
                                "JSON Array should not end in a comma".to_owned(),
                            ),
                        );
                    }
                    s = next;
                } else if n2 > 0 && s.get_char(0) == ']' {
                    let rest = s.substring_char(1, n2);
                    proof {
                        assert(rest@ =~= s@.drop_first());
                    }
                    return Ok((Json::JsonArray(items), rest));
                } else {
                    return Err(
                        JsonError::SyntaxError(
                            "JSON Array should separate values with commas".to_owned(),
                        ),
                    );
                }
            },
        }
    }
}

} // verus!
