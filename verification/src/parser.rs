//! The dispatcher: the entry point of the parser.

use vstd::prelude::*;
use vstd::string::StrSliceExecFns;
use crate::array::parse_array;
use crate::grammar::sp_parse;
use crate::literals::{parse_false, parse_null, parse_true};
use crate::number::parse_number;
use crate::object::parse_object;
use crate::string::parse_string;
use crate::utils::ignore_ws;
use crate::value::{error_kind, Json, JsonError};

verus! {

broadcast use crate::utils::lemma_ws_suffix;

/// Parses one JSON value from the front of `source`: leading whitespace is
/// skipped; blank input succeeds with the `Empty` sentinel and an empty
/// remainder; otherwise the first significant character routes to the
/// matching sub-parser — `{` to the object parser, `[` to the array parser,
/// `"` to the string parser, `t`, `f`, `n` to the literal parsers and
/// anything else to the number parser — whose result, value and unconsumed
/// remainder or error, is returned unchanged.
pub fn parse(source: &str) -> (res: Result<(Json, &str), JsonError>)
    ensures
        match sp_parse(source@) {
            Ok((v, rest)) => res matches Ok(p) && p.0@ == v && p.1@ == rest,
            Err(k) => res matches Err(e) && error_kind(e) == k,
        },
        res matches Ok(p) ==> p.1@.len() <= source@.len(),
    decreases source@.len(), 3int,
{
    let s = ignore_ws(source);
    let n: usize = s.unicode_len();
    if n == 0 {
        proof {
            assert(s@ =~= Seq::<char>::empty());
        }
        return Ok((Json::JsonEmpty, s));
    }
    let c = s.get_char(0);
    if c == '{' {
        parse_object(s)
    } else if c == '[' {
        parse_array(s)
    } else if c == '"' {
        parse_string(s)
    } else if c == 't' {
        parse_true(s)
    } else if c == 'f' {
        parse_false(s)
    } else if c == 'n' {
        parse_null(s)
    } else {
        parse_number(s)
    }
}

} // verus!
