//! The number parser: strict JSON numeric-literal validation.

use vstd::prelude::*;
use vstd::string::{StrSliceExecFns, StringExecFns};
use crate::grammar::{digits_run, lemma_digits_run, num_scan, sp_number, spec_digit};
use crate::model::JsonErrorKind;
use crate::value::{error_kind, Json, JsonError};

verus! {

/// Whether `c` is an ASCII decimal digit.
fn is_digit(c: char) -> (b: bool)
    ensures
        b == spec_digit(c),
{
    '0' <= c && c <= '9'
}

/// Returns the position of the first non-digit character at or past `from`
/// (the end of the input if all remaining characters are digits).
fn scan_digits(source: &str, from: usize) -> (end: usize)
    requires
        from <= source@.len(),
    ensures
        end as int == from + digits_run(source@, from as int),
        end <= source@.len(),
{
    let n: usize = source.unicode_len();
    let mut j: usize = from;
    while j < n && is_digit(source.get_char(j))
        invariant
            from <= j <= n,
            n == source@.len(),
            digits_run(source@, from as int) == j - from + digits_run(source@, j as int),
        decreases n - j,
    {
        j = j + 1;
    }
    proof {
        lemma_digits_run(source@, j as int);
    }
    j
}

/// Parses a number token under the strict JSON numeric grammar, collapsing
/// every accepted literal to a [`Json::JsonNumber`] that carries the matched
/// text verbatim, with the remainder starting right after the last matched
/// character. Leading dots, leading zeros, missing fraction or exponent
/// digits, tokens without digits and tokens whose only digits sit in the
/// exponent are all rejected as syntax errors ([`num_scan`] states the
/// grammar exactly).
pub fn parse_number(source: &str) -> (res: Result<(Json, &str), JsonError>)
    ensures
        match sp_number(source@) {
            Ok((v, rest)) => res matches Ok(p) && p.0@ == v && p.1@ == rest,
            Err(k) => res matches Err(e) && error_kind(e) == k,
        },
        res matches Ok(p) ==> p.1@.len() <= source@.len(),
{
    let n: usize = source.unicode_len();
    if n > 0 && source.get_char(0) == '.' {
        return Err(JsonError::SyntaxError("Leading dot is not allowed".to_owned()));
    }
    let start: usize = if n > 0 && source.get_char(0) == '-' {
        1
    } else {
        0
    };
    if start < n && source.get_char(start) == '0' && start + 1 < n && is_digit(
        source.get_char(start + 1),
    ) {
        return Err(JsonError::SyntaxError("Leading zeros are not allowed".to_owned()));
    }
    let has_int = start < n && is_digit(source.get_char(start));
    let int_end = scan_digits(source, start);
    let has_frac = int_end < n && source.get_char(int_end) == '.';
    let mut end: usize = int_end;
    if has_frac {
        let frac_end = scan_digits(source, int_end + 1);
        if frac_end == int_end + 1 {
            return Err(JsonError::SyntaxError("Expected digits after decimal point".to_owned()));
        }
        end = frac_end;
    }
    if end < n && (source.get_char(end) == 'e' || source.get_char(end) == 'E') {
        let mut exp_start: usize = end + 1;
        if exp_start < n && (source.get_char(exp_start) == '+' || source.get_char(exp_start)
            == '-') {
            exp_start = exp_start + 1;
        }
        let exp_end = scan_digits(source, exp_start);
        if exp_end == exp_start {
            return Err(JsonError::SyntaxError("Expected digits in exponent".to_owned()));
        }
        if !(has_int || has_frac) {
            return Err(JsonError::SyntaxError("invalid float literal".to_owned()));
        }
        end = exp_end;
    } else if !(has_int || has_frac) {
        return Err(JsonError::SyntaxError("No digits found in number".to_owned()));
    }
    proof {
        assert(num_scan(source@) == Ok::<int, JsonErrorKind>(end as int));
    }
    let token = source.substring_char(0, end).to_owned();
    let rest = source.substring_char(end, n);
    proof {
        assert(token@ =~= source@.take(end as int));
        assert(rest@ =~= source@.skip(end as int));
    }
    Ok((Json::JsonNumber(token), rest))
}

} // verus!
