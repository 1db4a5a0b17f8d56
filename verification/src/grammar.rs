//! The spec-level grammar: a deterministic, total description of what every
//! parsing function of this crate returns.
//!
//! Each function takes the remaining input as a sequence of characters and
//! yields either the parsed [`JsonRep`] value together with the unconsumed
//! remainder, or the kind of error the parser reports. The executable
//! parsers are verified to return exactly these results.
//!
//! The recursive descent for objects and arrays is mutually recursive. To
//! make termination of the definitions evident, the remainder coming back
//! from a sub-parse is passed through [`tail_within`], which clamps it to the
//! length of the current input. Sub-parses never grow the input (their
//! remainder is always a suffix of it), so the clamp is the identity wherever
//! it is applied; it only makes the shrinking measure syntactic.

use vstd::prelude::*;
use vstd::utf8::is_scalar;
use crate::model::{JsonErrorKind, JsonRep, obj_insert};
use crate::utils::{spec_ws_char, ws_suffix};

verus! {

/// The outcome of one spec-level parse step: the value and the unconsumed
/// remainder, or the kind of error.
pub type SpecParsed = Result<(JsonRep, Seq<char>), JsonErrorKind>;

/// `t` if it is no longer than `s`, else `s`. Used on sub-parse remainders,
/// where it is the identity (a remainder is a suffix of the sub-parse
/// input); see the module documentation.
pub open spec fn tail_within(s: Seq<char>, t: Seq<char>) -> Seq<char> {
    if t.len() <= s.len() {
        t
    } else {
        s
    }
}

/// The characters accepted after a literal token: end of input, a structural
/// character, or whitespace.
pub open spec fn spec_delim(c: char) -> bool {
    c == ',' || c == '}' || c == ']' || c == ':' || spec_ws_char(c)
}

/// Whether `s` starts with the exact word `kw` followed by a delimiter or
/// the end of the input.
pub open spec fn keyword_at(s: Seq<char>, kw: Seq<char>) -> bool {
    &&& s.len() >= kw.len()
    &&& s.take(kw.len() as int) == kw
    &&& (s.len() == kw.len() || spec_delim(s[kw.len() as int]))
}

/// The characters of the token `true`.
pub open spec fn true_chars() -> Seq<char> {
    seq!['t', 'r', 'u', 'e']
}

/// The characters of the token `false`.
pub open spec fn false_chars() -> Seq<char> {
    seq!['f', 'a', 'l', 's', 'e']
}

/// The characters of the token `null`.
pub open spec fn null_chars() -> Seq<char> {
    seq!['n', 'u', 'l', 'l']
}

/// What parsing the literal `true` yields.
pub open spec fn sp_true(s: Seq<char>) -> SpecParsed {
    if keyword_at(s, true_chars()) {
        Ok((JsonRep::Bool(true), s.skip(4)))
    } else {
        Err(JsonErrorKind::Syntax)
    }
}

/// What parsing the literal `false` yields.
pub open spec fn sp_false(s: Seq<char>) -> SpecParsed {
    if keyword_at(s, false_chars()) {
        Ok((JsonRep::Bool(false), s.skip(5)))
    } else {
        Err(JsonErrorKind::Syntax)
    }
}

/// What parsing the literal `null` yields.
pub open spec fn sp_null(s: Seq<char>) -> SpecParsed {
    if keyword_at(s, null_chars()) {
        Ok((JsonRep::Null, s.skip(4)))
    } else {
        Err(JsonErrorKind::Syntax)
    }
}

/// An ASCII decimal digit.
pub open spec fn spec_digit(c: char) -> bool {
    '0' <= c && c <= '9'
}

/// The number of consecutive ASCII digits of `s` starting at position `i`.
pub open spec fn digits_run(s: Seq<char>, i: int) -> int
    decreases s.len() - i,
{
    if 0 <= i < s.len() && spec_digit(s[i]) {
        1 + digits_run(s, i + 1)
    } else {
        0
    }
}

/// A digit run covers exactly the digits from its start to the first
/// non-digit (or the end of the input).
pub broadcast proof fn lemma_digits_run(s: Seq<char>, i: int)
    requires
        0 <= i <= s.len(),
    ensures
        0 <= #[trigger] digits_run(s, i),
        i + digits_run(s, i) <= s.len(),
        forall|k: int| i <= k < i + digits_run(s, i) ==> spec_digit(s[k]),
        i + digits_run(s, i) == s.len() || !spec_digit(s[i + digits_run(s, i)]),
    decreases s.len() - i,
{
    if i < s.len() && spec_digit(s[i]) {
        lemma_digits_run(s, i + 1);
    }
}

/// The length of the number token at the start of `s` under the strict JSON
/// numeric grammar, or the kind of error the token is rejected with:
/// a leading dot, a leading zero followed by a digit, a dot or exponent
/// marker without following digits, a token with no digits at all, and a
/// token whose only digits sit in the exponent are all rejected as syntax
/// errors.
pub open spec fn num_scan(s: Seq<char>) -> Result<int, JsonErrorKind> {
    if s.len() > 0 && s[0] == '.' {
        Err(JsonErrorKind::Syntax)
    } else {
        let i0: int = if s.len() > 0 && s[0] == '-' {
            1
        } else {
            0
        };
        if i0 < s.len() && s[i0] == '0' && i0 + 1 < s.len() && spec_digit(s[i0 + 1]) {
            Err(JsonErrorKind::Syntax)
        } else {
            let has_int = i0 < s.len() && spec_digit(s[i0]);
            let i1 = i0 + digits_run(s, i0);
            if i1 < s.len() && s[i1] == '.' && digits_run(s, i1 + 1) == 0 {
                Err(JsonErrorKind::Syntax)
            } else {
                let has_frac = i1 < s.len() && s[i1] == '.';
                let i2 = if has_frac {
                    i1 + 1 + digits_run(s, i1 + 1)
                } else {
                    i1
                };
                if i2 < s.len() && (s[i2] == 'e' || s[i2] == 'E') {
                    let i3 = if i2 + 1 < s.len() && (s[i2 + 1] == '+' || s[i2 + 1] == '-') {
                        i2 + 2
                    } else {
                        i2 + 1
                    };
                    if digits_run(s, i3) == 0 {
                        Err(JsonErrorKind::Syntax)
                    } else if has_int || has_frac {
                        Ok(i3 + digits_run(s, i3))
                    } else {
                        Err(JsonErrorKind::Syntax)
                    }
                } else if has_int || has_frac {
                    Ok(i2)
                } else {
                    Err(JsonErrorKind::Syntax)
                }
            }
        }
    }
}

/// An accepted number token is nonempty and lies within the input.
pub broadcast proof fn lemma_num_scan_bounds(s: Seq<char>)
    ensures
        (#[trigger] num_scan(s)) matches Ok(end) ==> 1 <= end <= s.len(),
{
    if s.len() > 0 && s[0] == '.' {
    } else {
        let i0: int = if s.len() > 0 && s[0] == '-' {
            1
        } else {
            0
        };
        if i0 <= s.len() {
            lemma_digits_run(s, i0);
            let i1 = i0 + digits_run(s, i0);
            if i1 + 1 <= s.len() {
                lemma_digits_run(s, i1 + 1);
            }
            let i2 = if i1 < s.len() && s[i1] == '.' {
                i1 + 1 + digits_run(s, i1 + 1)
            } else {
                i1
            };
            if i2 < s.len() && (s[i2] == 'e' || s[i2] == 'E') {
                let i3 = if i2 + 1 < s.len() && (s[i2 + 1] == '+' || s[i2 + 1] == '-') {
                    i2 + 2
                } else {
                    i2 + 1
                };
                if i3 <= s.len() {
                    lemma_digits_run(s, i3);
                }
            }
        }
    }
}

/// What parsing a number token yields: the validated literal text itself,
/// kept verbatim as the payload of the value, and the remainder right after
/// the token.
pub open spec fn sp_number(s: Seq<char>) -> SpecParsed {
    match num_scan(s) {
        Ok(end) => Ok((JsonRep::Num(s.take(end)), s.skip(end))),
        Err(k) => Err(k),
    }
}

/// The single-character escapes: the escaped character stands for itself for
/// quote, backslash and slash, and for the usual control characters after
/// `b`, `f`, `n`, `r`, `t`.
pub open spec fn spec_escape_char(c: char) -> Option<char> {
    if c == '"' {
        Some('"')
    } else if c == '\\' {
        Some('\\')
    } else if c == '/' {
        Some('/')
    } else if c == 'b' {
        Some('\u{0008}')
    } else if c == 'f' {
        Some('\u{000C}')
    } else if c == 'n' {
        Some('\n')
    } else if c == 'r' {
        Some('\r')
    } else if c == 't' {
        Some('\t')
    } else {
        None
    }
}

/// An ASCII hexadecimal digit.
pub open spec fn spec_hex_digit(c: char) -> bool {
    ('0' <= c && c <= '9') || ('a' <= c && c <= 'f') || ('A' <= c && c <= 'F')
}

/// The value of an ASCII hexadecimal digit.
pub open spec fn spec_hex_val(c: char) -> int {
    if '0' <= c && c <= '9' {
        c as int - '0' as int
    } else if 'a' <= c && c <= 'f' {
        10 + c as int - 'a' as int
    } else {
        10 + c as int - 'A' as int
    }
}

/// The code point named by exactly four hexadecimal digits, if all four
/// characters are hexadecimal digits.
pub open spec fn spec_hex4(s: Seq<char>) -> Option<u32> {
    if s.len() == 4 && spec_hex_digit(s[0]) && spec_hex_digit(s[1]) && spec_hex_digit(s[2])
        && spec_hex_digit(s[3]) {
        Some(
            ((spec_hex_val(s[0]) * 4096 + spec_hex_val(s[1]) * 256 + spec_hex_val(s[2]) * 16
                + spec_hex_val(s[3])) as u32),
        )
    } else {
        None
    }
}

/// The character named by the first four characters of `s` read as a `\u`
/// escape group: they must all be hexadecimal digits and name a Unicode
/// scalar value (surrogates are rejected).
pub open spec fn hex4_char(s: Seq<char>) -> Option<char> {
    if s.len() < 4 {
        None
    } else {
        match spec_hex4(s.take(4)) {
            Some(code) => if is_scalar(code) {
                Some(code as char)
            } else {
                None
            },
            None => None,
        }
    }
}

/// Prepends already-decoded characters to the text of a string-body result.
pub open spec fn prepend_decoded(p: Seq<char>, r: Result<(Seq<char>, int), JsonErrorKind>) -> Result<
    (Seq<char>, int),
    JsonErrorKind,
> {
    match r {
        Ok((t, e)) => Ok((p + t, e)),
        Err(k) => Err(k),
    }
}

/// Prepending distributes over consing one decoded character.
pub proof fn lemma_prepend_cons(p: Seq<char>, c: char, r: Result<(Seq<char>, int), JsonErrorKind>)
    ensures
        prepend_decoded(p, cons_decoded(c, r)) == prepend_decoded(p.push(c), r),
{
    match r {
        Ok((t, e)) => {
            assert(p + (seq![c] + t) =~= p.push(c) + t);
        },
        Err(_) => {},
    }
}

/// Prepends one decoded character to the text of a string-body result.
pub open spec fn cons_decoded(c: char, r: Result<(Seq<char>, int), JsonErrorKind>) -> Result<
    (Seq<char>, int),
    JsonErrorKind,
> {
    match r {
        Ok((t, e)) => Ok((seq![c] + t, e)),
        Err(k) => Err(k),
    }
}

/// The decoded content of a string token read from position `i` (just past
/// the opening quote), together with the position just past the closing
/// quote. An unescaped quote ends the string; a backslash starts an escape;
/// `\u` consumes four hexadecimal digits naming a code point in the Basic
/// Multilingual Plane (a surrogate, a short or non-hexadecimal group is a
/// lexical error, as is an unknown escape character); running out of input
/// before the closing quote is a syntax error.
pub open spec fn str_body(s: Seq<char>, i: int) -> Result<(Seq<char>, int), JsonErrorKind>
    decreases s.len() - i,
{
    if i < 0 || i >= s.len() {
        Err(JsonErrorKind::Syntax)
    } else if s[i] == '"' {
        Ok((Seq::empty(), i + 1))
    } else if s[i] == '\\' {
        if i + 1 >= s.len() {
            Err(JsonErrorKind::Syntax)
        } else if s[i + 1] == 'u' {
            if i + 6 > s.len() {
                Err(JsonErrorKind::Lexical)
            } else {
                match spec_hex4(s.subrange(i + 2, i + 6)) {
                    Some(code) => if is_scalar(code) {
                        cons_decoded(code as char, str_body(s, i + 6))
                    } else {
                        Err(JsonErrorKind::Lexical)
                    },
                    None => Err(JsonErrorKind::Lexical),
                }
            }
        } else {
            match spec_escape_char(s[i + 1]) {
                Some(c) => cons_decoded(c, str_body(s, i + 2)),
                None => Err(JsonErrorKind::Lexical),
            }
        }
    } else {
        cons_decoded(s[i], str_body(s, i + 1))
    }
}

/// A completed string body ends within the input, past its start.
pub broadcast proof fn lemma_str_body_bounds(s: Seq<char>, i: int)
    ensures
        (#[trigger] str_body(s, i)) matches Ok(r) ==> i + 1 <= r.1 <= s.len(),
    decreases s.len() - i,
{
    if i < 0 || i >= s.len() {
    } else if s[i] == '"' {
    } else if s[i] == '\\' {
        if i + 2 <= s.len() {
            lemma_str_body_bounds(s, i + 2);
        }
        if i + 6 <= s.len() {
            lemma_str_body_bounds(s, i + 6);
        }
    } else {
        lemma_str_body_bounds(s, i + 1);
    }
}

/// What parsing a string token yields: the input must start with a quote,
/// and the body is decoded by [`str_body`].
pub open spec fn sp_string(s: Seq<char>) -> SpecParsed {
    if s.len() == 0 || s[0] != '"' {
        Err(JsonErrorKind::Syntax)
    } else {
        match str_body(s, 1) {
            Ok((t, e)) => Ok((JsonRep::Text(t), s.skip(e))),
            Err(k) => Err(k),
        }
    }
}

/// The first position at or past `i` holding a quote, if any.
pub open spec fn first_quote(s: Seq<char>, i: int) -> Option<int>
    decreases s.len() - i,
{
    if i < 0 || i >= s.len() {
        None
    } else if s[i] == '"' {
        Some(i)
    } else {
        first_quote(s, i + 1)
    }
}

/// A found quote is the first one at or past the start position.
pub broadcast proof fn lemma_first_quote(s: Seq<char>, i: int)
    requires
        0 <= i,
    ensures
        (#[trigger] first_quote(s, i)) matches Some(k) ==> i <= k < s.len() && s[k] == '"'
            && (forall|j: int| i <= j < k ==> s[j] != '"'),
        first_quote(s, i) is None ==> forall|j: int| i <= j < s.len() ==> s[j] != '"',
    decreases s.len() - i,
{
    if 0 <= i < s.len() && s[i] != '"' {
        lemma_first_quote(s, i + 1);
    }
}

/// What parsing an object field name yields: after leading whitespace, a
/// quote, then the characters up to the next quote, taken verbatim (the
/// field-name scanner interprets no escapes), then the closing quote. The
/// name and the remainder past the closing quote are returned; a missing
/// opening or closing quote is a syntax error.
pub open spec fn sp_field(s: Seq<char>) -> Result<(Seq<char>, Seq<char>), JsonErrorKind> {
    let t = ws_suffix(s);
    if t.len() == 0 || t[0] != '"' {
        Err(JsonErrorKind::Syntax)
    } else {
        match first_quote(t, 1) {
            Some(k) => Ok((t.subrange(1, k), t.skip(k + 1))),
            None => Err(JsonErrorKind::Syntax),
        }
    }
}

/// What parsing a whole document yields: skip leading whitespace; blank
/// input is the `Empty` sentinel with an empty remainder; otherwise the
/// first character selects the sub-parser — `{` an object, `[` an array,
/// `"` a string, `t`, `f`, `n` the literals, and anything else a number —
/// whose result is passed through unchanged.
pub open spec fn sp_parse(s: Seq<char>) -> SpecParsed
    decreases s.len(), 3int,
{
    let t = tail_within(s, ws_suffix(s));
    if t.len() == 0 {
        Ok((JsonRep::Empty, Seq::empty()))
    } else if t[0] == '{' {
        sp_object(t)
    } else if t[0] == '[' {
        sp_array(t)
    } else if t[0] == '"' {
        sp_string(t)
    } else if t[0] == 't' {
        sp_true(t)
    } else if t[0] == 'f' {
        sp_false(t)
    } else if t[0] == 'n' {
        sp_null(t)
    } else {
        sp_number(t)
    }
}

/// What parsing an object yields: after leading whitespace an opening
/// brace, then the entry list.
pub open spec fn sp_object(s: Seq<char>) -> SpecParsed
    decreases s.len(), 2int,
{
    let t = tail_within(s, ws_suffix(s));
    if t.len() == 0 || t[0] != '{' {
        Err(JsonErrorKind::Syntax)
    } else {
        sp_obj_entries(t.drop_first(), Seq::empty())
    }
}

/// The entry list of an object, with the entries parsed so far in `acc`:
/// a closing brace ends the object; otherwise a field name, a colon and a
/// value follow, the entry is inserted with last-write-wins resolution, and
/// a comma continues the list (a comma directly followed by the closing
/// brace is a trailing-comma syntax error) while a closing brace ends it.
/// Running out of input before the brace, or any other character after an
/// entry, is a syntax error.
pub open spec fn sp_obj_entries(s: Seq<char>, acc: Seq<(Seq<char>, JsonRep)>) -> SpecParsed
    decreases s.len(), 4int,
{
    let t = tail_within(s, ws_suffix(s));
    if t.len() > 0 && t[0] == '}' {
        Ok((JsonRep::Obj(acc), t.drop_first()))
    } else {
        match sp_field(t) {
            Err(k) => Err(k),
            Ok((name, field_rest)) => {
                let r1 = tail_within(t, field_rest);
                let r2 = tail_within(r1, ws_suffix(r1));
                if r2.len() == 0 || r2[0] != ':' {
                    Err(JsonErrorKind::Syntax)
                } else {
                    let r3 = tail_within(r2.drop_first(), ws_suffix(r2.drop_first()));
                    match sp_parse(r3) {
                        Err(k) => Err(k),
                        Ok((v, value_rest)) => {
                            let acc2 = obj_insert(acc, name, v);
                            let r4 = tail_within(r3, value_rest);
                            let r5 = tail_within(r4, ws_suffix(r4));
                            if r5.len() > 0 && r5[0] == ',' {
                                let r6 = tail_within(
                                    r5.drop_first(),
                                    ws_suffix(r5.drop_first()),
                                );
                                if r6.len() > 0 && r6[0] == '}' {
                                    Err(JsonErrorKind::Syntax)
                                } else {
                                    sp_obj_entries(r6, acc2)
                                }
                            } else if r5.len() > 0 && r5[0] == '}' {
                                Ok((JsonRep::Obj(acc2), r5.drop_first()))
                            } else {
                                Err(JsonErrorKind::Syntax)
                            }
                        },
                    }
                }
            },
        }
    }
}

/// What parsing an array yields: after leading whitespace an opening
/// bracket; a closing bracket right after it (modulo whitespace) is the
/// empty array, and otherwise the element list follows.
pub open spec fn sp_array(s: Seq<char>) -> SpecParsed
    decreases s.len(), 2int,
{
    let t = tail_within(s, ws_suffix(s));
    if t.len() == 0 || t[0] != '[' {
        Err(JsonErrorKind::Syntax)
    } else {
        let u = tail_within(t.drop_first(), ws_suffix(t.drop_first()));
        if u.len() > 0 && u[0] == ']' {
            Ok((JsonRep::Arr(Seq::empty()), u.drop_first()))
        } else {
            sp_arr_items(u, Seq::empty())
        }
    }
}

/// The element list of a nonempty array, with the elements parsed so far in
/// `acc`: one value is parsed, then a comma continues the list (a comma
/// directly followed by the closing bracket is a trailing-comma syntax
/// error) while a closing bracket ends it; anything else after a value is a
/// missing-comma syntax error.
pub open spec fn sp_arr_items(s: Seq<char>, acc: Seq<JsonRep>) -> SpecParsed
    decreases s.len(), 4int,
{
    match sp_parse(s) {
        Err(k) => Err(k),
        Ok((v, value_rest)) => {
            let acc2 = acc.push(v);
            let r1 = tail_within(s, value_rest);
            let r2 = tail_within(r1, ws_suffix(r1));
            if r2.len() > 0 && r2[0] == ',' {
                let r3 = tail_within(r2.drop_first(), ws_suffix(r2.drop_first()));
                if r3.len() > 0 && r3[0] == ']' {
                    Err(JsonErrorKind::Syntax)
                } else {
                    sp_arr_items(r3, acc2)
                }
            } else if r2.len() > 0 && r2[0] == ']' {
                Ok((JsonRep::Arr(acc2), r2.drop_first()))
            } else {
                Err(JsonErrorKind::Syntax)
            }
        },
    }
}

} // verus!
