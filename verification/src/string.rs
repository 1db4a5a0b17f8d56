//! The string parser: quoted tokens with backslash escapes and `\uXXXX`
//! groups naming code points in the Basic Multilingual Plane.

use vstd::prelude::*;
use vstd::string::{StrSliceExecFns, StringExecFns};
use vstd::utf8::is_scalar;
use crate::grammar::{
    cons_decoded, hex4_char, lemma_prepend_cons, lemma_str_body_bounds, prepend_decoded, sp_string,
    spec_escape_char, spec_hex4, spec_hex_digit, spec_hex_val, str_body,
};
use crate::model::JsonErrorKind;
use crate::utils::{char_from_u32, chars_to_string};
use crate::value::{error_kind, Json, JsonError};

verus! {

/// The value of an ASCII hexadecimal digit, or `None` for any other
/// character.
fn hex_val(c: char) -> (r: Option<u32>)
    ensures
        r is Some <==> spec_hex_digit(c),
        r matches Some(v) ==> v == spec_hex_val(c) && v < 16,
{
    if '0' <= c && c <= '9' {
        Some(c as u32 - '0' as u32)
    } else if 'a' <= c && c <= 'f' {
        Some(10 + c as u32 - 'a' as u32)
    } else if 'A' <= c && c <= 'F' {
        Some(10 + c as u32 - 'A' as u32)
    } else {
        None
    }
}

/// Decodes the first four characters of `s` as a `\u` escape group: exactly
/// four hexadecimal digits naming a code point in the Basic Multilingual
/// Plane. Yields `None` on a short input, a non-hexadecimal character, or a
/// surrogate code point.
pub fn parse_utf8_hex(s: &str) -> (r: Option<char>)
    ensures
        r == hex4_char(s@),
{
    let n: usize = s.unicode_len();
    if n < 4 {
        return None;
    }
    let h0 = hex_val(s.get_char(0));
    let h1 = hex_val(s.get_char(1));
    let h2 = hex_val(s.get_char(2));
    let h3 = hex_val(s.get_char(3));
    match (h0, h1, h2, h3) {
        (Some(a), Some(b), Some(c), Some(d)) => {
            let code: u32 = a * 4096 + b * 256 + c * 16 + d;
            proof {
                assert(s@.take(4)[0] == s@[0]);
                assert(s@.take(4)[1] == s@[1]);
                assert(s@.take(4)[2] == s@[2]);
                assert(s@.take(4)[3] == s@[3]);
                assert(spec_hex4(s@.take(4)) == Some(code));
            }
            if code < 0xD800 || code >= 0xE000 {
                match char_from_u32(code) {
                    Some(ch) => {
                        proof {
                            vstd::utf8::char_u32_cast(ch, code);
                        }
                        Some(ch)
                    },
                    None => None,
                }
            } else {
                proof {
                    assert(!is_scalar(code));
                }
                None
            }
        },
        _ => {
            proof {
                assert(s@.take(4)[0] == s@[0]);
                assert(s@.take(4)[1] == s@[1]);
                assert(s@.take(4)[2] == s@[2]);
                assert(s@.take(4)[3] == s@[3]);
            }
            None
        },
    }
}

/// The single-character escapes: quote, backslash and slash stand for
/// themselves; `b`, `f`, `n`, `r`, `t` stand for backspace, form feed, line
/// feed, carriage return and tab. Any other escape character yields `None`.
pub fn parse_escape_char(c: char) -> (r: Option<char>)
    ensures
        r == spec_escape_char(c),
{
    match c {
        '"' => Some('"'),
        '\\' => Some('\\'),
        '/' => Some('/'),
        'b' => Some('\u{0008}'),
        'f' => Some('\u{000C}'),
        'n' => Some('\n'),
        'r' => Some('\r'),
        't' => Some('\t'),
        _ => None,
    }
}

/// Parses a string token: the input must start with a quote; characters are
/// accumulated with escapes decoded until an unescaped closing quote, whose
/// remainder starts right after it. A malformed escape or `\u` group is a
/// lexical error; a missing opening quote or running out of input before
/// the closing quote is a syntax error.
pub fn parse_string(source: &str) -> (res: Result<(Json, &str), JsonError>)
    ensures
        match sp_string(source@) {
            Ok((v, rest)) => res matches Ok(p) && p.0@ == v && p.1@ == rest,
            Err(k) => res matches Err(e) && error_kind(e) == k,
        },
        res matches Ok(p) ==> p.1@.len() <= source@.len(),
{
    let n: usize = source.unicode_len();
    if n == 0 {
        return Err(
            JsonError::SyntaxError("Unexpected end of input while parsing string".to_owned()),
        );
    }
    if source.get_char(0) != '"' {
        let found = source.substring_char(0, 1);
        let msg = "Expected '\"' at start of string, found '".to_owned().concat(found).concat(
            "'",
        );
        return Err(JsonError::SyntaxError(msg));
    }
    let mut out: Vec<char> = Vec::new();
    let mut i: usize = 1;
    loop
        invariant
            1 <= i <= n,
            n == source@.len(),
            source@.len() > 0 && source@[0] == '"',
            str_body(source@, 1) == prepend_decoded(out@, str_body(source@, i as int)),
        decreases n - i,
    {
        if i >= n {
            let msg = "Invalid string : ".to_owned().concat(source);
            return Err(JsonError::SyntaxError(msg));
        }
        let c = source.get_char(i);
        if c == '"' {
            proof {
                assert(out@ + Seq::<char>::empty() =~= out@);
                lemma_str_body_bounds(source@, 1);
            }
            let text = chars_to_string(&out);
            let rest = source.substring_char(i + 1, n);
            proof {
                assert(rest@ =~= source@.skip(i + 1));
            }
            return Ok((Json::JsonString(text), rest));
        } else if c == '\\' {
            if i + 1 >= n {
                let msg = "Invalid string : ".to_owned().concat(source);
                return Err(JsonError::SyntaxError(msg));
            }
            let e = source.get_char(i + 1);
            if e == 'u' {
                if n - i < 6 {
                    return Err(
                        JsonError::LexicalError(
                            "Invalid escape character in utf-8 hex : u".to_owned(),
                        ),
                    );
                }
                let quad = source.substring_char(i + 2, i + 6);
                proof {
                    assert(quad@ =~= source@.subrange(i + 2, i + 6));
                    assert(quad@.take(4) =~= quad@);
                }
                match parse_utf8_hex(quad) {
                    Some(ch) => {
                        proof {
                            assert(str_body(source@, i as int) == cons_decoded(
                                ch,
                                str_body(source@, i + 6),
                            ));
                            lemma_prepend_cons(out@, ch, str_body(source@, i + 6));
                        }
                        out.push(ch);
                        i = i + 6;
                    },
                    None => {
                        return Err(
                            JsonError::LexicalError(
                                "Invalid escape character in utf-8 hex : u".to_owned(),
                            ),
                        );
                    },
                }
            } else {
                match parse_escape_char(e) {
                    Some(ch) => {
                        proof {
                            lemma_prepend_cons(out@, ch, str_body(source@, i + 2));
                        }
                        out.push(ch);
                        i = i + 2;
                    },
                    None => {
                        let found = source.substring_char(i + 1, i + 2);
                        let msg = "Invalid escape character : ".to_owned().concat(found);
                        return Err(JsonError::LexicalError(msg));
                    },
                }
            }
        } else {
            proof {
                lemma_prepend_cons(out@, c, str_body(source@, i + 1));
            }
            out.push(c);
            i = i + 1;
        }
    }
}

} // verus!
