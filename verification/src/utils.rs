//! The whitespace-skipping primitive shared by every parser, and two small
//! trusted bridges to the standard library.

use vstd::prelude::*;
use vstd::string::StrSliceExecFns;
use vstd::utf8::is_scalar;

verus! {

/// Relies on `char::from_u32`: it returns the character for every Unicode
/// scalar value and `None` exactly for surrogates and values above the
/// code-point range.
#[verifier::external_body]
pub fn char_from_u32(code: u32) -> (r: Option<char>)
    ensures
        r is Some <==> is_scalar(code),
        r matches Some(c) ==> c as u32 == code,
{
    char::from_u32(code)
}

/// Relies on `String`'s `FromIterator` impl over `char`: collecting an
/// iterator yields exactly its characters, here the elements of `v`.
#[verifier::external_body]
pub fn chars_to_string(v: &Vec<char>) -> (r: String)
    ensures
        r@ == v@,
{
    v.iter().collect()
}

/// The four JSON whitespace characters: space, line feed, carriage return, tab.
pub open spec fn spec_ws_char(c: char) -> bool {
    c == ' ' || c == '\n' || c == '\r' || c == '\t'
}

/// The suffix of `s` that begins at the first character that is not JSON
/// whitespace (the whole of `s` if it does not start with whitespace, the
/// empty sequence if `s` is all whitespace).
pub open spec fn ws_suffix(s: Seq<char>) -> Seq<char>
    decreases s.len(),
{
    if s.len() > 0 && spec_ws_char(s[0]) {
        ws_suffix(s.drop_first())
    } else {
        s
    }
}

/// `ws_suffix` only removes whitespace from the front: the result is the
/// suffix of the input past a prefix of whitespace characters, and it begins
/// with a non-whitespace character whenever it is nonempty.
pub broadcast proof fn lemma_ws_suffix(s: Seq<char>)
    ensures
        (#[trigger] ws_suffix(s)).len() <= s.len(),
        ws_suffix(s) == s.skip(s.len() - ws_suffix(s).len()),
        ws_suffix(s).len() > 0 ==> !spec_ws_char(ws_suffix(s)[0]),
        forall|i: int| 0 <= i < s.len() - ws_suffix(s).len() ==> spec_ws_char(s[i]),
    decreases s.len(),
{
    if s.len() > 0 && spec_ws_char(s[0]) {
        lemma_ws_suffix(s.drop_first());
        assert(s.skip(s.len() - ws_suffix(s).len()) =~= s.drop_first().skip(
            s.drop_first().len() - ws_suffix(s.drop_first()).len(),
        ));
        assert forall|i: int| 0 <= i < s.len() - ws_suffix(s).len() implies spec_ws_char(
            s[i],
        ) by {
            if i > 0 {
                assert(s[i] == s.drop_first()[i - 1]);
            }
        }
    } else {
        assert(s.skip(0) =~= s);
    }
}

/// Skipping whitespace from an already-skipped span changes nothing.
pub proof fn lemma_ws_suffix_idempotent(s: Seq<char>)
    ensures
        ws_suffix(ws_suffix(s)) == ws_suffix(s),
{
    broadcast use lemma_ws_suffix;

}

/// Whether `c` is one of the four JSON whitespace characters.
pub fn is_ws(c: char) -> (b: bool)
    ensures
        b == spec_ws_char(c),
{
    c == '\u{0020}' || c == '\u{000A}' || c == '\u{000D}' || c == '\u{0009}'
}

/// Returns the span starting at the first non-whitespace character of
/// `source`; the original span if it starts with a non-whitespace character
/// or is empty.
pub fn ignore_ws(source: &str) -> (r: &str)
    ensures
        r@ == ws_suffix(source@),
{
    let n: usize = source.unicode_len();
    let mut i: usize = 0;
    proof {
        assert(source@.skip(0) =~= source@);
    }
    while i < n && is_ws(source.get_char(i))
        invariant
            i <= n,
            n == source@.len(),
            ws_suffix(source@) == ws_suffix(source@.skip(i as int)),
        decreases n - i,
    {
        proof {
            assert(source@.skip(i as int).drop_first() =~= source@.skip(i + 1));
        }
        i = i + 1;
    }
    proof {
        if i < n {
            assert(ws_suffix(source@.skip(i as int)) == source@.skip(i as int));
        } else {
            assert(source@.skip(i as int) =~= Seq::<char>::empty());
        }
    }
    source.substring_char(i, n)
}

} // verus!
