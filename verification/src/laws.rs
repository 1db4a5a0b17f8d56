//! Laws of the parser, stated over the spec-level grammar and proved once
//! and for all.

use vstd::prelude::*;
use crate::grammar::{
    first_quote, lemma_first_quote, lemma_num_scan_bounds, lemma_str_body_bounds, num_scan,
    sp_arr_items, sp_array, sp_field, sp_number, sp_obj_entries, sp_object, sp_parse, sp_string,
    spec_digit, str_body, tail_within,
};
use crate::model::{
    lemma_obj_insert_entries, lemma_obj_insert_unique, obj_insert, obj_keys_unique, parsed_wf,
    JsonRep,
};
use crate::utils::{lemma_ws_suffix, lemma_ws_suffix_idempotent, spec_ws_char, ws_suffix};

verus! {

/// Leading whitespace never changes what is parsed: parsing any input
/// yields exactly the same value, remainder and error as parsing the input
/// with its leading whitespace stripped. Whitespace is skipped only at the
/// token boundaries the dispatch chooses, so trailing whitespace stays in
/// the remainder untouched.
pub proof fn lemma_parse_skips_whitespace(s: Seq<char>)
    ensures
        sp_parse(s) == sp_parse(ws_suffix(s)),
{
    broadcast use lemma_ws_suffix;

    lemma_ws_suffix_idempotent(s);
}

/// Blank input is the one way parsing produces the `Empty` sentinel: on
/// any input that is empty or all whitespace, parsing succeeds with
/// `Empty` and an empty remainder.
pub proof fn lemma_blank_input_empty(s: Seq<char>)
    requires
        forall|i: int| 0 <= i < s.len() ==> spec_ws_char(s[i]),
    ensures
        sp_parse(s) == Ok::<(JsonRep, Seq<char>), crate::model::JsonErrorKind>((
            JsonRep::Empty,
            Seq::<char>::empty(),
        )),
    decreases s.len(),
{
    broadcast use lemma_ws_suffix;

    if s.len() > 0 {
        lemma_blank_input_empty(s.drop_first());
    }
}

/// Whether `t` is the suffix of `s` past its first `s.len() - t.len()`
/// characters.
pub open spec fn suffix_of(t: Seq<char>, s: Seq<char>) -> bool {
    t.len() <= s.len() && t == s.skip(s.len() - t.len())
}

/// Being a suffix is transitive.
proof fn lemma_suffix_trans(a: Seq<char>, b: Seq<char>, c: Seq<char>)
    requires
        suffix_of(a, b),
        suffix_of(b, c),
    ensures
        suffix_of(a, c),
{
    assert(b.skip(b.len() - a.len()) =~= c.skip(c.len() - a.len()));
}

/// Skipping any number of leading characters leaves a suffix.
proof fn lemma_skip_suffix(s: Seq<char>, k: int)
    requires
        0 <= k <= s.len(),
    ensures
        suffix_of(s.skip(k), s),
{
    assert(s.skip(k) =~= s.skip(s.len() - s.skip(k).len()));
}

/// The remainder returned alongside a parsed value always begins at the
/// first unconsumed character of the input: it is a suffix of the input
/// span, never longer than it and never holding consumed characters.
pub proof fn lemma_parse_remainder_suffix(s: Seq<char>)
    ensures
        sp_parse(s) matches Ok(p) ==> suffix_of(p.1, s),
    decreases s.len(), 3int,
{
    broadcast use lemma_ws_suffix;

    let t = tail_within(s, ws_suffix(s));
    assert(suffix_of(t, s));
    if t.len() == 0 {
        assert(t =~= Seq::<char>::empty());
    } else if t[0] == '{' {
        lemma_object_remainder_suffix(t);
        match sp_parse(s) {
            Ok(p) => {
                lemma_suffix_trans(p.1, t, s);
            },
            Err(_) => {},
        }
    } else if t[0] == '[' {
        lemma_array_remainder_suffix(t);
        match sp_parse(s) {
            Ok(p) => {
                lemma_suffix_trans(p.1, t, s);
            },
            Err(_) => {},
        }
    } else if t[0] == '"' {
        lemma_string_remainder_suffix(t);
        match sp_parse(s) {
            Ok(p) => {
                lemma_suffix_trans(p.1, t, s);
            },
            Err(_) => {},
        }
    } else if t[0] == 't' || t[0] == 'f' || t[0] == 'n' {
        match sp_parse(s) {
            Ok(p) => {
                let w: int = if t[0] == 'f' {
                    5
                } else {
                    4
                };
                lemma_skip_suffix(t, w);
                lemma_suffix_trans(p.1, t, s);
            },
            Err(_) => {},
        }
    } else {
        lemma_num_scan_bounds(t);
        match sp_parse(s) {
            Ok(p) => {
                let end = num_scan(t)->Ok_0;
                lemma_skip_suffix(t, end);
                lemma_suffix_trans(p.1, t, s);
            },
            Err(_) => {},
        }
    }
}

/// The remainder of a parsed string token is a suffix of the input.
proof fn lemma_string_remainder_suffix(s: Seq<char>)
    ensures
        sp_string(s) matches Ok(p) ==> suffix_of(p.1, s),
{
    if s.len() > 0 && s[0] == '"' {
        lemma_str_body_bounds(s, 1);
        match str_body(s, 1) {
            Ok(r) => {
                lemma_skip_suffix(s, r.1);
            },
            Err(_) => {},
        }
    }
}

/// The name scanner consumes a nonempty prefix: the remainder of a parsed
/// field name is a suffix of the input.
proof fn lemma_field_remainder_suffix(s: Seq<char>)
    ensures
        sp_field(s) matches Ok(p) ==> suffix_of(p.1, s),
{
    broadcast use lemma_ws_suffix;

    let t = ws_suffix(s);
    if t.len() > 0 && t[0] == '"' {
        lemma_first_quote(t, 1);
        match first_quote(t, 1) {
            Some(k) => {
                lemma_skip_suffix(t, k + 1);
                lemma_suffix_trans(t.skip(k + 1), t, s);
            },
            None => {},
        }
    }
}

/// The remainder of a parsed object is a suffix of the input.
proof fn lemma_object_remainder_suffix(s: Seq<char>)
    ensures
        sp_object(s) matches Ok(p) ==> suffix_of(p.1, s),
    decreases s.len(), 2int,
{
    broadcast use lemma_ws_suffix;

    let t = tail_within(s, ws_suffix(s));
    if t.len() == 0 || t[0] != '{' {
    } else {
        lemma_entries_remainder_suffix(t.drop_first(), Seq::empty());
        match sp_object(s) {
            Ok(p) => {
                lemma_skip_suffix(t, 1);
                assert(t.drop_first() =~= t.skip(1));
                lemma_suffix_trans(p.1, t.drop_first(), t);
                lemma_suffix_trans(p.1, t, s);
            },
            Err(_) => {},
        }
    }
}

/// The remainder of a completed entry list is a suffix of the input.
#[verifier::rlimit(50)]
proof fn lemma_entries_remainder_suffix(s: Seq<char>, acc: Seq<(Seq<char>, JsonRep)>)
    ensures
        sp_obj_entries(s, acc) matches Ok(p) ==> suffix_of(p.1, s),
    decreases s.len(), 4int,
{
    broadcast use lemma_ws_suffix;

    let t = tail_within(s, ws_suffix(s));
    assert(suffix_of(t, s));
    if t.len() > 0 && t[0] == '}' {
        lemma_skip_suffix(t, 1);
        assert(t.drop_first() =~= t.skip(1));
        lemma_suffix_trans(t.drop_first(), t, s);
    } else {
        lemma_field_remainder_suffix(t);
        match sp_field(t) {
            Err(_) => {},
            Ok((_, field_rest)) => {
                let r1 = tail_within(t, field_rest);
                assert(r1 == field_rest);
                let r2 = tail_within(r1, ws_suffix(r1));
                assert(suffix_of(r2, r1));
                if r2.len() == 0 || r2[0] != ':' {
                } else {
                    let dropped = r2.drop_first();
                    lemma_skip_suffix(r2, 1);
                    assert(dropped =~= r2.skip(1));
                    let r3 = tail_within(dropped, ws_suffix(dropped));
                    assert(suffix_of(r3, dropped));
                    lemma_parse_remainder_suffix(r3);
                    match sp_parse(r3) {
                        Err(_) => {},
                        Ok((_, value_rest)) => {
                            let r4 = tail_within(r3, value_rest);
                            assert(r4 == value_rest);
                            let r5 = tail_within(r4, ws_suffix(r4));
                            assert(suffix_of(r5, r4));
                            lemma_suffix_trans(r2, r1, t);
                            lemma_suffix_trans(r2, t, s);
                            lemma_suffix_trans(dropped, r2, s);
                            lemma_suffix_trans(r3, dropped, s);
                            lemma_suffix_trans(r4, r3, s);
                            lemma_suffix_trans(r5, r4, s);
                            if r5.len() > 0 && r5[0] == ',' {
                                let after = r5.drop_first();
                                lemma_skip_suffix(r5, 1);
                                assert(after =~= r5.skip(1));
                                let r6 = tail_within(after, ws_suffix(after));
                                assert(suffix_of(r6, after));
                                lemma_suffix_trans(after, r5, s);
                                lemma_suffix_trans(r6, after, s);
                                if r6.len() > 0 && r6[0] == '}' {
                                } else {
                                    lemma_entries_remainder_suffix(
                                        r6,
                                        obj_insert(acc, sp_field(t)->Ok_0.0, sp_parse(r3)->Ok_0.0),
                                    );
                                    match sp_obj_entries(s, acc) {
                                        Ok(p) => {
                                            lemma_suffix_trans(p.1, r6, s);
                                        },
                                        Err(_) => {},
                                    }
                                }
                            } else if r5.len() > 0 && r5[0] == '}' {
                                lemma_skip_suffix(r5, 1);
                                assert(r5.drop_first() =~= r5.skip(1));
                                lemma_suffix_trans(r5.drop_first(), r5, s);
                            }
                        },
                    }
                }
            },
        }
    }
}

/// The remainder of a parsed array is a suffix of the input.
proof fn lemma_array_remainder_suffix(s: Seq<char>)
    ensures
        sp_array(s) matches Ok(p) ==> suffix_of(p.1, s),
    decreases s.len(), 2int,
{
    broadcast use lemma_ws_suffix;

    let t = tail_within(s, ws_suffix(s));
    if t.len() == 0 || t[0] != '[' {
    } else {
        let dropped = t.drop_first();
        lemma_skip_suffix(t, 1);
        assert(dropped =~= t.skip(1));
        let u = tail_within(dropped, ws_suffix(dropped));
        assert(suffix_of(u, dropped));
        lemma_suffix_trans(dropped, t, s);
        lemma_suffix_trans(u, dropped, s);
        if u.len() > 0 && u[0] == ']' {
            lemma_skip_suffix(u, 1);
            assert(u.drop_first() =~= u.skip(1));
            lemma_suffix_trans(u.drop_first(), u, s);
        } else {
            lemma_items_remainder_suffix(u, Seq::empty());
            match sp_array(s) {
                Ok(p) => {
                    lemma_suffix_trans(p.1, u, s);
                },
                Err(_) => {},
            }
        }
    }
}

/// The remainder of a completed element list is a suffix of the input.
proof fn lemma_items_remainder_suffix(s: Seq<char>, acc: Seq<JsonRep>)
    ensures
        sp_arr_items(s, acc) matches Ok(p) ==> suffix_of(p.1, s),
    decreases s.len(), 4int,
{
    broadcast use lemma_ws_suffix;

    lemma_parse_remainder_suffix(s);
    match sp_parse(s) {
        Err(_) => {},
        Ok((v, value_rest)) => {
            let r1 = tail_within(s, value_rest);
            assert(r1 == value_rest);
            let r2 = tail_within(r1, ws_suffix(r1));
            assert(suffix_of(r2, r1));
            lemma_suffix_trans(r2, r1, s);
            if r2.len() > 0 && r2[0] == ',' {
                let after = r2.drop_first();
                lemma_skip_suffix(r2, 1);
                assert(after =~= r2.skip(1));
                let r3 = tail_within(after, ws_suffix(after));
                assert(suffix_of(r3, after));
                lemma_suffix_trans(after, r2, s);
                lemma_suffix_trans(r3, after, s);
                if r3.len() > 0 && r3[0] == ']' {
                } else {
                    lemma_items_remainder_suffix(r3, acc.push(v));
                    match sp_arr_items(s, acc) {
                        Ok(p) => {
                            lemma_suffix_trans(p.1, r3, s);
                        },
                        Err(_) => {},
                    }
                }
            } else if r2.len() > 0 && r2[0] == ']' {
                lemma_skip_suffix(r2, 1);
                assert(r2.drop_first() =~= r2.skip(1));
                lemma_suffix_trans(r2.drop_first(), r2, s);
            }
        },
    }
}

/// Parsing never smuggles the `Empty` sentinel into a document: a
/// successful parse yields either the sentinel itself, for blank input and
/// then with an empty remainder, or a well-formed value — every object with
/// pairwise distinct keys and no `Empty` anywhere inside.
pub proof fn lemma_parse_well_formed(s: Seq<char>)
    ensures
        sp_parse(s) matches Ok(p) ==> p.0 is Empty ==> p.1 == Seq::<char>::empty(),
        sp_parse(s) matches Ok(p) ==> !(p.0 is Empty) ==> parsed_wf(p.0),
    decreases s.len(), 3int,
{
    broadcast use lemma_ws_suffix;

    let t = tail_within(s, ws_suffix(s));
    if t.len() == 0 {
    } else if t[0] == '{' {
        lemma_object_well_formed(t);
    } else if t[0] == '[' {
        lemma_array_well_formed(t);
    }
}

/// A parsed object is a well-formed `Obj` value.
proof fn lemma_object_well_formed(s: Seq<char>)
    ensures
        sp_object(s) matches Ok(p) ==> p.0 is Obj && parsed_wf(p.0),
    decreases s.len(), 2int,
{
    broadcast use lemma_ws_suffix;

    let t = tail_within(s, ws_suffix(s));
    if t.len() == 0 || t[0] != '{' {
    } else {
        lemma_entries_well_formed(t.drop_first(), Seq::empty());
    }
}

/// The entry list keeps well-formedness: starting from entries with
/// distinct keys and well-formed values, the object it completes to is
/// well-formed.
#[verifier::rlimit(50)]
proof fn lemma_entries_well_formed(s: Seq<char>, acc: Seq<(Seq<char>, JsonRep)>)
    requires
        obj_keys_unique(acc),
        forall|i: int| 0 <= i < acc.len() ==> parsed_wf(#[trigger] acc[i].1),
    ensures
        sp_obj_entries(s, acc) matches Ok(p) ==> p.0 is Obj && parsed_wf(p.0),
    decreases s.len(), 4int,
{
    broadcast use lemma_ws_suffix;

    let t = tail_within(s, ws_suffix(s));
    if t.len() > 0 && t[0] == '}' {
    } else {
        match crate::grammar::sp_field(t) {
            Err(_) => {},
            Ok((name, field_rest)) => {
                let r1 = tail_within(t, field_rest);
                let r2 = tail_within(r1, ws_suffix(r1));
                if r2.len() == 0 || r2[0] != ':' {
                } else {
                    let r3 = tail_within(r2.drop_first(), ws_suffix(r2.drop_first()));
                    lemma_parse_well_formed(r3);
                    match sp_parse(r3) {
                        Err(_) => {},
                        Ok((v, value_rest)) => {
                            let acc2 = obj_insert(acc, name, v);
                            let r4 = tail_within(r3, value_rest);
                            let r5 = tail_within(r4, ws_suffix(r4));
                            if v is Empty {
                                assert(r5.len() == 0);
                            } else {
                                lemma_obj_insert_unique(acc, name, v);
                                lemma_obj_insert_entries(acc, name, v);
                                assert(forall|i: int|
                                    0 <= i < acc2.len() ==> parsed_wf(#[trigger] acc2[i].1));
                                if r5.len() > 0 && r5[0] == ',' {
                                    let r6 = tail_within(
                                        r5.drop_first(),
                                        ws_suffix(r5.drop_first()),
                                    );
                                    if r6.len() > 0 && r6[0] == '}' {
                                    } else {
                                        lemma_entries_well_formed(r6, acc2);
                                    }
                                }
                            }
                        },
                    }
                }
            },
        }
    }
}

/// A parsed array is a well-formed `Arr` value.
proof fn lemma_array_well_formed(s: Seq<char>)
    ensures
        sp_array(s) matches Ok(p) ==> p.0 is Arr && parsed_wf(p.0),
    decreases s.len(), 2int,
{
    broadcast use lemma_ws_suffix;

    let t = tail_within(s, ws_suffix(s));
    if t.len() == 0 || t[0] != '[' {
    } else {
        let u = tail_within(t.drop_first(), ws_suffix(t.drop_first()));
        if u.len() > 0 && u[0] == ']' {
        } else {
            lemma_items_well_formed(u, Seq::empty());
        }
    }
}

/// The element list keeps well-formedness: starting from well-formed
/// elements, the array it completes to is well-formed.
proof fn lemma_items_well_formed(s: Seq<char>, acc: Seq<JsonRep>)
    requires
        forall|i: int| 0 <= i < acc.len() ==> parsed_wf(#[trigger] acc[i]),
    ensures
        sp_arr_items(s, acc) matches Ok(p) ==> p.0 is Arr && parsed_wf(p.0),
    decreases s.len(), 4int,
{
    broadcast use lemma_ws_suffix;

    lemma_parse_well_formed(s);
    match sp_parse(s) {
        Err(_) => {},
        Ok((v, value_rest)) => {
            let acc2 = acc.push(v);
            let r1 = tail_within(s, value_rest);
            let r2 = tail_within(r1, ws_suffix(r1));
            if v is Empty {
                assert(r2.len() == 0);
            } else {
                assert(forall|i: int| 0 <= i < acc2.len() ==> parsed_wf(#[trigger] acc2[i]));
                if r2.len() > 0 && r2[0] == ',' {
                    let r3 = tail_within(r2.drop_first(), ws_suffix(r2.drop_first()));
                    if r3.len() > 0 && r3[0] == ']' {
                    } else {
                        lemma_items_well_formed(r3, acc2);
                    }
                }
            }
        },
    }
}

/// A number literal is preserved verbatim: whenever the input, after
/// leading whitespace, starts with a token the numeric grammar accepts,
/// parsing yields a `Num` value carrying exactly the matched characters,
/// with the remainder starting right after them. Re-reading the stored
/// token therefore converts the very text the document held, so the
/// numeric value survives the round trip unchanged.
pub proof fn lemma_number_token_verbatim(s: Seq<char>, end: int)
    requires
        num_scan(ws_suffix(s)) == Ok::<int, crate::model::JsonErrorKind>(end),
    ensures
        sp_parse(s) == Ok::<(JsonRep, Seq<char>), crate::model::JsonErrorKind>((
            JsonRep::Num(ws_suffix(s).take(end)),
            ws_suffix(s).skip(end),
        )),
{
    broadcast use lemma_ws_suffix;

    let t = ws_suffix(s);
    assert(t.len() > 0) by {
        if t.len() == 0 {
            assert(num_scan(t) is Err);
        }
    }
    assert(t[0] == '-' || spec_digit(t[0])) by {
        if t[0] != '-' && !spec_digit(t[0]) {
            assert(num_scan(t) is Err);
        }
    }
    assert(sp_parse(s) == sp_number(t));
}

} // verus!
