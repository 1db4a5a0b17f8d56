//! The mathematical model of JSON tree values.
//!
//! [`JsonRep`] is the ghost counterpart of the executable tree type: objects
//! are sequences of key/value entries in insertion order with unique keys,
//! arrays are sequences, strings are character sequences with all escapes
//! already resolved, and numbers carry the validated literal token they were
//! parsed from. Contracts throughout the crate speak about values of this
//! type.

use vstd::prelude::*;

verus! {

/// The two kinds of parse failure: a lexical error (malformed escape or
/// `\u` hex digits inside a token) and a syntax error (structural grammar
/// violation).
pub enum JsonErrorKind {
    Lexical,
    Syntax,
}

/// A JSON tree value, as contracts see it.
///
/// `Empty` is a sentinel outside the JSON grammar: it is produced only for
/// blank input and by lenient accessors for a missing key or index; it never
/// appears inside a successfully parsed document.
pub enum JsonRep {
    Obj(Seq<(Seq<char>, JsonRep)>),
    Arr(Seq<JsonRep>),
    Text(Seq<char>),
    Num(Seq<char>),
    Bool(bool),
    Null,
    Empty,
}

/// Whether some entry of `es` has key `key`.
pub open spec fn obj_has_key(es: Seq<(Seq<char>, JsonRep)>, key: Seq<char>) -> bool {
    exists|i: int| 0 <= i < es.len() && es[i].0 == key
}

/// Whether the keys of `es` are pairwise distinct.
pub open spec fn obj_keys_unique(es: Seq<(Seq<char>, JsonRep)>) -> bool {
    forall|i: int, j: int| 0 <= i < j < es.len() ==> es[i].0 != es[j].0
}

/// Insertion with last-write-wins resolution: if an entry with `key` exists,
/// its value is replaced in place (the key keeps its position); otherwise the
/// new entry is appended.
pub open spec fn obj_insert(
    es: Seq<(Seq<char>, JsonRep)>,
    key: Seq<char>,
    v: JsonRep,
) -> Seq<(Seq<char>, JsonRep)>
    decreases es.len(),
{
    if es.len() == 0 {
        seq![(key, v)]
    } else if es[0].0 == key {
        seq![(key, v)] + es.drop_first()
    } else {
        seq![es[0]] + obj_insert(es.drop_first(), key, v)
    }
}

/// The value stored under `key`, if any entry has that key.
pub open spec fn obj_lookup(es: Seq<(Seq<char>, JsonRep)>, key: Seq<char>) -> Option<JsonRep>
    decreases es.len(),
{
    if es.len() == 0 {
        None
    } else if es[0].0 == key {
        Some(es[0].1)
    } else {
        obj_lookup(es.drop_first(), key)
    }
}

/// What holds of every value inside a successfully parsed document: the
/// keys of every object are pairwise distinct (duplicate keys having been
/// resolved while parsing), and the `Empty` sentinel appears nowhere — it
/// is an out-of-band marker, not part of the grammar.
pub open spec fn parsed_wf(v: JsonRep) -> bool
    decreases v,
{
    match v {
        JsonRep::Obj(es) => obj_keys_unique(es) && (forall|i: int|
            0 <= i < es.len() ==> parsed_wf(#[trigger] es[i].1)),
        JsonRep::Arr(el) => forall|i: int| 0 <= i < el.len() ==> parsed_wf(#[trigger] el[i]),
        JsonRep::Empty => false,
        _ => true,
    }
}

/// Every entry of an insert result is the inserted pair or one of the old
/// entries (with the inserted value in place of its old value at the
/// matching key).
pub proof fn lemma_obj_insert_entries(es: Seq<(Seq<char>, JsonRep)>, key: Seq<char>, v: JsonRep)
    ensures
        forall|i: int|
            0 <= i < obj_insert(es, key, v).len() ==> #[trigger] obj_insert(es, key, v)[i].1 == v
                || exists|j: int| 0 <= j < es.len() && obj_insert(es, key, v)[i] == es[j],
    decreases es.len(),
{
    let res = obj_insert(es, key, v);
    if es.len() == 0 {
    } else if es[0].0 == key {
        assert forall|i: int|
            0 <= i < res.len() implies #[trigger] res[i].1 == v || exists|j: int|
            0 <= j < es.len() && res[i] == es[j] by {
            if i > 0 {
                assert(res[i] == es.drop_first()[i - 1]);
                assert(res[i] == es[i]);
            }
        }
    } else {
        lemma_obj_insert_entries(es.drop_first(), key, v);
        let sub = obj_insert(es.drop_first(), key, v);
        assert forall|i: int|
            0 <= i < res.len() implies #[trigger] res[i].1 == v || exists|j: int|
            0 <= j < es.len() && res[i] == es[j] by {
            if i == 0 {
                assert(res[0] == es[0]);
            } else {
                assert(res[i] == sub[i - 1]);
                if sub[i - 1].1 != v {
                    let j = choose|j: int|
                        0 <= j < es.drop_first().len() && sub[i - 1] == es.drop_first()[j];
                    assert(res[i] == es[j + 1]);
                }
            }
        }
    }
}

/// The text of one rendered object entry: the quoted key, a colon, and the
/// rendered value.
pub open spec fn render_entry(e: (Seq<char>, JsonRep)) -> Seq<char>
    decreases e,
{
    seq!['"'] + e.0 + seq!['"', ':'] + render(e.1)
}

/// The rendered entry list of a nonempty object: the entries in order,
/// separated by commas.
pub open spec fn render_entries(es: Seq<(Seq<char>, JsonRep)>) -> Seq<char>
    decreases es,
{
    if es.len() == 0 {
        Seq::empty()
    } else if es.len() == 1 {
        render_entry(es[0])
    } else {
        render_entry(es[0]) + seq![','] + render_entries(es.drop_first())
    }
}

/// The rendered element list of a nonempty array: the elements in order,
/// separated by commas.
pub open spec fn render_elems(el: Seq<JsonRep>) -> Seq<char>
    decreases el,
{
    if el.len() == 0 {
        Seq::empty()
    } else if el.len() == 1 {
        render(el[0])
    } else {
        render(el[0]) + seq![','] + render_elems(el.drop_first())
    }
}

/// The serialized text of a value. Strings are emitted with no escaping of
/// special characters, and a number is emitted as the literal token it
/// carries. An empty object or array renders as its closing delimiter
/// alone (`}` or `]`): the serializer strips one structural character in
/// place of the trailing separator, a known defect kept for compatibility.
/// The `Empty` sentinel renders as the empty string, which is not valid
/// JSON text.
pub open spec fn render(v: JsonRep) -> Seq<char>
    decreases v,
{
    match v {
        JsonRep::Obj(es) => if es.len() == 0 {
            seq!['}']
        } else {
            seq!['{'] + render_entries(es) + seq!['}']
        },
        JsonRep::Arr(el) => if el.len() == 0 {
            seq![']']
        } else {
            seq!['['] + render_elems(el) + seq![']']
        },
        JsonRep::Text(t) => seq!['"'] + t + seq!['"'],
        JsonRep::Num(t) => t,
        JsonRep::Bool(b) => if b {
            seq!['t', 'r', 'u', 'e']
        } else {
            seq!['f', 'a', 'l', 's', 'e']
        },
        JsonRep::Null => seq!['n', 'u', 'l', 'l'],
        JsonRep::Empty => Seq::empty(),
    }
}

/// Appending an entry extends the rendered list at its end, with a comma
/// separator whenever the list was nonempty.
pub proof fn lemma_render_entries_push(es: Seq<(Seq<char>, JsonRep)>, e: (Seq<char>, JsonRep))
    ensures
        render_entries(es.push(e)) == if es.len() == 0 {
            render_entry(e)
        } else {
            render_entries(es) + seq![','] + render_entry(e)
        },
    decreases es.len(),
{
    if es.len() == 0 {
        assert(es.push(e)[0] == e);
        assert(es.push(e).len() == 1);
    } else {
        lemma_render_entries_push(es.drop_first(), e);
        assert(es.push(e).drop_first() =~= es.drop_first().push(e));
        assert(es.push(e)[0] == es[0]);
        if es.len() == 1 {
            assert(render_entries(es) == render_entry(es[0]));
        }
        assert(render_entries(es.push(e)) == render_entry(es[0]) + seq![','] + render_entries(
            es.drop_first().push(e),
        ));
        if es.drop_first().len() == 0 {
            assert(render_entries(es.push(e)) =~= render_entries(es) + seq![','] + render_entry(
                e,
            ));
        } else {
            assert(render_entries(es.push(e)) =~= render_entries(es) + seq![','] + render_entry(
                e,
            ));
        }
    }
}

/// Appending an element extends the rendered list at its end, with a comma
/// separator whenever the list was nonempty.
pub proof fn lemma_render_elems_push(el: Seq<JsonRep>, e: JsonRep)
    ensures
        render_elems(el.push(e)) == if el.len() == 0 {
            render(e)
        } else {
            render_elems(el) + seq![','] + render(e)
        },
    decreases el.len(),
{
    if el.len() == 0 {
        assert(el.push(e)[0] == e);
        assert(el.push(e).len() == 1);
    } else {
        lemma_render_elems_push(el.drop_first(), e);
        assert(el.push(e).drop_first() =~= el.drop_first().push(e));
        assert(el.push(e)[0] == el[0]);
        assert(render_elems(el.push(e)) =~= render_elems(el) + seq![','] + render(e));
    }
}

/// After an insert, looking the key up yields exactly the inserted value,
/// and every other key is untouched: the law of last-write-wins duplicate
/// key resolution.
pub proof fn lemma_obj_insert_lookup(
    es: Seq<(Seq<char>, JsonRep)>,
    key: Seq<char>,
    v: JsonRep,
    other: Seq<char>,
)
    ensures
        obj_lookup(obj_insert(es, key, v), key) == Some(v),
        other != key ==> obj_lookup(obj_insert(es, key, v), other) == obj_lookup(es, other),
    decreases es.len(),
{
    if es.len() == 0 {
        assert(obj_insert(es, key, v)[0] == (key, v));
        assert(obj_insert(es, key, v).drop_first() =~= es);
    } else if es[0].0 == key {
        assert(obj_insert(es, key, v)[0] == (key, v));
        assert((seq![(key, v)] + es.drop_first()).drop_first() =~= es.drop_first());
    } else {
        lemma_obj_insert_lookup(es.drop_first(), key, v, other);
        assert(obj_insert(es, key, v)[0] == es[0]);
        assert((seq![es[0]] + obj_insert(es.drop_first(), key, v)).drop_first() =~= obj_insert(
            es.drop_first(),
            key,
            v,
        ));
    }
}

/// Insertion preserves key uniqueness.
pub proof fn lemma_obj_insert_unique(es: Seq<(Seq<char>, JsonRep)>, key: Seq<char>, v: JsonRep)
    requires
        obj_keys_unique(es),
    ensures
        obj_keys_unique(obj_insert(es, key, v)),
    decreases es.len(),
{
    if es.len() == 0 {
    } else if es[0].0 == key {
        assert forall|i: int, j: int|
            0 <= i < j < obj_insert(es, key, v).len() implies obj_insert(es, key, v)[i].0
            != obj_insert(es, key, v)[j].0 by {
            assert(obj_insert(es, key, v)[i] == (seq![(key, v)] + es.drop_first())[i]);
            if i > 0 {
                assert(es[i] == es.drop_first()[i - 1]);
            }
            assert(es[j] == es.drop_first()[j - 1]);
        }
    } else {
        lemma_obj_insert_unique(es.drop_first(), key, v);
        let res = seq![es[0]] + obj_insert(es.drop_first(), key, v);
        assert forall|i: int, j: int| 0 <= i < j < res.len() implies res[i].0 != res[j].0 by {
            lemma_obj_insert_key_set(es.drop_first(), key, v, res[j].0);
            if i > 0 {
                assert(res[i] == obj_insert(es.drop_first(), key, v)[i - 1]);
            }
            assert(res[j] == obj_insert(es.drop_first(), key, v)[j - 1]);
            if res[j].0 != key {
                if obj_has_key(es.drop_first(), res[j].0) {
                    let w = choose|w: int|
                        0 <= w < es.drop_first().len() && es.drop_first()[w].0 == res[j].0;
                    assert(es[w + 1] == es.drop_first()[w]);
                }
            }
        }
    }
}

/// A key occurs in the result of an insert exactly when it is the inserted
/// key or already occurred.
pub proof fn lemma_obj_insert_key_set(
    es: Seq<(Seq<char>, JsonRep)>,
    key: Seq<char>,
    v: JsonRep,
    probe: Seq<char>,
)
    ensures
        obj_has_key(obj_insert(es, key, v), probe) <==> (probe == key || obj_has_key(es, probe)),
    decreases es.len(),
{
    let res = obj_insert(es, key, v);
    if es.len() == 0 {
        if obj_has_key(res, probe) {
            let i = choose|i: int| 0 <= i < res.len() && res[i].0 == probe;
            assert(i == 0);
        }
        if probe == key {
            assert(res[0].0 == probe);
        }
    } else if es[0].0 == key {
        assert forall|i: int| 0 <= i < res.len() implies res[i].0 == es[i].0 by {
            if i > 0 {
                assert(res[i] == es.drop_first()[i - 1]);
            }
        }
        if obj_has_key(res, probe) {
            let i = choose|i: int| 0 <= i < res.len() && res[i].0 == probe;
            assert(es[i].0 == probe);
        }
        if probe == key {
            assert(res[0].0 == probe);
        } else if obj_has_key(es, probe) {
            let i = choose|i: int| 0 <= i < es.len() && es[i].0 == probe;
            assert(res[i].0 == probe);
        }
    } else {
        lemma_obj_insert_key_set(es.drop_first(), key, v, probe);
        let sub = obj_insert(es.drop_first(), key, v);
        assert(res[0] == es[0]);
        assert forall|i: int| 1 <= i < res.len() implies res[i] == sub[i - 1] by {}
        if obj_has_key(res, probe) {
            let i = choose|i: int| 0 <= i < res.len() && res[i].0 == probe;
            if i == 0 {
                assert(es[0].0 == probe);
            } else {
                assert(sub[i - 1].0 == probe);
            }
        }
        if probe == key || obj_has_key(es, probe) {
            if probe != key && obj_has_key(es, probe) {
                let i = choose|i: int| 0 <= i < es.len() && es[i].0 == probe;
                if i == 0 {
                    assert(res[0].0 == probe);
                } else {
                    assert(es.drop_first()[i - 1].0 == probe);
                }
            }
            if obj_has_key(sub, probe) {
                let i = choose|i: int| 0 <= i < sub.len() && sub[i].0 == probe;
                assert(res[i + 1].0 == probe);
            }
        }
    }
}

} // verus!
