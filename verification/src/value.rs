//! The executable JSON tree value and its error type.

use vstd::prelude::*;
use vstd::string::{StrSliceExecFns, StringExecFns};
use crate::model::{
    lemma_render_elems_push, lemma_render_entries_push, obj_insert, obj_lookup, render,
    render_elems, render_entries, render_entry, JsonErrorKind, JsonRep,
};

verus! {

/// A JSON value: a tagged union over the closed set of JSON shapes.
///
/// An object is a list of key/value entries in insertion order whose keys
/// are unique; duplicate keys in a document are resolved while parsing with
/// last-write-wins. A number carries the validated literal token it was
/// written with; callers convert that token to their numeric type of choice.
/// `JsonEmpty` is an out-of-band sentinel: it stands for blank input and for
/// the result of a lenient lookup that found nothing, and never appears
/// inside a parsed document.
#[derive(Debug, PartialEq)]
pub enum Json {
    JsonObject(Vec<(String, Json)>),
    JsonArray(Vec<Json>),
    JsonString(String),
    JsonNumber(String),
    JsonBoolean(bool),
    JsonNull,
    JsonEmpty,
}

/// A parse failure: a lexical error (malformed escape or `\u` hex digits)
/// or a syntax error (structural grammar violation), each carrying a
/// human-readable message.
#[derive(Debug, Clone, PartialEq)]
pub enum JsonError {
    LexicalError(String),
    SyntaxError(String),
}

/// The kind of an error value, with the message abstracted away.
pub open spec fn error_kind(e: JsonError) -> JsonErrorKind {
    match e {
        JsonError::LexicalError(_) => JsonErrorKind::Lexical,
        JsonError::SyntaxError(_) => JsonErrorKind::Syntax,
    }
}

/// The model of an object's entry list.
pub open spec fn fields_rep(s: Seq<(String, Json)>) -> Seq<(Seq<char>, JsonRep)>
    decreases s,
{
    if s.len() == 0 {
        Seq::empty()
    } else {
        seq![(s[0].0@, rep_of(s[0].1))] + fields_rep(s.drop_first())
    }
}

/// The model of an array's element list.
pub open spec fn elems_rep(s: Seq<Json>) -> Seq<JsonRep>
    decreases s,
{
    if s.len() == 0 {
        Seq::empty()
    } else {
        seq![rep_of(s[0])] + elems_rep(s.drop_first())
    }
}

/// The model of a JSON value: the [`JsonRep`] tree it stands for.
pub open spec fn rep_of(j: Json) -> JsonRep
    decreases j,
{
    match j {
        Json::JsonObject(fields) => JsonRep::Obj(fields_rep(fields@)),
        Json::JsonArray(elements) => JsonRep::Arr(elems_rep(elements@)),
        Json::JsonString(s) => JsonRep::Text(s@),
        Json::JsonNumber(t) => JsonRep::Num(t@),
        Json::JsonBoolean(b) => JsonRep::Bool(b),
        Json::JsonNull => JsonRep::Null,
        Json::JsonEmpty => JsonRep::Empty,
    }
}

impl View for Json {
    type V = JsonRep;

    open spec fn view(&self) -> JsonRep {
        rep_of(*self)
    }
}

/// The model of an entry list is pointwise the model of its entries.
pub broadcast proof fn lemma_fields_rep(s: Seq<(String, Json)>)
    ensures
        (#[trigger] fields_rep(s)).len() == s.len(),
        forall|i: int| 0 <= i < s.len() ==> fields_rep(s)[i] == (s[i].0@, rep_of(s[i].1)),
    decreases s.len(),
{
    if s.len() > 0 {
        lemma_fields_rep(s.drop_first());
        assert forall|i: int| 0 <= i < s.len() implies fields_rep(s)[i] == (
            s[i].0@,
            rep_of(s[i].1),
        ) by {
            if i > 0 {
                assert(fields_rep(s)[i] == fields_rep(s.drop_first())[i - 1]);
                assert(s.drop_first()[i - 1] == s[i]);
            }
        }
    }
}

/// The model of an element list is pointwise the model of its elements.
pub broadcast proof fn lemma_elems_rep(s: Seq<Json>)
    ensures
        (#[trigger] elems_rep(s)).len() == s.len(),
        forall|i: int| 0 <= i < s.len() ==> elems_rep(s)[i] == rep_of(s[i]),
    decreases s.len(),
{
    if s.len() > 0 {
        lemma_elems_rep(s.drop_first());
        assert forall|i: int| 0 <= i < s.len() implies elems_rep(s)[i] == rep_of(s[i]) by {
            if i > 0 {
                assert(elems_rep(s)[i] == elems_rep(s.drop_first())[i - 1]);
                assert(s.drop_first()[i - 1] == s[i]);
            }
        }
    }
}

/// A structural copy of a value: the copy has the same model.
pub fn deep_copy(j: &Json) -> (res: Json)
    ensures
        res@ == j@,
    decreases *j,
{
    match j {
        Json::JsonObject(fields) => {
            let mut out: Vec<(String, Json)> = Vec::new();
            let mut i: usize = 0;
            while i < fields.len()
                invariant
                    i <= fields@.len(),
                    out@.len() == i,
                    decreases_to!(*j => *fields),
                    forall|k: int|
                        0 <= k < i ==> out@[k].0@ == fields@[k].0@ && rep_of(out@[k].1) == rep_of(
                            fields@[k].1,
                        ),
                decreases fields@.len() - i,
            {
                proof {
                    assert(decreases_to!(*fields => fields@));
                    assert(decreases_to!(fields@ => fields@[i as int]));
                }
                let key = fields[i].0.clone();
                let val = deep_copy(&fields[i].1);
                out.push((key, val));
                i = i + 1;
            }
            proof {
                lemma_fields_rep(out@);
                lemma_fields_rep(fields@);
                assert(fields_rep(out@) =~= fields_rep(fields@));
            }
            Json::JsonObject(out)
        },
        Json::JsonArray(elements) => {
            let mut out: Vec<Json> = Vec::new();
            let mut i: usize = 0;
            while i < elements.len()
                invariant
                    i <= elements@.len(),
                    out@.len() == i,
                    decreases_to!(*j => *elements),
                    forall|k: int| 0 <= k < i ==> rep_of(out@[k]) == rep_of(elements@[k]),
                decreases elements@.len() - i,
            {
                proof {
                    assert(decreases_to!(*elements => elements@));
                    assert(decreases_to!(elements@ => elements@[i as int]));
                }
                let val = deep_copy(&elements[i]);
                out.push(val);
                i = i + 1;
            }
            proof {
                lemma_elems_rep(out@);
                lemma_elems_rep(elements@);
                assert(elems_rep(out@) =~= elems_rep(elements@));
            }
            Json::JsonArray(out)
        },
        Json::JsonString(s) => Json::JsonString(s.clone()),
        Json::JsonNumber(t) => Json::JsonNumber(t.clone()),
        Json::JsonBoolean(b) => Json::JsonBoolean(*b),
        Json::JsonNull => Json::JsonNull,
        Json::JsonEmpty => Json::JsonEmpty,
    }
}

impl Clone for Json {
    /// Cloning preserves the model.
    fn clone(&self) -> (res: Self)
        ensures
            res@ == self@,
    {
        deep_copy(self)
    }
}

/// The value a lenient key lookup yields: the entry's value on an object
/// that has the key, the `Empty` sentinel otherwise.
pub open spec fn lenient_key(v: JsonRep, key: Seq<char>) -> JsonRep {
    match v {
        JsonRep::Obj(es) => match obj_lookup(es, key) {
            Some(w) => w,
            None => JsonRep::Empty,
        },
        _ => JsonRep::Empty,
    }
}

/// The value a lenient index lookup yields: the element on an array where
/// the index is in bounds, the `Empty` sentinel otherwise.
pub open spec fn lenient_index(v: JsonRep, i: int) -> JsonRep {
    match v {
        JsonRep::Arr(el) => if 0 <= i < el.len() {
            el[i]
        } else {
            JsonRep::Empty
        },
        _ => JsonRep::Empty,
    }
}

/// The first entry with the probed key holds the looked-up value.
proof fn lemma_obj_lookup_at(es: Seq<(Seq<char>, JsonRep)>, key: Seq<char>, i: int)
    requires
        0 <= i < es.len(),
        es[i].0 == key,
        forall|j: int| 0 <= j < i ==> es[j].0 != key,
    ensures
        obj_lookup(es, key) == Some(es[i].1),
    decreases i,
{
    if i > 0 {
        lemma_obj_lookup_at(es.drop_first(), key, i - 1);
    }
}

/// With no entry carrying the probed key, lookup finds nothing.
proof fn lemma_obj_lookup_absent(es: Seq<(Seq<char>, JsonRep)>, key: Seq<char>)
    requires
        forall|j: int| 0 <= j < es.len() ==> es[j].0 != key,
    ensures
        obj_lookup(es, key) is None,
    decreases es.len(),
{
    if es.len() > 0 {
        lemma_obj_lookup_absent(es.drop_first(), key);
    }
}

/// Replacing the value of the first entry with the given key is what
/// [`obj_insert`] does when the key is present.
proof fn lemma_obj_insert_at(es: Seq<(Seq<char>, JsonRep)>, key: Seq<char>, v: JsonRep, i: int)
    requires
        0 <= i < es.len(),
        es[i].0 == key,
        forall|j: int| 0 <= j < i ==> es[j].0 != key,
    ensures
        obj_insert(es, key, v) == es.update(i, (key, v)),
    decreases i,
{
    if i == 0 {
        assert(obj_insert(es, key, v) =~= es.update(0, (key, v)));
    } else {
        lemma_obj_insert_at(es.drop_first(), key, v, i - 1);
        assert(obj_insert(es, key, v) =~= es.update(i, (key, v)));
    }
}

/// Appending a new entry is what [`obj_insert`] does when the key is absent.
proof fn lemma_obj_insert_absent(es: Seq<(Seq<char>, JsonRep)>, key: Seq<char>, v: JsonRep)
    requires
        forall|j: int| 0 <= j < es.len() ==> es[j].0 != key,
    ensures
        obj_insert(es, key, v) == es.push((key, v)),
    decreases es.len(),
{
    if es.len() == 0 {
        assert(obj_insert(es, key, v) =~= es.push((key, v)));
    } else {
        lemma_obj_insert_absent(es.drop_first(), key, v);
        assert(obj_insert(es, key, v) =~= es.push((key, v)));
    }
}

/// Inserts `val` under `key` into an entry list with last-write-wins
/// resolution: the first entry with that key has its value replaced in
/// place, and a fresh key is appended at the end.
pub fn entries_insert(fields: &mut Vec<(String, Json)>, key: String, val: Json)
    ensures
        fields_rep(final(fields)@) == obj_insert(fields_rep(old(fields)@), key@, rep_of(val)),
{
    proof {
        lemma_fields_rep(fields@);
    }
    let ghost orig = fields@;
    let mut i: usize = 0;
    while i < fields.len()
        invariant
            i <= fields@.len(),
            fields@ == orig,
            orig == old(fields)@,
            forall|j: int| 0 <= j < i ==> fields@[j].0@ != key@,
        decreases fields@.len() - i,
    {
        if fields[i].0 == key {
            proof {
                lemma_fields_rep(orig);
                lemma_obj_insert_at(fields_rep(orig), key@, rep_of(val), i as int);
            }
            fields[i] = (key, val);
            proof {
                lemma_fields_rep(fields@);
                assert(fields@ == orig.update(i as int, (key, val)));
                assert(fields_rep(fields@) =~= fields_rep(orig).update(
                    i as int,
                    (key@, rep_of(val)),
                ));
                assert(fields_rep(fields@) == obj_insert(
                    fields_rep(old(fields)@),
                    key@,
                    rep_of(val),
                ));
            }
            return ;
        }
        i = i + 1;
    }
    proof {
        lemma_fields_rep(orig);
        lemma_obj_insert_absent(fields_rep(orig), key@, rep_of(val));
    }
    fields.push((key, val));
    proof {
        lemma_fields_rep(fields@);
        assert(fields_rep(fields@) =~= fields_rep(orig).push((key@, rep_of(val))));
    }
}

impl Json {
    /// A fresh, empty JSON object.
    pub fn new_object() -> (r: Self)
        ensures
            r@ == JsonRep::Obj(Seq::<(Seq<char>, JsonRep)>::empty()),
    {
        Json::JsonObject(Vec::new())
    }

    /// A fresh, empty JSON array.
    pub fn new_array() -> (r: Self)
        ensures
            r@ == JsonRep::Arr(Seq::<JsonRep>::empty()),
    {
        Json::JsonArray(Vec::new())
    }

    /// Reads the entry under `key`: the entry's value if `self` is an object
    /// that has the key, and the `Empty` sentinel — never a failure — if the
    /// key is absent or `self` is not an object.
    pub fn get_key(&self, key: &str) -> (r: Json)
        ensures
            r@ == lenient_key(self@, key@),
    {
        match self {
            Json::JsonObject(fields) => {
                let probe: String = key.to_owned();
                let mut i: usize = 0;
                while i < fields.len()
                    invariant
                        i <= fields@.len(),
                        probe@ == key@,
                        self@ == JsonRep::Obj(fields_rep(fields@)),
                        forall|j: int| 0 <= j < i ==> fields@[j].0@ != key@,
                    decreases fields@.len() - i,
                {
                    if fields[i].0 == probe {
                        proof {
                            lemma_fields_rep(fields@);
                            lemma_obj_lookup_at(fields_rep(fields@), key@, i as int);
                        }
                        let out = deep_copy(&fields[i].1);
                        proof {
                            assert(out@ == rep_of(fields@[i as int].1));
                            assert(obj_lookup(fields_rep(fields@), key@) == Some(
                                rep_of(fields@[i as int].1),
                            ));
                            assert(self@ == JsonRep::Obj(fields_rep(fields@)));
                        }
                        return out;
                    }
                    i = i + 1;
                }
                proof {
                    lemma_fields_rep(fields@);
                    lemma_obj_lookup_absent(fields_rep(fields@), key@);
                }
                Json::JsonEmpty
            },
            _ => Json::JsonEmpty,
        }
    }

    /// Reads the element at `idx`: the element if `self` is an array and the
    /// index is in bounds, and the `Empty` sentinel — never a failure —
    /// otherwise.
    pub fn get_index(&self, idx: usize) -> (r: Json)
        ensures
            r@ == lenient_index(self@, idx as int),
    {
        match self {
            Json::JsonArray(elements) => {
                if idx < elements.len() {
                    proof {
                        lemma_elems_rep(elements@);
                    }
                    deep_copy(&elements[idx])
                } else {
                    proof {
                        lemma_elems_rep(elements@);
                    }
                    Json::JsonEmpty
                }
            },
            _ => Json::JsonEmpty,
        }
    }

    /// Parses `val` and keeps only the value: the remainder is discarded,
    /// and a malformed input silently collapses into the `Empty` sentinel.
    /// A lossy convenience conversion, not a substitute for the fallible
    /// entry point `parse`, which callers needing diagnostics use directly.
    pub fn from_text(val: &str) -> (r: Json)
        ensures
            r@ == match crate::grammar::sp_parse(val@) {
                Ok((v, _)) => v,
                Err(_) => JsonRep::Empty,
            },
    {
        match crate::parser::parse(val) {
            Ok((json, _)) => json,
            Err(_) => Json::JsonEmpty,
        }
    }

    /// Renders the value back to JSON-like text. Two deliberate asymmetries
    /// callers must know, both stated by [`render`]: strings are emitted
    /// with no escaping, so a round trip through text is not safe for
    /// strings holding quotes or control characters; and an empty object or
    /// array is emitted as its closing delimiter alone, a known defect kept
    /// for compatibility. A number renders as the literal token it carries,
    /// and the `Empty` sentinel as the empty string.
    pub fn dump(&self) -> (out: String)
        ensures
            out@ == render(self@),
        decreases *self,
    {
        match self {
            Json::JsonObject(fields) => {
                proof {
                    reveal_strlit("{");
                    reveal_strlit("}");
                }
                if fields.len() == 0 {
                    let out = "}".to_owned();
                    proof {
                        assert(out@ =~= seq!['}']);
                    }
                    return out;
                }
                let mut result: String = "{".to_owned();
                proof {
                    lemma_fields_rep(fields@);
                    assert(fields@.take(0) =~= Seq::<(String, Json)>::empty());
                    assert(result@ =~= seq!['{'] + render_entries(fields_rep(fields@.take(0))));
                }
                let mut i: usize = 0;
                while i < fields.len()
                    invariant
                        0 < fields@.len(),
                        i <= fields@.len(),
                        decreases_to!(*self => *fields),
                        result@ == seq!['{'] + render_entries(fields_rep(fields@.take(i as int))),
                    decreases fields@.len() - i,
                {
                    proof {
                        assert(decreases_to!(*fields => fields@));
                        assert(decreases_to!(fields@ => fields@[i as int]));
                        reveal_strlit(",");
                        reveal_strlit("\"");
                        reveal_strlit("\":");
                    }
                    if i > 0 {
                        result.append(",");
                    }
                    result.append("\"");
                    result.append(fields[i].0.as_str());
                    result.append("\":");
                    let rendered = fields[i].1.dump();
                    result.append(rendered.as_str());
                    proof {
                        lemma_fields_rep(fields@);
                        lemma_fields_rep(fields@.take(i as int));
                        lemma_fields_rep(fields@.take(i + 1));
                        assert(fields_rep(fields@.take(i + 1)) =~= fields_rep(
                            fields@.take(i as int),
                        ).push((fields@[i as int].0@, rep_of(fields@[i as int].1))));
                        lemma_render_entries_push(
                            fields_rep(fields@.take(i as int)),
                            (fields@[i as int].0@, rep_of(fields@[i as int].1)),
                        );
                        assert(result@ =~= seq!['{'] + render_entries(
                            fields_rep(fields@.take(i + 1)),
                        ));
                    }
                    i = i + 1;
                }
                result.append("}");
                proof {
                    assert(fields@.take(fields@.len() as int) =~= fields@);
                    assert(result@ =~= seq!['{'] + render_entries(fields_rep(fields@)) + seq![
                        '}',
                    ]);
                }
                result
            },
            Json::JsonArray(elements) => {
                proof {
                    reveal_strlit("[");
                    reveal_strlit("]");
                }
                if elements.len() == 0 {
                    let out = "]".to_owned();
                    proof {
                        assert(out@ =~= seq![']']);
                    }
                    return out;
                }
                let mut result: String = "[".to_owned();
                proof {
                    lemma_elems_rep(elements@);
                    assert(elements@.take(0) =~= Seq::<Json>::empty());
                    assert(result@ =~= seq!['['] + render_elems(elems_rep(elements@.take(0))));
                }
                let mut i: usize = 0;
                while i < elements.len()
                    invariant
                        0 < elements@.len(),
                        i <= elements@.len(),
                        decreases_to!(*self => *elements),
                        result@ == seq!['['] + render_elems(elems_rep(elements@.take(i as int))),
                    decreases elements@.len() - i,
                {
                    proof {
                        assert(decreases_to!(*elements => elements@));
                        assert(decreases_to!(elements@ => elements@[i as int]));
                        reveal_strlit(",");
                    }
                    if i > 0 {
                        result.append(",");
                    }
                    let rendered = elements[i].dump();
                    result.append(rendered.as_str());
                    proof {
                        lemma_elems_rep(elements@);
                        lemma_elems_rep(elements@.take(i as int));
                        lemma_elems_rep(elements@.take(i + 1));
                        assert(elems_rep(elements@.take(i + 1)) =~= elems_rep(
                            elements@.take(i as int),
                        ).push(rep_of(elements@[i as int])));
                        lemma_render_elems_push(
                            elems_rep(elements@.take(i as int)),
                            rep_of(elements@[i as int]),
                        );
                        assert(result@ =~= seq!['['] + render_elems(
                            elems_rep(elements@.take(i + 1)),
                        ));
                    }
                    i = i + 1;
                }
                result.append("]");
                proof {
                    assert(elements@.take(elements@.len() as int) =~= elements@);
                    assert(result@ =~= seq!['['] + render_elems(elems_rep(elements@)) + seq![
                        ']',
                    ]);
                }
                result
            },
            Json::JsonString(s) => {
                proof {
                    reveal_strlit("\"");
                }
                let out = "\"".to_owned().concat(s.as_str()).concat("\"");
                proof {
                    assert(out@ =~= seq!['"'] + s@ + seq!['"']);
                }
                out
            },
            Json::JsonNumber(t) => t.clone(),
            Json::JsonBoolean(b) => {
                if *b {
                    let out = "true".to_owned();
                    proof {
                        reveal_strlit("true");
                        assert(out@ =~= seq!['t', 'r', 'u', 'e']);
                    }
                    out
                } else {
                    let out = "false".to_owned();
                    proof {
                        reveal_strlit("false");
                        assert(out@ =~= seq!['f', 'a', 'l', 's', 'e']);
                    }
                    out
                }
            },
            Json::JsonNull => {
                let out = "null".to_owned();
                proof {
                    reveal_strlit("null");
                    assert(out@ =~= seq!['n', 'u', 'l', 'l']);
                }
                out
            },
            Json::JsonEmpty => String::new(),
        }
    }

    /// Writes `val` over the element at `idx`. Writing through an index is
    /// owed only to an array with the index in bounds; on any other receiver
    /// this is a usage error, reported by returning `false` with the value
    /// unchanged.
    pub fn set_index(&mut self, idx: usize, val: Json) -> (ok: bool)
        ensures
            match old(self)@ {
                JsonRep::Arr(el) => {
                    if 0 <= idx < el.len() {
                        ok && final(self)@ == JsonRep::Arr(el.update(idx as int, rep_of(val)))
                    } else {
                        !ok && final(self)@ == old(self)@
                    }
                },
                _ => !ok && final(self)@ == old(self)@,
            },
    {
        let mut taken = Json::JsonNull;
        core::mem::swap(self, &mut taken);
        match taken {
            Json::JsonArray(mut elements) => {
                let ghost orig = elements@;
                proof {
                    lemma_elems_rep(orig);
                }
                let ok = if idx < elements.len() {
                    elements[idx] = val;
                    proof {
                        lemma_elems_rep(orig);
                        lemma_elems_rep(elements@);
                        assert(elems_rep(elements@) =~= elems_rep(orig).update(
                            idx as int,
                            rep_of(val),
                        ));
                    }
                    true
                } else {
                    false
                };
                let mut back = Json::JsonArray(elements);
                core::mem::swap(self, &mut back);
                ok
            },
            other => {
                let mut back = other;
                core::mem::swap(self, &mut back);
                false
            },
        }
    }

    /// Writes `val` under `key` with last-write-wins resolution. Writing
    /// through a key is owed only to an object; on any other receiver this
    /// is a usage error, reported by returning `false` with the value
    /// unchanged.
    pub fn set_key(&mut self, key: &str, val: Json) -> (ok: bool)
        ensures
            match old(self)@ {
                JsonRep::Obj(es) => ok && final(self)@ == JsonRep::Obj(
                    obj_insert(es, key@, rep_of(val)),
                ),
                _ => !ok && final(self)@ == old(self)@,
            },
    {
        let mut taken = Json::JsonNull;
        core::mem::swap(self, &mut taken);
        match taken {
            Json::JsonObject(mut fields) => {
                let owned: String = key.to_owned();
                entries_insert(&mut fields, owned, val);
                let mut back = Json::JsonObject(fields);
                core::mem::swap(self, &mut back);
                true
            },
            other => {
                let mut back = other;
                core::mem::swap(self, &mut back);
                false
            },
        }
    }
}

} // verus!
