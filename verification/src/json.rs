//! JSON documents as the views read them: Notion property values, schemas
//! and op payloads.
use vstd::prelude::*;
use crate::text::str_eq;

verus! {

broadcast use vstd::string::group_string_axioms;

/// A JSON value. Object entries keep the order the parsed map yields them
/// in (sorted by key); a number keeps its display text.
pub enum Json {
    Null,
    Bool(bool),
    Number(String),
    Str(String),
    Array(Vec<Json>),
    Object(Vec<(String, Json)>),
}

/// The value under `key` among object entries `m`: the first entry so named.
pub open spec fn lookup(m: Seq<(String, Json)>, key: Seq<char>) -> Option<Json>
    decreases m.len(),
{
    if m.len() == 0 {
        None
    } else if m[0].0@ == key {
        Some(m[0].1)
    } else {
        lookup(m.skip(1), key)
    }
}

/// `v[key]`: the value under `key` when `v` is an object holding it.
pub open spec fn get_spec(v: Json, key: Seq<char>) -> Option<Json> {
    match v {
        Json::Object(m) => lookup(m@, key),
        _ => None,
    }
}

/// `v[a][b]`.
pub open spec fn get2(v: Json, a: Seq<char>, b: Seq<char>) -> Option<Json> {
    match get_spec(v, a) {
        Some(x) => get_spec(x, b),
        None => None,
    }
}

/// The text of a string value.
pub open spec fn str_spec(v: Option<Json>) -> Option<Seq<char>> {
    match v {
        Some(Json::Str(s)) => Some(s@),
        _ => None,
    }
}

/// The truth value of a boolean value.
pub open spec fn bool_spec(v: Option<Json>) -> Option<bool> {
    match v {
        Some(Json::Bool(b)) => Some(b),
        _ => None,
    }
}

/// The text of a string value, or the empty text.
pub open spec fn str_or_empty(v: Option<Json>) -> Seq<char> {
    match str_spec(v) {
        Some(s) => s,
        None => Seq::empty(),
    }
}

/// A reference, read as the value it points at.
pub open spec fn deref_opt(o: Option<&Json>) -> Option<Json> {
    match o {
        Some(x) => Some(*x),
        None => None,
    }
}

proof fn lemma_lookup_skip(m: Seq<(String, Json)>, key: Seq<char>, i: int)
    requires
        0 <= i < m.len(),
        forall|j: int| 0 <= j < i ==> (#[trigger] m[j]).0@ != key,
    ensures
        lookup(m, key) == lookup(m.skip(i), key),
    decreases i,
{
    if i == 0 {
        assert(m.skip(0) =~= m);
    } else {
        assert(m[0].0@ != key);
        assert(m.skip(1).skip(i - 1) =~= m.skip(i));
        assert forall|j: int| 0 <= j < i - 1 implies (#[trigger] m.skip(1)[j]).0@ != key by {
            assert(m.skip(1)[j] == m[j + 1]);
        }
        lemma_lookup_skip(m.skip(1), key, i - 1);
    }
}

proof fn lemma_lookup_none(m: Seq<(String, Json)>, key: Seq<char>)
    requires
        forall|j: int| 0 <= j < m.len() ==> (#[trigger] m[j]).0@ != key,
    ensures
        lookup(m, key) is None,
    decreases m.len(),
{
    if m.len() > 0 {
        assert(m[0].0@ != key);
        assert forall|j: int| 0 <= j < m.len() - 1 implies (#[trigger] m.skip(1)[j]).0@ != key by {
            assert(m.skip(1)[j] == m[j + 1]);
        }
        lemma_lookup_none(m.skip(1), key);
    }
}

impl Json {
    /// The value under `key`, when this is an object holding it.
    pub fn get(&self, key: &str) -> (r: Option<&Json>)
        ensures
            deref_opt(r) == get_spec(*self, key@),
    {
        match self {
            Json::Object(m) => {
                let mut i: usize = 0;
                while i < m.len()
                    invariant
                        i <= m@.len(),
                        get_spec(*self, key@) == lookup(m@, key@),
                        forall|j: int| 0 <= j < i ==> (#[trigger] m@[j]).0@ != key@,
                    decreases m@.len() - i,
                {
                    if str_eq(m[i].0.as_str(), key) {
                        proof {
                            lemma_lookup_skip(m@, key@, i as int);
                            assert(m@.skip(i as int)[0] == m@[i as int]);
                        }
                        return Some(&m[i].1);
                    }
                    i += 1;
                }
                proof {
                    lemma_lookup_none(m@, key@);
                }
                None
            },
            _ => None,
        }
    }

    /// The text, when this is a string.
    pub fn as_str(&self) -> (r: Option<&str>)
        ensures
            match r {
                Some(s) => str_spec(Some(*self)) == Some(s@),
                None => str_spec(Some(*self)) is None,
            },
    {
        match self {
            Json::Str(s) => Some(s.as_str()),
            _ => None,
        }
    }
}

/// Whether the value under `key` of `v` is `true` (missing or non-boolean reads as false).
pub fn bool_field(v: &Json, key: &str) -> (r: bool)
    ensures
        r == (bool_spec(get_spec(*v, key@)) == Some(true)),
{
    match v.get(key) {
        Some(Json::Bool(b)) => *b,
        _ => false,
    }
}

/// The text under `key` of `v`, or the empty text.
pub fn str_field<'a>(v: &'a Json, key: &str) -> (r: &'a str)
    ensures
        r@ == str_or_empty(get_spec(*v, key@)),
{
    proof {
        reveal_strlit("");
    }
    match v.get(key) {
        Some(x) => match x.as_str() {
            Some(s) => s,
            None => "",
        },
        None => "",
    }
}

} // verus!
