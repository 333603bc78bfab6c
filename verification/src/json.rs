//! A JSON value type held as plain data, with a mathematical view.
//!
//! Numbers keep the textual form that a JSON encoder renders for them, so
//! integers and fractions pass through unchanged without floating point.
//! Objects are association lists in the order their entries were added.

use vstd::prelude::*;
use crate::text::{all_digits, decimal, digits_value, owned, parse_u64, str_eq, u64_text};

verus! {

/// A JSON document.
#[derive(Debug)]
pub enum Json {
    Null,
    Bool(bool),
    /// A number in its JSON text form, e.g. `12`, `-3` or `0.5`.
    Number(String),
    Str(String),
    Array(Vec<Json>),
    Object(Vec<(String, Json)>),
}

/// The mathematical content of a [`Json`] value.
pub enum JsonV {
    Null,
    Bool(bool),
    Number(Seq<char>),
    Str(Seq<char>),
    Array(Seq<JsonV>),
    Object(Seq<(Seq<char>, JsonV)>),
}

pub open spec fn jview(j: Json) -> JsonV
    decreases j,
{
    match j {
        Json::Null => JsonV::Null,
        Json::Bool(b) => JsonV::Bool(b),
        Json::Number(n) => JsonV::Number(n@),
        Json::Str(s) => JsonV::Str(s@),
        Json::Array(v) => JsonV::Array(jviews(v@)),
        Json::Object(o) => JsonV::Object(jentries(o@)),
    }
}

pub open spec fn jviews(s: Seq<Json>) -> Seq<JsonV>
    decreases s,
{
    if s.len() == 0 {
        Seq::empty()
    } else {
        seq![jview(s[0])] + jviews(s.subrange(1, s.len() as int))
    }
}

pub open spec fn jentries(s: Seq<(String, Json)>) -> Seq<(Seq<char>, JsonV)>
    decreases s,
{
    if s.len() == 0 {
        Seq::empty()
    } else {
        seq![(s[0].0@, jview(s[0].1))] + jentries(s.subrange(1, s.len() as int))
    }
}

impl View for Json {
    type V = JsonV;

    open spec fn view(&self) -> JsonV {
        jview(*self)
    }
}


pub proof fn lemma_jviews(s: Seq<Json>)
    ensures
        jviews(s).len() == s.len(),
        forall|i: int| 0 <= i < s.len() ==> #[trigger] jviews(s)[i] == jview(s[i]),
    decreases s.len(),
{
    if s.len() > 0 {
        let t = s.subrange(1, s.len() as int);
        lemma_jviews(t);
        assert forall|i: int| 0 <= i < s.len() implies #[trigger] jviews(s)[i] == jview(s[i]) by {
            if i > 0 {
                assert(jviews(s)[i] == jviews(t)[i - 1]);
                assert(t[i - 1] == s[i]);
            }
        }
    }
}

pub proof fn lemma_jentries(s: Seq<(String, Json)>)
    ensures
        jentries(s).len() == s.len(),
        forall|i: int|
            0 <= i < s.len() ==> #[trigger] jentries(s)[i] == (s[i].0@, jview(s[i].1)),
    decreases s.len(),
{
    if s.len() > 0 {
        let t = s.subrange(1, s.len() as int);
        lemma_jentries(t);
        assert forall|i: int|
            0 <= i < s.len() implies #[trigger] jentries(s)[i] == (s[i].0@, jview(s[i].1)) by {
            if i > 0 {
                assert(jentries(s)[i] == jentries(t)[i - 1]);
                assert(t[i - 1] == s[i]);
            }
        }
    }
}

/// The first value stored under `key` in an entry list.
pub open spec fn obj_get(es: Seq<(Seq<char>, JsonV)>, key: Seq<char>) -> Option<JsonV>
    decreases es.len(),
{
    if es.len() == 0 {
        None
    } else if es[0].0 == key {
        Some(es[0].1)
    } else {
        obj_get(es.subrange(1, es.len() as int), key)
    }
}

/// Strict order of keys: lexicographic by character (the order of `String`
/// in Rust, which compares the UTF-8 bytes).
pub open spec fn key_lt(a: Seq<char>, b: Seq<char>) -> bool
    decreases a.len(),
{
    if a.len() == 0 {
        b.len() > 0
    } else if b.len() == 0 {
        false
    } else if a[0] != b[0] {
        a[0] < b[0]
    } else {
        key_lt(a.drop_first(), b.drop_first())
    }
}

/// No key is before itself.
pub proof fn lemma_key_lt_irreflexive(a: Seq<char>)
    ensures
        !key_lt(a, a),
    decreases a.len(),
{
    if a.len() > 0 {
        lemma_key_lt_irreflexive(a.drop_first());
    }
}

/// Every object inside a value, the value itself included, lists its keys
/// in strictly increasing order (so no key twice), as an ordered map keeps
/// them.
pub open spec fn keys_sorted_deep(v: JsonV) -> bool
    decreases v,
{
    match v {
        JsonV::Object(es) => {
            &&& forall|i: int, j: int| 0 <= i < j < es.len() ==> key_lt(#[trigger] es[i].0, #[trigger] es[j].0)
            &&& entries_sorted_deep(es)
        },
        JsonV::Array(a) => items_sorted_deep(a),
        _ => true,
    }
}

/// [`keys_sorted_deep`] of every value of an entry list.
pub open spec fn entries_sorted_deep(es: Seq<(Seq<char>, JsonV)>) -> bool
    decreases es,
{
    if es.len() == 0 {
        true
    } else {
        keys_sorted_deep(es[0].1) && entries_sorted_deep(es.subrange(1, es.len() as int))
    }
}

/// [`keys_sorted_deep`] of every item of a list.
pub open spec fn items_sorted_deep(a: Seq<JsonV>) -> bool
    decreases a,
{
    if a.len() == 0 {
        true
    } else {
        keys_sorted_deep(a[0]) && items_sorted_deep(a.subrange(1, a.len() as int))
    }
}

/// A member of an object whose objects all keep their keys sorted keeps
/// them sorted too.
pub proof fn lemma_member_sorted(v: JsonV, key: Seq<char>)
    requires
        keys_sorted_deep(v),
    ensures
        jget(v, key) matches Some(x) ==> keys_sorted_deep(x),
{
    match v {
        JsonV::Object(es) => {
            lemma_obj_get_sorted(es, key);
        },
        _ => {},
    }
}

proof fn lemma_obj_get_sorted(es: Seq<(Seq<char>, JsonV)>, key: Seq<char>)
    requires
        entries_sorted_deep(es),
    ensures
        obj_get(es, key) matches Some(x) ==> keys_sorted_deep(x),
    decreases es.len(),
{
    if es.len() > 0 && es[0].0 != key {
        lemma_obj_get_sorted(es.subrange(1, es.len() as int), key);
    }
}

/// The first entry under a key is what a lookup finds.
pub proof fn lemma_obj_get_first(es: Seq<(Seq<char>, JsonV)>, i: int, key: Seq<char>)
    requires
        0 <= i < es.len(),
        es[i].0 == key,
        forall|j: int| 0 <= j < i ==> (#[trigger] es[j]).0 != key,
    ensures
        obj_get(es, key) == Some(es[i].1),
    decreases i,
{
    if i > 0 {
        let t = es.subrange(1, es.len() as int);
        assert(es[0].0 != key);
        assert forall|j: int| 0 <= j < i - 1 implies (#[trigger] t[j]).0 != key by {
            assert(t[j] == es[j + 1]);
        }
        assert(t[i - 1] == es[i]);
        lemma_obj_get_first(t, i - 1, key);
    }
}

/// `value.get(key)`: the member `key` of an object, `None` otherwise.
pub open spec fn jget(v: JsonV, key: Seq<char>) -> Option<JsonV> {
    match v {
        JsonV::Object(es) => obj_get(es, key),
        _ => None,
    }
}

/// `.and_then(|v| v.as_str())`.
pub open spec fn jstr(v: Option<JsonV>) -> Option<Seq<char>> {
    match v {
        Some(JsonV::Str(s)) => Some(s),
        _ => None,
    }
}

/// `value.get(key).and_then(|v| v.as_str())`.
pub open spec fn jget_str(v: JsonV, key: Seq<char>) -> Option<Seq<char>> {
    jstr(jget(v, key))
}

/// `.and_then(|v| v.as_array())`.
pub open spec fn jarr(v: Option<JsonV>) -> Option<Seq<JsonV>> {
    match v {
        Some(JsonV::Array(a)) => Some(a),
        _ => None,
    }
}

/// `.and_then(|v| v.as_bool())`.
pub open spec fn jbool(v: Option<JsonV>) -> Option<bool> {
    match v {
        Some(JsonV::Bool(b)) => Some(b),
        _ => None,
    }
}

/// The value of a number whose text is a plain run of decimal digits that
/// fits in a `u64` (`Value::as_u64`: non-negative integers only).
pub open spec fn number_u64(t: Seq<char>) -> Option<nat> {
    if all_digits(t) && digits_value(t) <= 0xffff_ffff_ffff_ffff {
        Some(digits_value(t))
    } else {
        None
    }
}

/// `.and_then(|v| v.as_u64())`.
pub open spec fn ju64(v: Option<JsonV>) -> Option<nat> {
    match v {
        Some(JsonV::Number(t)) => number_u64(t),
        _ => None,
    }
}

pub open spec fn is_obj(v: JsonV) -> bool {
    v is Object
}

/// The first index whose key is `key`, if any.
pub open spec fn obj_index(es: Seq<(Seq<char>, JsonV)>, key: Seq<char>) -> Option<int>
    decreases es.len(),
{
    if es.len() == 0 {
        None
    } else if es[0].0 == key {
        Some(0)
    } else {
        match obj_index(es.subrange(1, es.len() as int), key) {
            Some(i) => Some(i + 1),
            None => None,
        }
    }
}

/// `Map::insert`: replaces the value under `key`, or adds the entry at the
/// end.
pub open spec fn obj_insert(es: Seq<(Seq<char>, JsonV)>, key: Seq<char>, v: JsonV) -> Seq<
    (Seq<char>, JsonV),
> {
    match obj_index(es, key) {
        Some(i) => es.update(i, (key, v)),
        None => es.push((key, v)),
    }
}

/// `Map::remove`: drops the entry under `key`, if any.
pub open spec fn obj_remove(es: Seq<(Seq<char>, JsonV)>, key: Seq<char>) -> Seq<
    (Seq<char>, JsonV),
> {
    match obj_index(es, key) {
        Some(i) => es.remove(i),
        None => es,
    }
}

pub proof fn lemma_obj_index(es: Seq<(Seq<char>, JsonV)>, key: Seq<char>, i: int)
    requires
        0 <= i <= es.len(),
        forall|j: int| 0 <= j < i ==> es[j].0 != key,
    ensures
        i < es.len() && es[i].0 == key ==> obj_index(es, key) == Some(i) && obj_get(es, key)
            == Some(es[i].1),
        i == es.len() ==> obj_index(es, key) is None && obj_get(es, key) is None,
    decreases i,
{
    if es.len() > 0 && i > 0 {
        let t = es.subrange(1, es.len() as int);
        assert forall|j: int| 0 <= j < i - 1 implies t[j].0 != key by {
            assert(t[j] == es[j + 1]);
        }
        lemma_obj_index(t, key, i - 1);
        if i < es.len() {
            assert(t[i - 1] == es[i]);
        }
    }
}

pub proof fn lemma_obj_index_some(es: Seq<(Seq<char>, JsonV)>, key: Seq<char>)
    requires
        obj_index(es, key) is Some,
    ensures
        0 <= obj_index(es, key)->0 < es.len(),
        es[obj_index(es, key)->0].0 == key,
        obj_get(es, key) == Some(es[obj_index(es, key)->0].1),
        forall|j: int| 0 <= j < obj_index(es, key)->0 ==> es[j].0 != key,
    decreases es.len(),
{
    if es[0].0 != key {
        let t = es.subrange(1, es.len() as int);
        lemma_obj_index_some(t, key);
        let i = obj_index(t, key)->0;
        assert(t[i] == es[i + 1]);
        assert forall|j: int| 0 <= j < i + 1 implies es[j].0 != key by {
            if j > 0 {
                assert(t[j - 1] == es[j]);
            }
        }
    }
}

pub proof fn lemma_obj_index_none(es: Seq<(Seq<char>, JsonV)>, key: Seq<char>)
    requires
        obj_index(es, key) is None,
    ensures
        obj_get(es, key) is None,
        forall|j: int| 0 <= j < es.len() ==> es[j].0 != key,
    decreases es.len(),
{
    if es.len() > 0 {
        let t = es.subrange(1, es.len() as int);
        lemma_obj_index_none(t, key);
        assert forall|j: int| 0 <= j < es.len() implies es[j].0 != key by {
            if j > 0 {
                assert(t[j - 1] == es[j]);
            }
        }
    }
}

impl Json {
    /// A JSON string holding the characters of `s`.
    pub fn string(s: &str) -> (r: Json)
        ensures
            r@ == JsonV::Str(s@),
    {
        Json::Str(owned(s))
    }

    /// An empty object.
    pub fn empty_object() -> (r: Json)
        ensures
            r@ == JsonV::Object(Seq::empty()),
    {
        Json::Object(Vec::new())
    }

    /// Index of the entry stored under `key` in an object's entry list.
    pub fn entry_index(es: &Vec<(String, Json)>, key: &str) -> (r: Option<usize>)
        ensures
            r matches Some(i) ==> obj_index(jentries(es@), key@) == Some(i as int),
            r is None ==> obj_index(jentries(es@), key@) is None,
    {
        proof {
            lemma_jentries(es@);
        }
        let mut i: usize = 0;
        while i < es.len()
            invariant
                i <= es@.len(),
                jentries(es@).len() == es@.len(),
                forall|j: int|
                    0 <= j < es@.len() ==> #[trigger] jentries(es@)[j] == (es@[j].0@, jview(es@[j].1)),
                forall|j: int| 0 <= j < i ==> jentries(es@)[j].0 != key@,
            decreases es.len() - i,
        {
            if str_eq(es[i].0.as_str(), key) {
                proof {
                    lemma_obj_index(jentries(es@), key@, i as int);
                }
                return Some(i);
            }
            i = i + 1;
        }
        proof {
            lemma_obj_index(jentries(es@), key@, i as int);
        }
        None
    }

    /// `value.get(key)`.
    pub fn get<'a>(&'a self, key: &str) -> (r: Option<&'a Json>)
        ensures
            r matches Some(x) ==> jget(self@, key@) == Some(x@),
            r is None ==> jget(self@, key@) is None,
    {
        match self {
            Json::Object(es) => {
                proof {
                    lemma_jentries(es@);
                }
                match Json::entry_index(es, key) {
                    Some(i) => {
                        proof {
                            lemma_obj_index_some(jentries(es@), key@);
                        }
                        Some(&es[i].1)
                    },
                    None => {
                        proof {
                            lemma_obj_index_none(jentries(es@), key@);
                        }
                        None
                    },
                }
            },
            _ => None,
        }
    }

    /// `value.as_str()`.
    pub fn as_str<'a>(&'a self) -> (r: Option<&'a str>)
        ensures
            r matches Some(s) ==> self@ == JsonV::Str(s@),
            r is None ==> !(self@ is Str),
    {
        match self {
            Json::Str(s) => Some(s.as_str()),
            _ => None,
        }
    }

    /// `value.as_bool()`.
    pub fn as_bool(&self) -> (r: Option<bool>)
        ensures
            r == jbool(Some(self@)),
    {
        match self {
            Json::Bool(b) => Some(*b),
            _ => None,
        }
    }

    /// `value.as_array()`.
    pub fn as_array<'a>(&'a self) -> (r: Option<&'a Vec<Json>>)
        ensures
            r matches Some(a) ==> self@ == JsonV::Array(jviews(a@)),
            r is None ==> !(self@ is Array),
    {
        match self {
            Json::Array(a) => Some(a),
            _ => None,
        }
    }

    /// `value.as_u64()`.
    pub fn as_u64(&self) -> (r: Option<u64>)
        ensures
            r matches Some(n) ==> ju64(Some(self@)) == Some(n as nat),
            r is None ==> ju64(Some(self@)) is None,
    {
        match self {
            Json::Number(t) => {
                let s = t.as_str();
                if s.unicode_len() > 0 && s.get_char(0) == '+' {
                    return None;
                }
                let r = parse_u64(s);
                proof {
                    let v = t@;
                    if v.len() > 0 {
                        assert(v[0] != '+');
                    }
                }
                r
            },
            _ => None,
        }
    }

    /// `value.is_object()`.
    pub fn is_object(&self) -> (r: bool)
        ensures
            r == is_obj(self@),
    {
        match self {
            Json::Object(_) => true,
            _ => false,
        }
    }

    /// A copy of this value.
    #[verifier::loop_isolation(false)]
    pub fn deep_clone(&self) -> (r: Json)
        ensures
            r@ == self@,
        decreases self,
    {
        match self {
            Json::Null => Json::Null,
            Json::Bool(b) => Json::Bool(*b),
            Json::Number(t) => Json::Number(t.clone()),
            Json::Str(t) => Json::Str(t.clone()),
            Json::Array(v) => {
                let mut out: Vec<Json> = Vec::new();
                let mut i: usize = 0;
                while i < v.len()
                    invariant
                        i <= v@.len(),
                        out@.len() == i,
                        forall|j: int| 0 <= j < i ==> jview(#[trigger] out@[j]) == jview(v@[j]),
                    decreases v.len() - i,
                {
                    assert(decreases_to!(*self => *v));
                    assert(decreases_to!(*v => v@));
                    assert(decreases_to!(v@ => v@[i as int]));
                    let c = v[i].deep_clone();
                    out.push(c);
                    i = i + 1;
                }
                proof {
                    lemma_jviews(out@);
                    lemma_jviews(v@);
                    assert(jviews(out@) =~= jviews(v@));
                }
                Json::Array(out)
            },
            Json::Object(es) => {
                let mut out: Vec<(String, Json)> = Vec::new();
                let mut i: usize = 0;
                while i < es.len()
                    invariant
                        i <= es@.len(),
                        out@.len() == i,
                        forall|j: int|
                            0 <= j < i ==> (#[trigger] out@[j]).0@ == es@[j].0@ && jview(out@[j].1)
                                == jview(es@[j].1),
                    decreases es.len() - i,
                {
                    assert(decreases_to!(*self => *es));
                    assert(decreases_to!(*es => es@));
                    assert(decreases_to!(es@ => es@[i as int]));
                    assert(decreases_to!(es@[i as int] => es@[i as int].1));
                    let c = es[i].1.deep_clone();
                    out.push((es[i].0.clone(), c));
                    i = i + 1;
                }
                proof {
                    lemma_jentries(out@);
                    lemma_jentries(es@);
                    assert(jentries(out@) =~= jentries(es@));
                }
                Json::Object(out)
            },
        }
    }

    /// Structural equality of two values.
    #[verifier::loop_isolation(false)]
    pub fn equals(&self, other: &Json) -> (r: bool)
        ensures
            r == (self@ == other@),
        decreases self,
    {
        match (self, other) {
            (Json::Null, Json::Null) => true,
            (Json::Bool(a), Json::Bool(b)) => *a == *b,
            (Json::Number(a), Json::Number(b)) => str_eq(a.as_str(), b.as_str()),
            (Json::Str(a), Json::Str(b)) => str_eq(a.as_str(), b.as_str()),
            (Json::Array(a), Json::Array(b)) => {
                proof {
                    lemma_jviews(a@);
                    lemma_jviews(b@);
                }
                if a.len() != b.len() {
                    return false;
                }
                let mut i: usize = 0;
                while i < a.len()
                    invariant
                        i <= a@.len(),
                        a@.len() == b@.len(),
                        jviews(a@).len() == a@.len(),
                        jviews(b@).len() == b@.len(),
                        forall|j: int| 0 <= j < a@.len() ==> #[trigger] jviews(a@)[j] == jview(a@[j]),
                        forall|j: int| 0 <= j < b@.len() ==> #[trigger] jviews(b@)[j] == jview(b@[j]),
                        forall|j: int| 0 <= j < i ==> jview(#[trigger] a@[j]) == jview(b@[j]),
                    decreases a.len() - i,
                {
                    assert(decreases_to!(*self => *a));
                    assert(decreases_to!(*a => a@));
                    assert(decreases_to!(a@ => a@[i as int]));
                    if !a[i].equals(&b[i]) {
                        assert(jviews(a@)[i as int] != jviews(b@)[i as int]);
                        return false;
                    }
                    i = i + 1;
                }
                assert(jviews(a@) =~= jviews(b@));
                true
            },
            (Json::Object(a), Json::Object(b)) => {
                proof {
                    lemma_jentries(a@);
                    lemma_jentries(b@);
                }
                if a.len() != b.len() {
                    return false;
                }
                let mut i: usize = 0;
                while i < a.len()
                    invariant
                        i <= a@.len(),
                        a@.len() == b@.len(),
                        jentries(a@).len() == a@.len(),
                        jentries(b@).len() == b@.len(),
                        forall|j: int|
                            0 <= j < a@.len() ==> #[trigger] jentries(a@)[j] == (a@[j].0@, jview(
                                a@[j].1,
                            )),
                        forall|j: int|
                            0 <= j < b@.len() ==> #[trigger] jentries(b@)[j] == (b@[j].0@, jview(
                                b@[j].1,
                            )),
                        forall|j: int| 0 <= j < i ==> #[trigger] jentries(a@)[j] == jentries(b@)[j],
                    decreases a.len() - i,
                {
                    assert(decreases_to!(*self => *a));
                    assert(decreases_to!(*a => a@));
                    assert(decreases_to!(a@ => a@[i as int]));
                    assert(decreases_to!(a@[i as int] => a@[i as int].1));
                    if !str_eq(a[i].0.as_str(), b[i].0.as_str()) {
                        assert(jentries(a@)[i as int] != jentries(b@)[i as int]);
                        return false;
                    }
                    if !a[i].1.equals(&b[i].1) {
                        assert(jentries(a@)[i as int] != jentries(b@)[i as int]);
                        return false;
                    }
                    i = i + 1;
                }
                assert(jentries(a@) =~= jentries(b@));
                true
            },
            _ => false,
        }
    }

    /// `Map::insert` on an object; other values are left unchanged.
    pub fn insert(&mut self, key: &str, value: Json)
        ensures
            match old(self)@ {
                JsonV::Object(es) => final(self)@ == JsonV::Object(obj_insert(es, key@, value@)),
                _ => final(self)@ == old(self)@,
            },
    {
        match self {
            Json::Object(es) => {
                proof {
                    lemma_jentries(es@);
                }
                let ghost old_es = es@;
                match Json::entry_index(es, key) {
                    Some(i) => {
                        proof {
                            lemma_obj_index_some(jentries(es@), key@);
                        }
                        es.set(i, (owned(key), value));
                        proof {
                            lemma_jentries(es@);
                            assert(jentries(es@) =~= jentries(old_es).update(
                                i as int,
                                (key@, value@),
                            ));
                        }
                    },
                    None => {
                        es.push((owned(key), value));
                        proof {
                            lemma_jentries(es@);
                            assert(jentries(es@) =~= jentries(old_es).push((key@, value@)));
                        }
                    },
                }
            },
            _ => {},
        }
    }

    /// `Map::remove` on an object: the removed value, if `key` was present.
    pub fn remove(&mut self, key: &str) -> (r: Option<Json>)
        ensures
            match old(self)@ {
                JsonV::Object(es) => {
                    &&& final(self)@ == JsonV::Object(obj_remove(es, key@))
                    &&& r matches Some(x) ==> obj_get(es, key@) == Some(x@)
                    &&& r is None ==> obj_get(es, key@) is None
                },
                _ => final(self)@ == old(self)@ && r is None,
            },
    {
        match self {
            Json::Object(es) => {
                proof {
                    lemma_jentries(es@);
                }
                let ghost old_es = es@;
                match Json::entry_index(es, key) {
                    Some(i) => {
                        proof {
                            lemma_obj_index_some(jentries(es@), key@);
                        }
                        let (_, v) = es.remove(i);
                        proof {
                            lemma_jentries(es@);
                            assert(jentries(es@) =~= jentries(old_es).remove(i as int));
                        }
                        Some(v)
                    },
                    None => {
                        proof {
                            lemma_obj_index_none(jentries(es@), key@);
                        }
                        None
                    },
                }
            },
            _ => None,
        }
    }

    /// A JSON number for an unsigned integer.
    pub fn from_u64(n: u64) -> (r: Json)
        ensures
            r@ == JsonV::Number(decimal(n as nat)),
    {
        Json::Number(u64_text(n))
    }

    /// `value.get(key).and_then(|v| v.as_str())`.
    pub fn get_str<'a>(&'a self, key: &str) -> (r: Option<&'a str>)
        ensures
            r matches Some(s) ==> jget_str(self@, key@) == Some(s@),
            r is None ==> jget_str(self@, key@) is None,
    {
        match self.get(key) {
            Some(v) => v.as_str(),
            None => None,
        }
    }

    /// `value.get(key).and_then(|v| v.as_u64())`.
    pub fn get_u64(&self, key: &str) -> (r: Option<u64>)
        ensures
            r matches Some(n) ==> ju64(jget(self@, key@)) == Some(n as nat),
            r is None ==> ju64(jget(self@, key@)) is None,
    {
        match self.get(key) {
            Some(v) => v.as_u64(),
            None => None,
        }
    }

    /// `value.get(key).and_then(|v| v.as_bool())`.
    pub fn get_bool(&self, key: &str) -> (r: Option<bool>)
        ensures
            r == jbool(jget(self@, key@)),
    {
        match self.get(key) {
            Some(v) => v.as_bool(),
            None => None,
        }
    }

    /// `value.get(key).and_then(|v| v.as_array())`.
    pub fn get_array<'a>(&'a self, key: &str) -> (r: Option<&'a Vec<Json>>)
        ensures
            r matches Some(a) ==> jarr(jget(self@, key@)) == Some(jviews(a@)),
            r is None ==> jarr(jget(self@, key@)) is None,
    {
        match self.get(key) {
            Some(v) => v.as_array(),
            None => None,
        }
    }
}


/// `{k: v}`.
pub fn obj1(k: &str, v: Json) -> (r: Json)
    ensures
        r@ == JsonV::Object(seq![(k@, v@)]),
{
    let mut es: Vec<(String, Json)> = Vec::new();
    es.push((owned(k), v));
    proof {
        lemma_jentries(es@);
    }
    let r = Json::Object(es);
    assert(jentries(es@) =~= seq![(k@, v@)]);
    r
}

/// `{k1: v1, k2: v2}`.
pub fn obj2(k1: &str, v1: Json, k2: &str, v2: Json) -> (r: Json)
    ensures
        r@ == JsonV::Object(seq![(k1@, v1@), (k2@, v2@)]),
{
    let mut es: Vec<(String, Json)> = Vec::new();
    es.push((owned(k1), v1));
    es.push((owned(k2), v2));
    proof {
        lemma_jentries(es@);
    }
    let r = Json::Object(es);
    assert(jentries(es@) =~= seq![(k1@, v1@), (k2@, v2@)]);
    r
}

/// `{k1: v1, k2: v2, k3: v3}`.
pub fn obj3(k1: &str, v1: Json, k2: &str, v2: Json, k3: &str, v3: Json) -> (r: Json)
    ensures
        r@ == JsonV::Object(seq![(k1@, v1@), (k2@, v2@), (k3@, v3@)]),
{
    let mut es: Vec<(String, Json)> = Vec::new();
    es.push((owned(k1), v1));
    es.push((owned(k2), v2));
    es.push((owned(k3), v3));
    proof {
        lemma_jentries(es@);
    }
    let r = Json::Object(es);
    assert(jentries(es@) =~= seq![(k1@, v1@), (k2@, v2@), (k3@, v3@)]);
    r
}

/// An array of the given values.
pub fn array_of(items: Vec<Json>) -> (r: Json)
    ensures
        r@ == JsonV::Array(jviews(items@)),
{
    Json::Array(items)
}

/// `[v]`.
pub fn array1(v: Json) -> (r: Json)
    ensures
        r@ == JsonV::Array(seq![v@]),
{
    let mut items: Vec<Json> = Vec::new();
    items.push(v);
    proof {
        lemma_jviews(items@);
    }
    assert(jviews(items@) =~= seq![v@]);
    Json::Array(items)
}


/// The compact text `serde_json` writes for a value (`Value::to_string`).
pub uninterp spec fn json_text(v: JsonV) -> Seq<char>;

/// The value `serde_json` reads from a text (`serde_json::from_str`), or
/// `None` when the text is not JSON.
pub uninterp spec fn json_parse(t: Seq<char>) -> Option<JsonV>;

/// The value `serde_json` reads from bytes (`serde_json::from_slice`), or
/// `None` when they are not JSON.
pub uninterp spec fn json_parse_bytes(b: Seq<u8>) -> Option<JsonV>;

/// `serde_json`'s JSON value, carried through opaquely.
#[verifier::external_type_specification]
#[verifier::external_body]
pub struct ExSerdeValue(serde_json::Value);

/// Converts a value into `serde_json`'s representation, one node for one
/// node.
#[verifier::external_body]
fn to_serde(v: &Json) -> serde_json::Value {
    match v {
        Json::Null => serde_json::Value::Null,
        Json::Bool(b) => serde_json::Value::Bool(*b),
        Json::Number(t) => t.parse::<serde_json::Number>().map(serde_json::Value::Number).unwrap_or(serde_json::Value::Null),
        Json::Str(s) => serde_json::Value::String(s.clone()),
        Json::Array(a) => serde_json::Value::Array(a.iter().map(to_serde).collect()),
        Json::Object(es) => serde_json::Value::Object(es.iter().map(|(k, x)| (k.clone(), to_serde(x))).collect()),
    }
}

/// Converts `serde_json`'s representation into a value, one node for one
/// node.
#[verifier::external_body]
pub(crate) fn from_serde(v: serde_json::Value) -> Json {
    match v {
        serde_json::Value::Null => Json::Null,
        serde_json::Value::Bool(b) => Json::Bool(b),
        serde_json::Value::Number(n) => Json::Number(n.to_string()),
        serde_json::Value::String(s) => Json::Str(s),
        serde_json::Value::Array(a) => Json::Array(a.into_iter().map(from_serde).collect()),
        serde_json::Value::Object(m) => Json::Object(m.into_iter().map(|(k, x)| (k, from_serde(x))).collect()),
    }
}

/// `value.to_string()`: the compact JSON text of a value.
///
/// Trusted: calls `serde_json`'s `Display` for `Value`; the contract only
/// names its result (entries of an object come out ordered by key, as
/// `serde_json`'s map keeps them).
#[verifier::external_body]
pub(crate) fn to_json_text(v: &Json) -> (r: String)
    ensures
        r@ == json_text(v@),
{
    to_serde(v).to_string()
}

/// `serde_json::from_str::<Value>(t).ok()`.
///
/// Trusted: calls `serde_json::from_str`; the contract only names its
/// result.
#[verifier::external_body]
pub(crate) fn parse_json_text(t: &str) -> (r: Option<Json>)
    ensures
        r matches Some(j) ==> json_parse(t@) == Some(j@),
        r is None ==> json_parse(t@) is None,
{
    serde_json::from_str::<serde_json::Value>(t).ok().map(from_serde)
}

/// `serde_json::from_slice::<Value>(b).ok()`.
///
/// Trusted: calls `serde_json::from_slice`; the contract only names its
/// result.
#[verifier::external_body]
pub(crate) fn parse_json_bytes(b: &[u8]) -> (r: Option<Json>)
    ensures
        r matches Some(j) ==> json_parse_bytes(b@) == Some(j@),
        r is None ==> json_parse_bytes(b@) is None,
{
    serde_json::from_slice::<serde_json::Value>(b).ok().map(from_serde)
}


/// `map.get(key)` on an entry list.
pub fn entries_get<'a>(es: &'a Vec<(String, Json)>, key: &str) -> (r: Option<&'a Json>)
    ensures
        r matches Some(x) ==> obj_get(jentries(es@), key@) == Some(x@),
        r is None ==> obj_get(jentries(es@), key@) is None,
{
    proof {
        lemma_jentries(es@);
    }
    match Json::entry_index(es, key) {
        Some(i) => {
            proof {
                lemma_obj_index_some(jentries(es@), key@);
            }
            Some(&es[i].1)
        },
        None => {
            proof {
                lemma_obj_index_none(jentries(es@), key@);
            }
            None
        },
    }
}

/// `map.insert(key, value)` on an entry list.
pub fn entries_insert(es: &mut Vec<(String, Json)>, key: &str, value: Json)
    ensures
        jentries(final(es)@) == obj_insert(jentries(old(es)@), key@, value@),
{
    proof {
        lemma_jentries(es@);
    }
    let ghost old_es = es@;
    match Json::entry_index(es, key) {
        Some(i) => {
            proof {
                lemma_obj_index_some(jentries(es@), key@);
            }
            es.set(i, (owned(key), value));
            proof {
                lemma_jentries(es@);
                assert(jentries(es@) =~= jentries(old_es).update(i as int, (key@, value@)));
            }
        },
        None => {
            es.push((owned(key), value));
            proof {
                lemma_jentries(es@);
                assert(jentries(es@) =~= jentries(old_es).push((key@, value@)));
            }
        },
    }
}

/// `map.remove(key)` on an entry list.
pub fn entries_remove(es: &mut Vec<(String, Json)>, key: &str) -> (r: Option<Json>)
    ensures
        jentries(final(es)@) == obj_remove(jentries(old(es)@), key@),
        r matches Some(x) ==> obj_get(jentries(old(es)@), key@) == Some(x@),
        r is None ==> obj_get(jentries(old(es)@), key@) is None,
{
    proof {
        lemma_jentries(es@);
    }
    let ghost old_es = es@;
    match Json::entry_index(es, key) {
        Some(i) => {
            proof {
                lemma_obj_index_some(jentries(es@), key@);
            }
            let (_, v) = es.remove(i);
            proof {
                lemma_jentries(es@);
                assert(jentries(es@) =~= jentries(old_es).remove(i as int));
            }
            Some(v)
        },
        None => {
            proof {
                lemma_obj_index_none(jentries(es@), key@);
            }
            None
        },
    }
}

/// A copy of an entry list.
pub fn clone_entries(es: &Vec<(String, Json)>) -> (r: Vec<(String, Json)>)
    ensures
        jentries(r@) == jentries(es@),
{
    let mut out: Vec<(String, Json)> = Vec::new();
    let mut i: usize = 0;
    while i < es.len()
        invariant
            i <= es@.len(),
            out@.len() == i,
            forall|j: int|
                0 <= j < i ==> (#[trigger] out@[j]).0@ == es@[j].0@ && jview(out@[j].1) == jview(
                    es@[j].1,
                ),
        decreases es.len() - i,
    {
        out.push((es[i].0.clone(), es[i].1.deep_clone()));
        i = i + 1;
    }
    proof {
        lemma_jentries(out@);
        lemma_jentries(es@);
        assert(jentries(out@) =~= jentries(es@));
    }
    out
}

/// Appends a member to an object's entry list.
pub fn push_member(es: &mut Vec<(String, Json)>, key: &str, v: Json)
    ensures
        jentries(final(es)@) == jentries(old(es)@).push((key@, v@)),
{
    let ghost before = es@;
    es.push((owned(key), v));
    proof {
        lemma_jentries(before);
        lemma_jentries(es@);
        assert(jentries(es@) =~= jentries(before).push((key@, v@)));
    }
}

/// Appending a value appends its view.
pub proof fn lemma_jviews_push(s: Seq<Json>, x: Json)
    ensures
        jviews(s.push(x)) == jviews(s).push(jview(x)),
{
    lemma_jviews(s);
    lemma_jviews(s.push(x));
    assert(jviews(s.push(x)) =~= jviews(s).push(jview(x)));
}

/// An empty entry list has no entries.
pub proof fn lemma_jentries_empty(es: Seq<(String, Json)>)
    requires
        es.len() == 0,
    ensures
        jentries(es) == Seq::<(Seq<char>, JsonV)>::empty(),
{
    assert(jentries(es) =~= Seq::<(Seq<char>, JsonV)>::empty());
}

} // verus!
