//! JSON values as the library reads them: metadata of archives and inline
//! metadata arrive in this form, parsed by the caller.
use vstd::prelude::*;
use crate::text::str_eq;

verus! {

/// A JSON value. Numbers keep their text; an object keeps its members in
/// order.
#[derive(Debug, PartialEq, Eq)]
pub enum JsonValue {
    Null,
    Bool(bool),
    Number(String),
    String(String),
    Array(Vec<JsonValue>),
    Object(Vec<(String, JsonValue)>),
}

/// The mathematical value of a JSON value.
pub enum JsonV {
    Null,
    Bool(bool),
    Number(Seq<char>),
    String(Seq<char>),
    Array(Seq<JsonV>),
    Object(Seq<(Seq<char>, JsonV)>),
}

pub open spec fn json_view(v: JsonValue) -> JsonV
    decreases v,
{
    match v {
        JsonValue::Null => JsonV::Null,
        JsonValue::Bool(b) => JsonV::Bool(b),
        JsonValue::Number(n) => JsonV::Number(n@),
        JsonValue::String(s) => JsonV::String(s@),
        JsonValue::Array(items) => JsonV::Array(json_items_view(items@)),
        JsonValue::Object(members) => JsonV::Object(json_members_view(members@)),
    }
}

pub open spec fn json_items_view(s: Seq<JsonValue>) -> Seq<JsonV>
    decreases s,
{
    if s.len() == 0 {
        Seq::empty()
    } else {
        json_items_view(s.drop_last()).push(json_view(s.last()))
    }
}

pub open spec fn json_members_view(s: Seq<(String, JsonValue)>) -> Seq<(Seq<char>, JsonV)>
    decreases s,
{
    if s.len() == 0 {
        Seq::empty()
    } else {
        json_members_view(s.drop_last()).push((s.last().0@, json_view(s.last().1)))
    }
}

pub proof fn lemma_items_view(s: Seq<JsonValue>)
    ensures
        json_items_view(s).len() == s.len(),
        forall|i: int| 0 <= i < s.len() ==> #[trigger] json_items_view(s)[i] == json_view(s[i]),
    decreases s.len(),
{
    if s.len() > 0 {
        lemma_items_view(s.drop_last());
        assert forall|i: int| 0 <= i < s.len() implies #[trigger] json_items_view(s)[i] == json_view(s[i]) by {
            if i < s.len() - 1 {
                assert(s.drop_last()[i] == s[i]);
            }
        }
    }
}

pub proof fn lemma_members_view(s: Seq<(String, JsonValue)>)
    ensures
        json_members_view(s).len() == s.len(),
        forall|i: int| 0 <= i < s.len() ==> #[trigger] json_members_view(s)[i] == (s[i].0@, json_view(s[i].1)),
    decreases s.len(),
{
    if s.len() > 0 {
        lemma_members_view(s.drop_last());
        assert forall|i: int| 0 <= i < s.len() implies #[trigger] json_members_view(s)[i] == (
            s[i].0@,
            json_view(s[i].1),
        ) by {
            if i < s.len() - 1 {
                assert(s.drop_last()[i] == s[i]);
            }
        }
    }
}

impl View for JsonValue {
    type V = JsonV;

    open spec fn view(&self) -> JsonV {
        json_view(*self)
    }
}

/// The member of an object named `key` (the first with that name).
pub open spec fn member(obj: Seq<(String, JsonValue)>, key: Seq<char>) -> Option<JsonValue>
    decreases obj.len(),
{
    if obj.len() == 0 {
        None
    } else {
        match member(obj.drop_last(), key) {
            Some(v) => Some(v),
            None => if obj.last().0@ == key {
                Some(obj.last().1)
            } else {
                None
            },
        }
    }
}

/// The text of a string value.
pub open spec fn text_of(v: JsonValue) -> Option<Seq<char>> {
    match v {
        JsonValue::String(s) => Some(s@),
        _ => None,
    }
}

proof fn lemma_member_first(obj: Seq<(String, JsonValue)>, key: Seq<char>, i: int)
    requires
        0 <= i < obj.len(),
        obj[i].0@ == key,
        forall|j: int| 0 <= j < i ==> #[trigger] obj[j].0@ != key,
    ensures
        member(obj, key) == Some(obj[i].1),
    decreases obj.len(),
{
    if i < obj.len() - 1 {
        assert(obj.drop_last()[i] == obj[i]);
        assert forall|j: int| 0 <= j < i implies #[trigger] obj.drop_last()[j].0@ != key by {
            assert(obj.drop_last()[j] == obj[j]);
        }
        lemma_member_first(obj.drop_last(), key, i);
    } else {
        lemma_member_none(obj.drop_last(), key);
    }
}

proof fn lemma_member_none(obj: Seq<(String, JsonValue)>, key: Seq<char>)
    requires
        forall|j: int| 0 <= j < obj.len() ==> #[trigger] obj[j].0@ != key,
    ensures
        member(obj, key) is None,
    decreases obj.len(),
{
    if obj.len() > 0 {
        assert forall|j: int| 0 <= j < obj.len() - 1 implies #[trigger] obj.drop_last()[j].0@ != key by {
            assert(obj.drop_last()[j] == obj[j]);
        }
        lemma_member_none(obj.drop_last(), key);
    }
}

/// The member of an object named `key` (see [`member`]).
pub fn get_member<'a>(obj: &'a Vec<(String, JsonValue)>, key: &str) -> (r: Option<&'a JsonValue>)
    ensures
        match member(obj@, key@) {
            Some(v) => r matches Some(x) && *x == v,
            None => r is None,
        },
{
    let mut i: usize = 0;
    while i < obj.len()
        invariant
            i <= obj.len(),
            forall|j: int| 0 <= j < i ==> #[trigger] obj@[j].0@ != key@,
        decreases obj.len() - i,
    {
        if str_eq(obj[i].0.as_str(), key) {
            proof {
                lemma_member_first(obj@, key@, i as int);
            }
            return Some(&obj[i].1);
        }
        i += 1;
    }
    proof {
        lemma_member_none(obj@, key@);
    }
    None
}

} // verus!
