//! YAML values as the library reads them. Markdown frontmatter arrives in
//! this form, parsed by the caller, and is read as JSON: tags are dropped,
//! and mapping entries whose key is not a string are left out.
use vstd::prelude::*;
use crate::commands::inline_metadata::{upsert, upsert_member};
use crate::json::{JsonV, JsonValue};
use crate::text::chars_of;

verus! {

/// A YAML value. Numbers keep the text of their JSON form; a mapping keeps
/// its entries in order.
#[derive(Debug, PartialEq, Eq)]
pub enum YamlValue {
    Null,
    Bool(bool),
    Number(String),
    String(String),
    Sequence(Vec<YamlValue>),
    Mapping(Vec<(YamlValue, YamlValue)>),
    Tagged(String, Box<YamlValue>),
}

/// The JSON reading of a YAML value.
pub open spec fn yaml_json(v: YamlValue) -> JsonV
    decreases v,
{
    match v {
        YamlValue::Null => JsonV::Null,
        YamlValue::Bool(b) => JsonV::Bool(b),
        YamlValue::Number(n) => JsonV::Number(n@),
        YamlValue::String(s) => JsonV::String(s@),
        YamlValue::Sequence(items) => JsonV::Array(yaml_items_json(items@)),
        YamlValue::Mapping(entries) => JsonV::Object(yaml_entries_json(entries@)),
        YamlValue::Tagged(_, inner) => yaml_json(*inner),
    }
}

/// The JSON readings of the items, in order.
pub open spec fn yaml_items_json(s: Seq<YamlValue>) -> Seq<JsonV>
    decreases s,
{
    if s.len() == 0 {
        Seq::empty()
    } else {
        yaml_items_json(s.drop_last()).push(yaml_json(s.last()))
    }
}

/// The members that the entries set, in turn: each entry with a string key
/// sets that key to the JSON reading of its value; the others are left out.
pub open spec fn yaml_entries_json(s: Seq<(YamlValue, YamlValue)>) -> Seq<(Seq<char>, JsonV)>
    decreases s,
{
    if s.len() == 0 {
        Seq::empty()
    } else {
        match s.last().0 {
            YamlValue::String(k) => upsert(yaml_entries_json(s.drop_last()), k@, yaml_json(s.last().1)),
            _ => yaml_entries_json(s.drop_last()),
        }
    }
}

/// Reads a YAML value as JSON (see [`yaml_json`]).
pub fn yaml_to_json(v: &YamlValue) -> (r: JsonValue)
    ensures
        r@ == yaml_json(*v),
    decreases v,
{
    match v {
        YamlValue::Null => JsonValue::Null,
        YamlValue::Bool(b) => JsonValue::Bool(*b),
        YamlValue::Number(n) => JsonValue::Number(n.clone()),
        YamlValue::String(s) => JsonValue::String(s.clone()),
        YamlValue::Sequence(items) => {
            let mut out: Vec<JsonValue> = Vec::new();
            let mut i: usize = 0;
            proof {
                assert(items@.take(0) =~= Seq::<YamlValue>::empty());
            }
            while i < items.len()
                invariant
                    *v == YamlValue::Sequence(*items),
                    i <= items.len(),
                    crate::json::json_items_view(out@) == yaml_items_json(items@.take(i as int)),
                decreases items.len() - i,
            {
                proof {
                    assert(items@.take(i + 1).drop_last() =~= items@.take(i as int));
                    assert(items@.take(i + 1).last() == items@[i as int]);
                    assert(decreases_to!(*v => (*v)->Sequence_0));
                    assert(decreases_to!(*items => items@));
                    assert(decreases_to!(items@ => items@[i as int]));
                    assert(decreases_to!(*v => items@[i as int]));
                }
                let j = yaml_to_json(&items[i]);
                let ghost before = out@;
                out.push(j);
                proof {
                    assert(out@.drop_last() =~= before);
                }
                i += 1;
            }
            proof {
                assert(items@.take(items.len() as int) =~= items@);
            }
            JsonValue::Array(out)
        },
        YamlValue::Mapping(entries) => {
            let mut out: Vec<(String, JsonValue)> = Vec::new();
            let mut i: usize = 0;
            proof {
                assert(entries@.take(0) =~= Seq::<(YamlValue, YamlValue)>::empty());
            }
            while i < entries.len()
                invariant
                    *v == YamlValue::Mapping(*entries),
                    i <= entries.len(),
                    crate::json::json_members_view(out@) == yaml_entries_json(entries@.take(i as int)),
                decreases entries.len() - i,
            {
                proof {
                    assert(entries@.take(i + 1).drop_last() =~= entries@.take(i as int));
                    assert(entries@.take(i + 1).last() == entries@[i as int]);
                }
                match &entries[i].0 {
                    YamlValue::String(k) => {
                        proof {
                            assert(decreases_to!(*v => (*v)->Mapping_0));
                            assert(decreases_to!(*entries => entries@));
                            assert(decreases_to!(entries@ => entries@[i as int]));
                            assert(decreases_to!(entries@[i as int] => entries@[i as int].1));
                            assert(decreases_to!(*v => entries@[i as int].1));
                        }
                        let j = yaml_to_json(&entries[i].1);
                        upsert_member(&mut out, chars_of(k.as_str()), j);
                    },
                    _ => {},
                }
                i += 1;
            }
            proof {
                assert(entries@.take(entries.len() as int) =~= entries@);
            }
            JsonValue::Object(out)
        },
        YamlValue::Tagged(_, inner) => yaml_to_json(inner),
    }
}

} // verus!
