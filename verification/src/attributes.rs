//! Pad attributes: their kinds, the registry describing them, their values
//! and filters over them.
use vstd::prelude::*;
use crate::model::{copy_strings, strings_view, Metadata, MetadataV, TodoStatus};
use crate::text::str_eq;

verus! {

/// The kind of value an attribute holds.
#[derive(Clone, Copy, Debug, PartialEq, Eq, Structural)]
pub enum AttributeKind {
    /// A plain flag.
    Bool,
    /// A flag with the time it was set.
    BoolWithTimestamp,
    /// One of a fixed set of names.
    Enum,
    /// A list of strings.
    List,
    /// An optional reference to another pad.
    Ref,
}

/// The description of one attribute.
#[derive(Debug)]
pub struct AttributeSpec {
    /// The attribute's name.
    pub name: String,
    pub kind: AttributeKind,
    /// Whether list filters may use it.
    pub filterable: bool,
    /// Whether a change must be reflected in the parent's status.
    pub propagates_up: bool,
    /// Whether removing a value from a registry removes it from every pad.
    pub cascades_on_delete: bool,
    /// Whether setting it sets other fields too.
    pub has_coupling: bool,
}

pub struct AttributeSpecV {
    pub name: Seq<char>,
    pub kind: AttributeKind,
    pub filterable: bool,
    pub propagates_up: bool,
    pub cascades_on_delete: bool,
    pub has_coupling: bool,
}

impl View for AttributeSpec {
    type V = AttributeSpecV;

    open spec fn view(&self) -> AttributeSpecV {
        AttributeSpecV {
            name: self.name@,
            kind: self.kind,
            filterable: self.filterable,
            propagates_up: self.propagates_up,
            cascades_on_delete: self.cascades_on_delete,
            has_coupling: self.has_coupling,
        }
    }
}

pub open spec fn plain_spec(name: Seq<char>, kind: AttributeKind) -> AttributeSpecV {
    AttributeSpecV {
        name,
        kind,
        filterable: false,
        propagates_up: false,
        cascades_on_delete: false,
        has_coupling: false,
    }
}

/// The registry: pinned (flag with time, filterable, coupled with delete
/// protection), protected (flag), status (enum, filterable, propagates to
/// the parent), tags (list, filterable, cascades on delete) and parent
/// (reference).
pub open spec fn registry() -> Seq<AttributeSpecV> {
    seq![
        AttributeSpecV {
            filterable: true,
            has_coupling: true,
            ..plain_spec("pinned"@, AttributeKind::BoolWithTimestamp)
        },
        plain_spec("protected"@, AttributeKind::Bool),
        AttributeSpecV { filterable: true, propagates_up: true, ..plain_spec("status"@, AttributeKind::Enum) },
        AttributeSpecV { filterable: true, cascades_on_delete: true, ..plain_spec("tags"@, AttributeKind::List) },
        plain_spec("parent"@, AttributeKind::Ref),
    ]
}

impl AttributeSpec {
    /// A plain attribute of this kind, with every behaviour off.
    pub fn new(name: &str, kind: AttributeKind) -> (r: AttributeSpec)
        ensures
            r@ == plain_spec(name@, kind),
    {
        AttributeSpec {
            name: name.to_string(),
            kind,
            filterable: false,
            propagates_up: false,
            cascades_on_delete: false,
            has_coupling: false,
        }
    }

    /// The same specification, filterable.
    fn filterable(self) -> (r: AttributeSpec)
        ensures
            r@ == (AttributeSpecV { filterable: true, ..self@ }),
    {
        AttributeSpec { filterable: true, ..self }
    }

    /// The same specification, propagating to the parent.
    fn propagates_up(self) -> (r: AttributeSpec)
        ensures
            r@ == (AttributeSpecV { propagates_up: true, ..self@ }),
    {
        AttributeSpec { propagates_up: true, ..self }
    }

    /// The same specification, cascading on delete.
    fn cascades_on_delete(self) -> (r: AttributeSpec)
        ensures
            r@ == (AttributeSpecV { cascades_on_delete: true, ..self@ }),
    {
        AttributeSpec { cascades_on_delete: true, ..self }
    }

    /// The same specification, coupled with another attribute.
    fn has_coupling(self) -> (r: AttributeSpec)
        ensures
            r@ == (AttributeSpecV { has_coupling: true, ..self@ }),
    {
        AttributeSpec { has_coupling: true, ..self }
    }
}

/// All attribute specifications, in registry order.
pub fn attributes() -> (r: Vec<AttributeSpec>)
    ensures
        r@.map_values(|a: AttributeSpec| a@) == registry(),
{
    let pinned = AttributeSpec::new("pinned", AttributeKind::BoolWithTimestamp).filterable().has_coupling();
    let protected = AttributeSpec::new("protected", AttributeKind::Bool);
    let status = AttributeSpec::new("status", AttributeKind::Enum).filterable().propagates_up();
    let tags = AttributeSpec::new("tags", AttributeKind::List).filterable().cascades_on_delete();
    let parent = AttributeSpec::new("parent", AttributeKind::Ref);
    let mut r: Vec<AttributeSpec> = Vec::new();
    r.push(pinned);
    r.push(protected);
    r.push(status);
    r.push(tags);
    r.push(parent);
    proof {
        assert(r@.map_values(|a: AttributeSpec| a@) =~= registry());
    }
    r
}

/// The first registry position at or after `k` with this name.
pub open spec fn spec_position(reg: Seq<AttributeSpecV>, name: Seq<char>, k: int) -> Option<int>
    decreases reg.len() - k,
{
    if k < 0 || k >= reg.len() {
        None
    } else if reg[k].name == name {
        Some(k)
    } else {
        spec_position(reg, name, k + 1)
    }
}

/// The specification of the attribute with this name, if there is one.
pub fn get_spec(name: &str) -> (r: Option<AttributeSpec>)
    ensures
        match spec_position(registry(), name@, 0) {
            Some(k) => r matches Some(a) && a@ == registry()[k],
            None => r is None,
        },
{
    let mut all = attributes();
    let ghost reg = registry();
    let mut k: usize = 0;
    while k < all.len()
        invariant
            all@.map_values(|a: AttributeSpec| a@) == reg,
            reg == registry(),
            k <= all.len(),
            spec_position(reg, name@, 0) == spec_position(reg, name@, k as int),
        decreases all.len() - k,
    {
        proof {
            assert(all@.map_values(|a: AttributeSpec| a@)[k as int] == all@[k as int]@);
        }
        if str_eq(all[k].name.as_str(), name) {
            let a = all.remove(k);
            return Some(a);
        }
        k += 1;
    }
    None
}

/// The names of the filterable attributes, in registry order.
pub open spec fn filterable_names(reg: Seq<AttributeSpecV>) -> Seq<Seq<char>>
    decreases reg.len(),
{
    if reg.len() == 0 {
        Seq::empty()
    } else {
        let r = filterable_names(reg.drop_last());
        if reg.last().filterable {
            r.push(reg.last().name)
        } else {
            r
        }
    }
}

/// The names of the filterable attributes, in registry order.
pub fn filterable_attrs() -> (r: Vec<String>)
    ensures
        strings_view(r@) == filterable_names(registry()),
{
    let all = attributes();
    let ghost reg = registry();
    let mut out: Vec<String> = Vec::new();
    let mut k: usize = 0;
    proof {
        assert(strings_view(out@) =~= filterable_names(reg.take(0)));
    }
    while k < all.len()
        invariant
            all@.map_values(|a: AttributeSpec| a@) == reg,
            k <= all.len(),
            strings_view(out@) == filterable_names(reg.take(k as int)),
        decreases all.len() - k,
    {
        proof {
            assert(reg.take(k + 1).drop_last() =~= reg.take(k as int));
            assert(reg.take(k + 1).last() == all@[k as int]@);
        }
        if all[k].filterable {
            let ghost before = out@;
            out.push(all[k].name.clone());
            proof {
                assert(strings_view(out@) =~= strings_view(before).push(all@[k as int].name@));
            }
        }
        k += 1;
    }
    proof {
        assert(reg.take(all.len() as int) =~= reg);
    }
    out
}

/// The value of an attribute. Timestamps are Unix milliseconds.
#[derive(Debug)]
pub enum AttrValue {
    Bool(bool),
    BoolWithTimestamp { value: bool, timestamp: Option<i64> },
    Enum(String),
    List(Vec<String>),
    Ref(Option<u128>),
}

pub enum AttrValueV {
    Bool(bool),
    BoolWithTimestamp { value: bool, timestamp: Option<i64> },
    Enum(Seq<char>),
    List(Seq<Seq<char>>),
    Ref(Option<u128>),
}

impl View for AttrValue {
    type V = AttrValueV;

    open spec fn view(&self) -> AttrValueV {
        match self {
            AttrValue::Bool(b) => AttrValueV::Bool(*b),
            AttrValue::BoolWithTimestamp { value, timestamp } => AttrValueV::BoolWithTimestamp {
                value: *value,
                timestamp: *timestamp,
            },
            AttrValue::Enum(s) => AttrValueV::Enum(s@),
            AttrValue::List(v) => AttrValueV::List(strings_view(v@)),
            AttrValue::Ref(r) => AttrValueV::Ref(*r),
        }
    }
}

impl AttrValue {
    /// A flag with a time, now: the time is kept only when the flag is set.
    pub fn bool_with_timestamp(value: bool) -> (r: AttrValue)
        ensures
            r@ matches AttrValueV::BoolWithTimestamp { value: v, timestamp: t } && v == value && (t is Some <==> value),
    {
        AttrValue::bool_with_timestamp_at(value, crate::model::now_millis())
    }

    /// A flag with a time: the time is kept only when the flag is set.
    pub fn bool_with_timestamp_at(value: bool, now: i64) -> (r: AttrValue)
        ensures
            r@ == (AttrValueV::BoolWithTimestamp { value, timestamp: if value { Some(now) } else { None } }),
    {
        AttrValue::BoolWithTimestamp { value, timestamp: if value { Some(now) } else { None } }
    }

    /// Whether the value counts as set: the flag, a present reference, a
    /// non-empty list; an enum value always counts.
    pub fn is_truthy(&self) -> (r: bool)
        ensures
            r == match self@ {
                AttrValueV::Bool(v) => v,
                AttrValueV::BoolWithTimestamp { value, .. } => value,
                AttrValueV::Enum(_) => true,
                AttrValueV::List(v) => v.len() > 0,
                AttrValueV::Ref(v) => v is Some,
            },
    {
        match self {
            AttrValue::Bool(v) => *v,
            AttrValue::BoolWithTimestamp { value, .. } => *value,
            AttrValue::Enum(_) => true,
            AttrValue::List(v) => v.len() > 0,
            AttrValue::Ref(v) => v.is_some(),
        }
    }

    /// The flag of a flag value.
    pub fn as_bool(&self) -> (r: Option<bool>)
        ensures
            r == match self@ {
                AttrValueV::Bool(v) => Some(v),
                AttrValueV::BoolWithTimestamp { value, .. } => Some(value),
                _ => None::<bool>,
            },
    {
        match self {
            AttrValue::Bool(v) => Some(*v),
            AttrValue::BoolWithTimestamp { value, .. } => Some(*value),
            _ => None,
        }
    }

    /// The name of an enum value.
    pub fn as_enum(&self) -> (r: Option<&str>)
        ensures
            match self@ {
                AttrValueV::Enum(s) => r matches Some(x) && x@ == s,
                _ => r is None,
            },
    {
        match self {
            AttrValue::Enum(s) => Some(s.as_str()),
            _ => None,
        }
    }

    /// The items of a list value.
    pub fn as_list(&self) -> (r: Option<&Vec<String>>)
        ensures
            match self@ {
                AttrValueV::List(v) => r matches Some(x) && strings_view(x@) == v,
                _ => r is None,
            },
    {
        match self {
            AttrValue::List(v) => Some(v),
            _ => None,
        }
    }

    /// The reference of a reference value.
    pub fn as_ref(&self) -> (r: Option<Option<u128>>)
        ensures
            r == match self@ {
                AttrValueV::Ref(v) => Some(v),
                _ => None::<Option<u128>>,
            },
    {
        match self {
            AttrValue::Ref(v) => Some(*v),
            _ => None,
        }
    }
}

/// What setting an attribute asks of the caller afterwards.
#[derive(Debug)]
pub enum AttrSideEffect {
    /// Nothing further to do.
    NoEffect,
    /// The status changed: the parent's status must be recomputed.
    PropagateStatusUp,
    /// Tags were added: the caller checks that they exist.
    ValidateTags(Vec<String>),
}

/// The name of a todo status, as filters spell it.
pub open spec fn status_name(s: TodoStatus) -> Seq<char> {
    match s {
        TodoStatus::Planned => "Planned"@,
        TodoStatus::InProgress => "InProgress"@,
        TodoStatus::Done => "Done"@,
    }
}

pub fn status_text(s: TodoStatus) -> (r: String)
    ensures
        r@ == status_name(s),
{
    match s {
        TodoStatus::Planned => "Planned".to_string(),
        TodoStatus::InProgress => "InProgress".to_string(),
        TodoStatus::Done => "Done".to_string(),
    }
}

/// The value of the named attribute of a pad's metadata, if it has one.
pub open spec fn spec_get_attr(m: MetadataV, name: Seq<char>) -> Option<AttrValueV> {
    if name == "pinned"@ {
        Some(AttrValueV::BoolWithTimestamp { value: m.is_pinned, timestamp: m.pinned_at })
    } else if name == "protected"@ {
        Some(AttrValueV::Bool(m.delete_protected))
    } else if name == "status"@ {
        Some(AttrValueV::Enum(status_name(m.status)))
    } else if name == "tags"@ {
        Some(AttrValueV::List(m.tags))
    } else if name == "parent"@ {
        Some(AttrValueV::Ref(m.parent_id))
    } else {
        None
    }
}

impl Metadata {
    /// The value of the named attribute (see [`spec_get_attr`]).
    pub fn get_attr(&self, name: &str) -> (r: Option<AttrValue>)
        ensures
            match spec_get_attr(self@, name@) {
                Some(v) => r matches Some(x) && x@ == v,
                None => r is None,
            },
    {
        if str_eq(name, "pinned") {
            Some(AttrValue::BoolWithTimestamp { value: self.is_pinned, timestamp: self.pinned_at })
        } else if str_eq(name, "protected") {
            Some(AttrValue::Bool(self.delete_protected))
        } else if str_eq(name, "status") {
            Some(AttrValue::Enum(status_text(self.status)))
        } else if str_eq(name, "tags") {
            Some(AttrValue::List(copy_strings(&self.tags)))
        } else if str_eq(name, "parent") {
            Some(AttrValue::Ref(self.parent_id))
        } else {
            None
        }
    }
}

/// How a filter compares.
#[derive(Clone, Copy, Debug, PartialEq, Eq, Structural)]
pub enum FilterOp {
    Eq,
    Ne,
    /// The list holds at least one of the values.
    Contains,
    /// The list holds all of the values.
    ContainsAll,
}

/// A condition on one attribute.
#[derive(Debug)]
pub struct AttrFilter {
    pub attr: String,
    pub op: FilterOp,
    pub value: AttrValue,
}

/// Whether two attribute values are equal: flags compare by their flag
/// (with or without a time), other values when of the same kind.
pub open spec fn values_equal(a: AttrValueV, b: AttrValueV) -> bool {
    match (a, b) {
        (AttrValueV::Bool(x), AttrValueV::Bool(y)) => x == y,
        (AttrValueV::BoolWithTimestamp { value: x, .. }, AttrValueV::BoolWithTimestamp { value: y, .. }) => x == y,
        (AttrValueV::BoolWithTimestamp { value: x, .. }, AttrValueV::Bool(y)) => x == y,
        (AttrValueV::Bool(x), AttrValueV::BoolWithTimestamp { value: y, .. }) => x == y,
        (AttrValueV::Enum(x), AttrValueV::Enum(y)) => x == y,
        (AttrValueV::List(x), AttrValueV::List(y)) => x == y,
        (AttrValueV::Ref(x), AttrValueV::Ref(y)) => x == y,
        _ => false,
    }
}

/// The list `have` holds at least one of `want`.
pub open spec fn holds_any(have: Seq<Seq<char>>, want: Seq<Seq<char>>) -> bool {
    exists|i: int| 0 <= i < want.len() && #[trigger] have.contains(want[i])
}

/// The list `have` holds all of `want`.
pub open spec fn holds_all(have: Seq<Seq<char>>, want: Seq<Seq<char>>) -> bool {
    forall|i: int| 0 <= i < want.len() ==> #[trigger] have.contains(want[i])
}

/// Whether the filter holds of the metadata; an unknown attribute never
/// matches, nor does a list operation on values that are not lists.
pub open spec fn filter_matches(attr: Seq<char>, op: FilterOp, value: AttrValueV, m: MetadataV) -> bool {
    match spec_get_attr(m, attr) {
        None => false,
        Some(v) => match op {
            FilterOp::Eq => values_equal(v, value),
            FilterOp::Ne => !values_equal(v, value),
            FilterOp::Contains => v is List && value is List && holds_any(v->List_0, value->List_0),
            FilterOp::ContainsAll => v is List && value is List && holds_all(v->List_0, value->List_0),
        },
    }
}

fn strings_eq(a: &Vec<String>, b: &Vec<String>) -> (r: bool)
    ensures
        r == (strings_view(a@) == strings_view(b@)),
{
    if a.len() != b.len() {
        proof {
            assert(strings_view(a@).len() != strings_view(b@).len());
        }
        return false;
    }
    let mut i: usize = 0;
    while i < a.len()
        invariant
            a.len() == b.len(),
            i <= a.len(),
            forall|j: int| 0 <= j < i ==> a@[j]@ == b@[j]@,
        decreases a.len() - i,
    {
        if !str_eq(a[i].as_str(), b[i].as_str()) {
            proof {
                assert(strings_view(a@)[i as int] != strings_view(b@)[i as int]);
            }
            return false;
        }
        i += 1;
    }
    proof {
        assert(strings_view(a@) =~= strings_view(b@));
    }
    true
}

fn list_has(list: &Vec<String>, x: &String) -> (r: bool)
    ensures
        r == strings_view(list@).contains(x@),
{
    let mut i: usize = 0;
    while i < list.len()
        invariant
            i <= list.len(),
            forall|j: int| 0 <= j < i ==> list@[j]@ != x@,
        decreases list.len() - i,
    {
        if str_eq(list[i].as_str(), x.as_str()) {
            proof {
                assert(strings_view(list@)[i as int] == x@);
            }
            return true;
        }
        i += 1;
    }
    proof {
        if strings_view(list@).contains(x@) {
            let j = choose|j: int| 0 <= j < strings_view(list@).len() && strings_view(list@)[j] == x@;
            assert(list@[j]@ == x@);
        }
    }
    false
}

fn values_equal_exec(a: &AttrValue, b: &AttrValue) -> (r: bool)
    ensures
        r == values_equal(a@, b@),
{
    match (a, b) {
        (AttrValue::Bool(x), AttrValue::Bool(y)) => *x == *y,
        (AttrValue::BoolWithTimestamp { value: x, .. }, AttrValue::BoolWithTimestamp { value: y, .. }) => *x == *y,
        (AttrValue::BoolWithTimestamp { value: x, .. }, AttrValue::Bool(y)) => *x == *y,
        (AttrValue::Bool(x), AttrValue::BoolWithTimestamp { value: y, .. }) => *x == *y,
        (AttrValue::Enum(x), AttrValue::Enum(y)) => str_eq(x.as_str(), y.as_str()),
        (AttrValue::List(x), AttrValue::List(y)) => strings_eq(x, y),
        (AttrValue::Ref(x), AttrValue::Ref(y)) => *x == *y,
        _ => false,
    }
}

impl AttrFilter {
    pub fn new(attr: &str, op: FilterOp, value: AttrValue) -> (r: AttrFilter)
        ensures
            r.attr@ == attr@,
            r.op == op,
            r.value@ == value@,
    {
        AttrFilter { attr: attr.to_string(), op, value }
    }

    /// An equality filter.
    pub fn eq(attr: &str, value: AttrValue) -> (r: AttrFilter)
        ensures
            r.attr@ == attr@,
            r.op == FilterOp::Eq,
            r.value@ == value@,
    {
        AttrFilter::new(attr, FilterOp::Eq, value)
    }

    /// An inequality filter.
    pub fn ne(attr: &str, value: AttrValue) -> (r: AttrFilter)
        ensures
            r.attr@ == attr@,
            r.op == FilterOp::Ne,
            r.value@ == value@,
    {
        AttrFilter::new(attr, FilterOp::Ne, value)
    }

    /// A filter for lists holding this value.
    pub fn contains(attr: &str, value: String) -> (r: AttrFilter)
        ensures
            r.attr@ == attr@,
            r.op == FilterOp::Contains,
            r.value@ == AttrValueV::List(seq![value@]),
    {
        let mut v: Vec<String> = Vec::new();
        v.push(value);
        proof {
            assert(strings_view(v@) =~= seq![value@]);
        }
        AttrFilter::new(attr, FilterOp::Contains, AttrValue::List(v))
    }

    /// A filter for lists holding all these values.
    pub fn contains_all(attr: &str, values: Vec<String>) -> (r: AttrFilter)
        ensures
            r.attr@ == attr@,
            r.op == FilterOp::ContainsAll,
            r.value@ == AttrValueV::List(strings_view(values@)),
    {
        AttrFilter::new(attr, FilterOp::ContainsAll, AttrValue::List(values))
    }

    /// Whether the filter holds of the metadata (see [`filter_matches`]).
    pub fn matches(&self, meta: &Metadata) -> (r: bool)
        ensures
            r == filter_matches(self.attr@, self.op, self.value@, meta@),
    {
        let v = match meta.get_attr(self.attr.as_str()) {
            Some(v) => v,
            None => return false,
        };
        match self.op {
            FilterOp::Eq => values_equal_exec(&v, &self.value),
            FilterOp::Ne => !values_equal_exec(&v, &self.value),
            FilterOp::Contains => match (&v, &self.value) {
                (AttrValue::List(have), AttrValue::List(want)) => {
                    let mut i: usize = 0;
                    while i < want.len()
                        invariant
                            i <= want.len(),
                            spec_get_attr(meta@, self.attr@) == Some(AttrValueV::List(strings_view(have@))),
                            self.value@ == AttrValueV::List(strings_view(want@)),
                            self.op == FilterOp::Contains,
                            forall|j: int| 0 <= j < i ==> !strings_view(have@).contains(#[trigger] want@[j]@),
                        decreases want.len() - i,
                    {
                        if list_has(have, &want[i]) {
                            proof {
                                assert(strings_view(want@)[i as int] == want@[i as int]@);
                                assert(strings_view(have@).contains(strings_view(want@)[i as int]));
                                let wv = strings_view(want@);
                                let hv = strings_view(have@);
                                assert(exists|k: int| 0 <= k < wv.len() && #[trigger] hv.contains(wv[k]));
                                assert(filter_matches(self.attr@, self.op, self.value@, meta@));
                            }
                            return true;
                        }
                        i += 1;
                    }
                    proof {
                        assert forall|j: int| 0 <= j < strings_view(want@).len() implies !#[trigger] strings_view(
                            have@,
                        ).contains(strings_view(want@)[j]) by {
                            assert(strings_view(want@)[j] == want@[j]@);
                        }
                    }
                    false
                },
                _ => false,
            },
            FilterOp::ContainsAll => match (&v, &self.value) {
                (AttrValue::List(have), AttrValue::List(want)) => {
                    let mut i: usize = 0;
                    while i < want.len()
                        invariant
                            i <= want.len(),
                            spec_get_attr(meta@, self.attr@) == Some(AttrValueV::List(strings_view(have@))),
                            self.value@ == AttrValueV::List(strings_view(want@)),
                            self.op == FilterOp::ContainsAll,
                            forall|j: int| 0 <= j < i ==> strings_view(have@).contains(#[trigger] want@[j]@),
                        decreases want.len() - i,
                    {
                        if !list_has(have, &want[i]) {
                            proof {
                                assert(strings_view(want@)[i as int] == want@[i as int]@);
                                let wv = strings_view(want@);
                                let hv = strings_view(have@);
                                assert(!hv.contains(wv[i as int]));
                                assert(!(forall|k: int| 0 <= k < wv.len() ==> #[trigger] hv.contains(wv[k])));
                            }
                            return false;
                        }
                        i += 1;
                    }
                    proof {
                        assert forall|j: int| 0 <= j < strings_view(want@).len() implies #[trigger] strings_view(
                            have@,
                        ).contains(strings_view(want@)[j]) by {
                            assert(strings_view(want@)[j] == want@[j]@);
                        }
                    }
                    true
                },
                _ => false,
            },
        }
    }
}

} // verus!
