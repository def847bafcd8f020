//! Applying metadata carried as JSON (archive entries, inline metadata) to a
//! pad's metadata, field by field: a field that cannot be read is left as it
//! was and noted, so one bad field never loses the pad.
use vstd::prelude::*;
use crate::index::{parse_uuid, spec_uuid_parse};
use crate::json::{get_member, member, text_of, JsonValue};
use crate::model::{Metadata, MetadataV, TodoStatus};
use crate::text::{lit, str_eq, string_from_chars};

verus! {

/// A field of metadata that could not be applied as given.
#[derive(Debug, PartialEq, Eq)]
pub enum MetadataPatchWarning {
    /// The metadata is not a JSON object; nothing was applied.
    NotAnObject,
    /// The id is not a UUID; the pad keeps its own.
    InvalidId,
    /// This field has a value of the wrong form; it was left as it was.
    InvalidField(String),
    /// This many tags were not strings and were left out.
    NonStringTags(usize),
    /// The parent is not among the pads imported together; the pad became a
    /// root pad.
    ParentOrphaned,
}

pub enum PatchWarningV {
    NotAnObject,
    InvalidId,
    InvalidField(Seq<char>),
    NonStringTags(usize),
    ParentOrphaned,
}

impl View for MetadataPatchWarning {
    type V = PatchWarningV;

    open spec fn view(&self) -> PatchWarningV {
        match self {
            MetadataPatchWarning::NotAnObject => PatchWarningV::NotAnObject,
            MetadataPatchWarning::InvalidId => PatchWarningV::InvalidId,
            MetadataPatchWarning::InvalidField(f) => PatchWarningV::InvalidField(f@),
            MetadataPatchWarning::NonStringTags(n) => PatchWarningV::NonStringTags(*n),
            MetadataPatchWarning::ParentOrphaned => PatchWarningV::ParentOrphaned,
        }
    }
}

pub open spec fn patch_warnings_view(v: Seq<MetadataPatchWarning>) -> Seq<PatchWarningV> {
    v.map_values(|w: MetadataPatchWarning| w@)
}

impl MetadataPatchWarning {
    /// Whether the warning only informs: an orphaned parent is expected when
    /// only part of a tree is imported.
    pub fn is_info(&self) -> (r: bool)
        ensures
            r == (self@ is ParentOrphaned),
    {
        match self {
            MetadataPatchWarning::ParentOrphaned => true,
            _ => false,
        }
    }
}

/// How a parent id is taken: as given, or only when that parent is among
/// the pads imported together (else the pad becomes a root pad).
#[derive(Debug)]
pub enum ParentPolicy {
    Trust,
    OrphanUnknown(Vec<u128>),
}

/// What `chrono::DateTime::parse_from_rfc3339` reads an RFC 3339 text as, in
/// milliseconds since the Unix epoch (UTC); none when it is not such a text.
pub uninterp spec fn spec_rfc3339_millis(s: Seq<char>) -> Option<i64>;

/// Calls `chrono::DateTime::parse_from_rfc3339` and converts the time to
/// UTC milliseconds; the result is the named reading of the text.
#[verifier::external_body]
fn parse_rfc3339(s: &str) -> (r: Option<i64>)
    ensures
        r == spec_rfc3339_millis(s@),
{
    chrono::DateTime::parse_from_rfc3339(s).ok().map(|dt| dt.with_timezone(&chrono::Utc).timestamp_millis())
}

/// What `chrono` writes for a time in milliseconds since the Unix epoch
/// (UTC): the RFC 3339 text with millisecond precision and a `Z` offset;
/// none when `chrono` cannot represent the time.
pub uninterp spec fn spec_rfc3339_text(ms: i64) -> Option<Seq<char>>;

/// A time in years 0000 through 9999, which RFC 3339 writes with exactly
/// four year digits.
pub open spec fn four_digit_year(ms: i64) -> bool {
    -62167219200000 <= ms <= 253402300799999
}

/// Calls `chrono::DateTime::from_timestamp_millis` and
/// `to_rfc3339_opts(SecondsFormat::Millis, true)`: the named text of the
/// time. `chrono` represents every time of years 0000 through 9999, and for
/// those the text has four year digits and every millisecond digit, so
/// `parse_from_rfc3339` reads it back as the same millisecond. Outside those
/// years `chrono` writes a signed year that `parse_from_rfc3339` refuses,
/// so nothing is said of reading it back.
#[verifier::external_body]
pub(crate) fn rfc3339_text(ms: i64) -> (r: Option<String>)
    ensures
        match r {
            Some(t) => spec_rfc3339_text(ms) == Some(t@) && (four_digit_year(ms) ==> spec_rfc3339_millis(t@) == Some(
                ms,
            )),
            None => spec_rfc3339_text(ms) is None,
        },
        four_digit_year(ms) ==> r is Some,
{
    chrono::DateTime::from_timestamp_millis(ms).map(|t| t.to_rfc3339_opts(chrono::SecondsFormat::Millis, true))
}

/// What `chrono` writes for a time in milliseconds since the Unix epoch
/// (UTC) at whole seconds: the RFC 3339 text without fractional seconds and
/// with a `Z` offset; none when `chrono` cannot represent the time.
pub uninterp spec fn spec_rfc3339_secs_text(ms: i64) -> Option<Seq<char>>;

/// Calls `chrono::DateTime::from_timestamp_millis` and
/// `to_rfc3339_opts(SecondsFormat::Secs, true)`: the named text of the time.
#[verifier::external_body]
pub(crate) fn rfc3339_secs_text(ms: i64) -> (r: Option<String>)
    ensures
        match r {
            Some(t) => spec_rfc3339_secs_text(ms) == Some(t@),
            None => spec_rfc3339_secs_text(ms) is None,
        },
{
    chrono::DateTime::from_timestamp_millis(ms).map(|t| t.to_rfc3339_opts(chrono::SecondsFormat::Secs, true))
}

/// The time a JSON value gives: an RFC 3339 string.
pub open spec fn json_time(v: JsonValue) -> Option<i64> {
    match v {
        JsonValue::String(s) => spec_rfc3339_millis(s@),
        _ => None,
    }
}

/// The UUID a JSON value gives: a UUID string.
pub open spec fn json_uuid(v: JsonValue) -> Option<u128> {
    match v {
        JsonValue::String(s) => spec_uuid_parse(s@),
        _ => None,
    }
}

/// The todo status a name gives.
pub open spec fn status_named(s: Seq<char>) -> Option<TodoStatus> {
    if s == "Planned"@ {
        Some(TodoStatus::Planned)
    } else if s == "InProgress"@ {
        Some(TodoStatus::InProgress)
    } else if s == "Done"@ {
        Some(TodoStatus::Done)
    } else {
        None
    }
}

/// The string items of an array, in order.
pub open spec fn string_items(items: Seq<JsonValue>) -> Seq<Seq<char>>
    decreases items.len(),
{
    if items.len() == 0 {
        Seq::empty()
    } else {
        let r = string_items(items.drop_last());
        match text_of(items.last()) {
            Some(t) => r.push(t),
            None => r,
        }
    }
}

/// The number of items of an array that are not strings.
pub open spec fn non_string_count(items: Seq<JsonValue>) -> nat
    decreases items.len(),
{
    if items.len() == 0 {
        0
    } else {
        non_string_count(items.drop_last()) + if text_of(items.last()) is Some {
            0nat
        } else {
            1nat
        }
    }
}

pub enum ParentPolicyV {
    Trust,
    OrphanUnknown(Seq<u128>),
}

impl View for ParentPolicy {
    type V = ParentPolicyV;

    open spec fn view(&self) -> ParentPolicyV {
        match self {
            ParentPolicy::Trust => ParentPolicyV::Trust,
            ParentPolicy::OrphanUnknown(ids) => ParentPolicyV::OrphanUnknown(ids@),
        }
    }
}

/// Metadata with the warnings noted so far.
pub type Patched = (MetadataV, Seq<PatchWarningV>);

pub open spec fn patch_id(p: Patched, o: Seq<(String, JsonValue)>) -> Patched {
    match member(o, "id"@) {
        None => p,
        Some(v) => match json_uuid(v) {
            Some(u) => (MetadataV { id: u, ..p.0 }, p.1),
            None => (p.0, p.1.push(PatchWarningV::InvalidId)),
        },
    }
}

pub open spec fn patch_created(p: Patched, o: Seq<(String, JsonValue)>) -> Patched {
    match member(o, "created_at"@) {
        None => p,
        Some(v) => match json_time(v) {
            Some(t) => (MetadataV { created_at: t, ..p.0 }, p.1),
            None => (p.0, p.1.push(PatchWarningV::InvalidField("created_at"@))),
        },
    }
}

pub open spec fn patch_updated(p: Patched, o: Seq<(String, JsonValue)>) -> Patched {
    match member(o, "updated_at"@) {
        None => p,
        Some(v) => match json_time(v) {
            Some(t) => (MetadataV { updated_at: t, ..p.0 }, p.1),
            None => (p.0, p.1.push(PatchWarningV::InvalidField("updated_at"@))),
        },
    }
}

pub open spec fn patch_is_pinned(p: Patched, o: Seq<(String, JsonValue)>) -> Patched {
    match member(o, "is_pinned"@) {
        None => p,
        Some(v) => match v {
            JsonValue::Bool(b) => (MetadataV { is_pinned: b, ..p.0 }, p.1),
            _ => (p.0, p.1.push(PatchWarningV::InvalidField("is_pinned"@))),
        },
    }
}

pub open spec fn patch_pinned_at(p: Patched, o: Seq<(String, JsonValue)>) -> Patched {
    match member(o, "pinned_at"@) {
        None => p,
        Some(v) => if v is Null {
            (MetadataV { pinned_at: None, ..p.0 }, p.1)
        } else {
            match json_time(v) {
                Some(t) => (MetadataV { pinned_at: Some(t), ..p.0 }, p.1),
                None => (p.0, p.1.push(PatchWarningV::InvalidField("pinned_at"@))),
            }
        },
    }
}

pub open spec fn patch_protected(p: Patched, o: Seq<(String, JsonValue)>) -> Patched {
    match member(o, "delete_protected"@) {
        None => p,
        Some(v) => match v {
            JsonValue::Bool(b) => (MetadataV { delete_protected: b, ..p.0 }, p.1),
            _ => (p.0, p.1.push(PatchWarningV::InvalidField("delete_protected"@))),
        },
    }
}

pub open spec fn patch_status(p: Patched, o: Seq<(String, JsonValue)>) -> Patched {
    match member(o, "status"@) {
        None => p,
        Some(v) => match text_of(v) {
            Some(s) => match status_named(s) {
                Some(st) => (MetadataV { status: st, ..p.0 }, p.1),
                None => (p.0, p.1.push(PatchWarningV::InvalidField("status"@))),
            },
            None => (p.0, p.1.push(PatchWarningV::InvalidField("status"@))),
        },
    }
}

pub open spec fn patch_tags(p: Patched, o: Seq<(String, JsonValue)>) -> Patched {
    match member(o, "tags"@) {
        None => p,
        Some(v) => match v {
            JsonValue::Array(items) => {
                let m = MetadataV { tags: string_items(items@), ..p.0 };
                if non_string_count(items@) > 0 {
                    (m, p.1.push(PatchWarningV::NonStringTags(non_string_count(items@) as usize)))
                } else {
                    (m, p.1)
                }
            },
            _ => (p.0, p.1.push(PatchWarningV::InvalidField("tags"@))),
        },
    }
}

pub open spec fn patch_parent(p: Patched, o: Seq<(String, JsonValue)>, policy: ParentPolicyV) -> Patched {
    match member(o, "parent_id"@) {
        None => p,
        Some(v) => if v is Null {
            (MetadataV { parent_id: None, ..p.0 }, p.1)
        } else {
            match json_uuid(v) {
                Some(pid) => match policy {
                    ParentPolicyV::Trust => (MetadataV { parent_id: Some(pid), ..p.0 }, p.1),
                    ParentPolicyV::OrphanUnknown(ids) => if ids.contains(pid) {
                        (MetadataV { parent_id: Some(pid), ..p.0 }, p.1)
                    } else {
                        (MetadataV { parent_id: None, ..p.0 }, p.1.push(PatchWarningV::ParentOrphaned))
                    },
                },
                None => (p.0, p.1.push(PatchWarningV::InvalidField("parent_id"@))),
            }
        },
    }
}

/// Metadata after applying a JSON value: a non-object applies nothing;
/// otherwise the id, creation and update times, pinned flag and time,
/// deletion protection, status, tags and parent are applied in this order,
/// each only when present and readable.
#[verifier::opaque]
pub open spec fn patched(m: MetadataV, v: JsonValue, policy: ParentPolicyV) -> Patched {
    match v {
        JsonValue::Object(o) => {
            let p0 = (m, Seq::<PatchWarningV>::empty());
            patch_parent(
                patch_tags(
                    patch_status(
                        patch_protected(
                            patch_pinned_at(patch_is_pinned(patch_updated(patch_created(patch_id(p0, o@), o@), o@), o@), o@),
                            o@,
                        ),
                        o@,
                    ),
                    o@,
                ),
                o@,
                policy,
            )
        },
        _ => (m, seq![PatchWarningV::NotAnObject]),
    }
}

fn field_warning(name: &str) -> (r: MetadataPatchWarning)
    ensures
        r@ == PatchWarningV::InvalidField(name@),
{
    MetadataPatchWarning::InvalidField(string_from_chars(&lit(name)))
}

fn read_time(v: &JsonValue) -> (r: Option<i64>)
    ensures
        r == json_time(*v),
{
    match v {
        JsonValue::String(s) => parse_rfc3339(s.as_str()),
        _ => None,
    }
}

fn read_uuid(v: &JsonValue) -> (r: Option<u128>)
    ensures
        r == json_uuid(*v),
{
    match v {
        JsonValue::String(s) => parse_uuid(s.as_str()),
        _ => None,
    }
}

fn read_status(s: &str) -> (r: Option<TodoStatus>)
    ensures
        r == status_named(s@),
{
    if str_eq(s, "Planned") {
        Some(TodoStatus::Planned)
    } else if str_eq(s, "InProgress") {
        Some(TodoStatus::InProgress)
    } else if str_eq(s, "Done") {
        Some(TodoStatus::Done)
    } else {
        None
    }
}

fn contains_u128(v: &Vec<u128>, x: u128) -> (r: bool)
    ensures
        r == v@.contains(x),
{
    let mut i: usize = 0;
    while i < v.len()
        invariant
            i <= v.len(),
            forall|j: int| 0 <= j < i ==> v@[j] != x,
        decreases v.len() - i,
    {
        if v[i] == x {
            assert(v@[i as int] == x);
            return true;
        }
        i += 1;
    }
    false
}

/// The string items of an array and the number of other items.
fn read_tags(items: &Vec<JsonValue>) -> (r: (Vec<String>, usize))
    ensures
        crate::model::strings_view(r.0@) == string_items(items@),
        r.1 == non_string_count(items@),
{
    let mut tags: Vec<String> = Vec::new();
    let mut bad: usize = 0;
    let mut i: usize = 0;
    while i < items.len()
        invariant
            i <= items.len(),
            crate::model::strings_view(tags@) == string_items(items@.take(i as int)),
            bad == non_string_count(items@.take(i as int)),
            bad <= i,
        decreases items.len() - i,
    {
        proof {
            assert(items@.take(i + 1).drop_last() =~= items@.take(i as int));
            assert(items@.take(i + 1).last() == items@[i as int]);
        }
        match &items[i] {
            JsonValue::String(s) => {
                let ghost before = tags@;
                tags.push(s.clone());
                proof {
                    assert(crate::model::strings_view(tags@) =~= crate::model::strings_view(before).push(s@));
                }
            },
            _ => {
                bad = bad + 1;
            },
        }
        i += 1;
    }
    proof {
        assert(items@.take(items.len() as int) =~= items@);
    }
    (tags, bad)
}

fn push_warning(w: &mut Vec<MetadataPatchWarning>, x: MetadataPatchWarning)
    ensures
        patch_warnings_view(final(w)@) == patch_warnings_view(old(w)@).push(x@),
{
    w.push(x);
    proof {
        assert(patch_warnings_view(w@) =~= patch_warnings_view(old(w)@).push(x@));
    }
}

fn step_id(m: &mut Metadata, o: &Vec<(String, JsonValue)>, w: &mut Vec<MetadataPatchWarning>)
    ensures
        (final(m)@, patch_warnings_view(final(w)@)) == patch_id((old(m)@, patch_warnings_view(old(w)@)), o@),
{
    match get_member(o, "id") {
        Some(v) => match read_uuid(v) {
            Some(u) => {
                m.id = u;
            },
            None => {
                push_warning(w, MetadataPatchWarning::InvalidId);
            },
        },
        None => {},
    }
}

fn step_times(m: &mut Metadata, o: &Vec<(String, JsonValue)>, w: &mut Vec<MetadataPatchWarning>)
    ensures
        (final(m)@, patch_warnings_view(final(w)@)) == patch_updated(
            patch_created((old(m)@, patch_warnings_view(old(w)@)), o@),
            o@,
        ),
{
    match get_member(o, "created_at") {
        Some(v) => match read_time(v) {
            Some(t) => {
                m.created_at = t;
            },
            None => {
                push_warning(w, field_warning("created_at"));
            },
        },
        None => {},
    }
    match get_member(o, "updated_at") {
        Some(v) => match read_time(v) {
            Some(t) => {
                m.updated_at = t;
            },
            None => {
                push_warning(w, field_warning("updated_at"));
            },
        },
        None => {},
    }
}

fn step_pinning(m: &mut Metadata, o: &Vec<(String, JsonValue)>, w: &mut Vec<MetadataPatchWarning>)
    ensures
        (final(m)@, patch_warnings_view(final(w)@)) == patch_protected(
            patch_pinned_at(patch_is_pinned((old(m)@, patch_warnings_view(old(w)@)), o@), o@),
            o@,
        ),
{
    match get_member(o, "is_pinned") {
        Some(JsonValue::Bool(b)) => {
            m.is_pinned = *b;
        },
        Some(_) => {
            push_warning(w, field_warning("is_pinned"));
        },
        None => {},
    }
    match get_member(o, "pinned_at") {
        Some(JsonValue::Null) => {
            m.pinned_at = None;
        },
        Some(v) => match read_time(v) {
            Some(t) => {
                m.pinned_at = Some(t);
            },
            None => {
                push_warning(w, field_warning("pinned_at"));
            },
        },
        None => {},
    }
    match get_member(o, "delete_protected") {
        Some(JsonValue::Bool(b)) => {
            m.delete_protected = *b;
        },
        Some(_) => {
            push_warning(w, field_warning("delete_protected"));
        },
        None => {},
    }
}

fn step_status_tags(m: &mut Metadata, o: &Vec<(String, JsonValue)>, w: &mut Vec<MetadataPatchWarning>)
    ensures
        (final(m)@, patch_warnings_view(final(w)@)) == patch_tags(
            patch_status((old(m)@, patch_warnings_view(old(w)@)), o@),
            o@,
        ),
{
    match get_member(o, "status") {
        Some(JsonValue::String(s)) => match read_status(s.as_str()) {
            Some(st) => {
                m.status = st;
            },
            None => {
                push_warning(w, field_warning("status"));
            },
        },
        Some(_) => {
            push_warning(w, field_warning("status"));
        },
        None => {},
    }
    match get_member(o, "tags") {
        Some(JsonValue::Array(items)) => {
            let (tags, bad) = read_tags(items);
            m.tags = tags;
            if bad > 0 {
                push_warning(w, MetadataPatchWarning::NonStringTags(bad));
            }
        },
        Some(_) => {
            push_warning(w, field_warning("tags"));
        },
        None => {},
    }
}

fn step_parent(m: &mut Metadata, o: &Vec<(String, JsonValue)>, policy: &ParentPolicy, w: &mut Vec<MetadataPatchWarning>)
    ensures
        (final(m)@, patch_warnings_view(final(w)@)) == patch_parent((old(m)@, patch_warnings_view(old(w)@)), o@, policy@),
{
    match get_member(o, "parent_id") {
        Some(JsonValue::Null) => {
            m.parent_id = None;
        },
        Some(v) => match read_uuid(v) {
            Some(pid) => match policy {
                ParentPolicy::Trust => {
                    m.parent_id = Some(pid);
                },
                ParentPolicy::OrphanUnknown(ids) => {
                    if contains_u128(ids, pid) {
                        m.parent_id = Some(pid);
                    } else {
                        m.parent_id = None;
                        push_warning(w, MetadataPatchWarning::ParentOrphaned);
                    }
                },
            },
            None => {
                push_warning(w, field_warning("parent_id"));
            },
        },
        None => {},
    }
}

impl Metadata {
    /// Applies metadata given as JSON (see [`patched`]) and returns the
    /// warnings noted, in order.
    pub fn apply_json_patch(&mut self, value: &JsonValue, policy: &ParentPolicy) -> (r: Vec<MetadataPatchWarning>)
        ensures
            (final(self)@, patch_warnings_view(r@)) == patched(old(self)@, *value, policy@),
    {
        proof {
            reveal(patched);
        }
        let mut w: Vec<MetadataPatchWarning> = Vec::new();
        match value {
            JsonValue::Object(o) => {
                proof {
                    assert(patch_warnings_view(w@) =~= Seq::<PatchWarningV>::empty());
                }
                step_id(self, o, &mut w);
                step_times(self, o, &mut w);
                step_pinning(self, o, &mut w);
                step_status_tags(self, o, &mut w);
                step_parent(self, o, policy, &mut w);
            },
            _ => {
                push_warning(&mut w, MetadataPatchWarning::NotAnObject);
            },
        }
        w
    }
}

} // verus!
