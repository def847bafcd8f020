//! JSON archives: the raw file of each exported pad, and a descriptor
//! (`padz/db.json`) holding every pad's bucket and full metadata and the
//! registry entries of the tags those pads use.
//!
//! The library decides what goes into the archive and frames the bytes;
//! turning the descriptor into JSON text is left to the caller.
use vstd::prelude::*;
use crate::commands::metadata_schema::{Archive, PadEntry, TagRegistryEntry, SCHEMA_VERSION};
use crate::commands::NestingMode;
use crate::error::PadzError;
use crate::export::{
    append_entry, spec_tar_accepts, export_selection, finish_archive, first_seen, is_first, nesting_of, now_stamp, resolve_nested,
    resolve_pads, spec_tar_gz, archive_entries, new_archive, utf8_bytes, ExportFormat, ENTRY_MODE,
};
use crate::helpers::{nested_view, NestedPad};
use crate::index::PadSelector;
use crate::json::JsonValue;
use crate::model::{strings_view, uuid_hyphenated, uuid_text, Bucket, Metadata, MetadataV, PadV, Scope, TodoStatus};
use crate::patch::{four_digit_year, rfc3339_text, spec_rfc3339_millis, spec_rfc3339_text};
use crate::resolve::selectors_view;
use crate::store::{stored_in, Store, StoredV};
use crate::tags::{TagEntryV, TagRegistry};
use crate::text::{append_chars, chars_of, lit, str_eq, string_from_chars};
use crate::tree::DisplayPadV;

verus! {

// ---------------------------------------------------------------------------
// Metadata as JSON
// ---------------------------------------------------------------------------

/// The name a todo status is stored under.
pub open spec fn status_name(s: TodoStatus) -> Seq<char> {
    match s {
        TodoStatus::Planned => "Planned"@,
        TodoStatus::InProgress => "InProgress"@,
        TodoStatus::Done => "Done"@,
    }
}

/// The value is the string `t`.
pub open spec fn json_text_is(v: JsonValue, t: Seq<char>) -> bool {
    v matches JsonValue::String(s) && s@ == t
}

/// The value stores the time `ms`: its RFC 3339 text, which reads back as
/// `ms` for a time of years 0000 through 9999; or null when the time has
/// no text.
pub open spec fn json_time_is(v: JsonValue, ms: i64) -> bool {
    match spec_rfc3339_text(ms) {
        Some(t) => json_text_is(v, t) && (four_digit_year(ms) ==> spec_rfc3339_millis(t) == Some(ms)),
        None => v is Null && !four_digit_year(ms),
    }
}

/// The value stores an optional time: null when there is none.
pub open spec fn json_opt_time_is(v: JsonValue, ms: Option<i64>) -> bool {
    match ms {
        Some(t) => json_time_is(v, t),
        None => v is Null,
    }
}

/// The value stores an optional id: null when there is none.
pub open spec fn json_opt_id_is(v: JsonValue, id: Option<u128>) -> bool {
    match id {
        Some(p) => json_text_is(v, uuid_hyphenated(p)),
        None => v is Null,
    }
}

/// The value is an array of exactly these strings.
pub open spec fn json_texts_are(v: JsonValue, ts: Seq<Seq<char>>) -> bool {
    v matches JsonValue::Array(items) && items@.len() == ts.len() && forall|i: int|
        0 <= i < ts.len() ==> #[trigger] json_text_is(items@[i], ts[i])
}

/// The member names of stored metadata, in order.
pub open spec fn metadata_keys() -> Seq<Seq<char>> {
    seq![
        "id"@,
        "created_at"@,
        "updated_at"@,
        "is_pinned"@,
        "pinned_at"@,
        "delete_protected"@,
        "parent_id"@,
        "title"@,
        "status"@,
        "tags"@,
    ]
}

/// The value stores the metadata `m`: an object with the members of
/// [`metadata_keys`] in that order, the id as hyphenated UUID text, times
/// as RFC 3339 texts, flags as booleans, absent times and parents as null,
/// the status by name and the tags as an array of strings.
pub open spec fn metadata_json_is(v: JsonValue, m: MetadataV) -> bool {
    &&& v is Object
    &&& {
        let o = v->Object_0@;
        &&& o.len() == 10
        &&& forall|k: int| 0 <= k < 10 ==> #[trigger] o[k].0@ == metadata_keys()[k]
        &&& json_text_is(o[0].1, uuid_hyphenated(m.id))
        &&& json_time_is(o[1].1, m.created_at)
        &&& json_time_is(o[2].1, m.updated_at)
        &&& o[3].1 == JsonValue::Bool(m.is_pinned)
        &&& json_opt_time_is(o[4].1, m.pinned_at)
        &&& o[5].1 == JsonValue::Bool(m.delete_protected)
        &&& json_opt_id_is(o[6].1, m.parent_id)
        &&& json_text_is(o[7].1, m.title)
        &&& json_text_is(o[8].1, status_name(m.status))
        &&& json_texts_are(o[9].1, m.tags)
    }
}

fn text_value(s: String) -> (r: JsonValue)
    ensures
        json_text_is(r, s@),
{
    JsonValue::String(s)
}

/// A time as a JSON archive stores it (see [`json_time_is`]).
pub fn time_value(ms: i64) -> (r: JsonValue)
    ensures
        json_time_is(r, ms),
{
    match rfc3339_text(ms) {
        Some(t) => JsonValue::String(t),
        None => JsonValue::Null,
    }
}

fn status_value(s: TodoStatus) -> (r: JsonValue)
    ensures
        json_text_is(r, status_name(s)),
{
    let name = match s {
        TodoStatus::Planned => lit("Planned"),
        TodoStatus::InProgress => lit("InProgress"),
        TodoStatus::Done => lit("Done"),
    };
    JsonValue::String(string_from_chars(&name))
}

fn tags_value(tags: &Vec<String>) -> (r: JsonValue)
    ensures
        json_texts_are(r, strings_view(tags@)),
{
    let mut items: Vec<JsonValue> = Vec::new();
    let mut i: usize = 0;
    while i < tags.len()
        invariant
            i <= tags.len(),
            items@.len() == i,
            forall|j: int| 0 <= j < i ==> #[trigger] json_text_is(items@[j], tags@[j]@),
        decreases tags.len() - i,
    {
        items.push(JsonValue::String(tags[i].clone()));
        i += 1;
    }
    let r = JsonValue::Array(items);
    assert forall|j: int| 0 <= j < tags@.len() implies #[trigger] json_text_is(
        items@[j],
        strings_view(tags@)[j],
    ) by {
        assert(json_text_is(items@[j], tags@[j]@));
    }
    r
}

fn named(key: &str, v: JsonValue) -> (r: (String, JsonValue))
    ensures
        r.0@ == key@,
        r.1 == v,
{
    (string_from_chars(&chars_of(key)), v)
}

/// The metadata as archives store it (see [`metadata_json_is`]).
pub fn metadata_json(m: &Metadata) -> (r: JsonValue)
    ensures
        metadata_json_is(r, m@),
{
    let pinned_at = match m.pinned_at {
        Some(t) => time_value(t),
        None => JsonValue::Null,
    };
    let parent = match m.parent_id {
        Some(p) => JsonValue::String(uuid_text(p)),
        None => JsonValue::Null,
    };
    let mut o: Vec<(String, JsonValue)> = Vec::new();
    o.push(named("id", text_value(uuid_text(m.id))));
    o.push(named("created_at", time_value(m.created_at)));
    o.push(named("updated_at", time_value(m.updated_at)));
    o.push(named("is_pinned", JsonValue::Bool(m.is_pinned)));
    o.push(named("pinned_at", pinned_at));
    o.push(named("delete_protected", JsonValue::Bool(m.delete_protected)));
    o.push(named("parent_id", parent));
    o.push(named("title", text_value(m.title.clone())));
    o.push(named("status", status_value(m.status)));
    o.push(named("tags", tags_value(&m.tags)));
    proof {
        reveal_strlit("id");
        reveal_strlit("created_at");
        reveal_strlit("updated_at");
        reveal_strlit("is_pinned");
        reveal_strlit("pinned_at");
        reveal_strlit("delete_protected");
        reveal_strlit("parent_id");
        reveal_strlit("title");
        reveal_strlit("status");
        reveal_strlit("tags");
        assert forall|k: int| 0 <= k < 10 implies #[trigger] o@[k].0@ == metadata_keys()[k] by {}
    }
    JsonValue::Object(o)
}

// ---------------------------------------------------------------------------
// Archive contents
// ---------------------------------------------------------------------------

/// The pads a JSON archive holds: each exported pad once, at its first
/// occurrence, in order.
pub open spec fn json_pads(pads: Seq<(DisplayPadV, usize)>) -> Seq<PadV>
    decreases pads.len(),
{
    if pads.len() == 0 {
        Seq::empty()
    } else {
        let r = json_pads(pads.drop_last());
        if first_seen(pads, pads.len() - 1) {
            r.push(pads.last().0.pad)
        } else {
            r
        }
    }
}

/// The extension of an exported pad's file: the extension of its file where
/// it is stored active or archived, else `txt`.
pub open spec fn json_ext(s: Seq<StoredV>, scope: Scope, id: u128) -> Seq<char> {
    if stored_in(s, scope, id, Bucket::Active) || stored_in(s, scope, id, Bucket::Archived) {
        crate::store::stored_ext(s, scope, id)
    } else {
        "txt"@
    }
}

/// The archive-relative file of a pad.
pub open spec fn json_file_name(s: Seq<StoredV>, scope: Scope, id: u128) -> Seq<char> {
    "pads/pad-"@ + uuid_hyphenated(id) + seq!['.'] + json_ext(s, scope, id)
}

/// The bucket label an exported pad is stored with: active, else archived
/// where it lives there, else active.
pub open spec fn json_bucket(s: Seq<StoredV>, scope: Scope, id: u128) -> Seq<char> {
    if stored_in(s, scope, id, Bucket::Active) {
        "Active"@
    } else if stored_in(s, scope, id, Bucket::Archived) {
        "Archived"@
    } else {
        "Active"@
    }
}

/// The descriptor entry of a pad: its file, bucket label and metadata.
pub open spec fn entry_describes(e: PadEntry, s: Seq<StoredV>, scope: Scope, p: PadV) -> bool {
    &&& e.file@ == json_file_name(s, scope, p.metadata.id)
    &&& e.bucket@ == json_bucket(s, scope, p.metadata.id)
    &&& metadata_json_is(e.metadata, p.metadata)
}

/// The archive files: each pad's content as UTF-8 under `padz/`.
pub open spec fn json_files(s: Seq<StoredV>, scope: Scope, ps: Seq<PadV>) -> Seq<(Seq<char>, Seq<u8>)> {
    ps.map_values(|p: PadV| ("padz/"@ + json_file_name(s, scope, p.metadata.id), vstd::utf8::encode_utf8(p.content)))
}

/// Some pad carries the tag.
pub open spec fn tag_referenced(ps: Seq<PadV>, name: Seq<char>) -> bool {
    exists|i: int, j: int|
        0 <= i < ps.len() && 0 <= j < ps[i].metadata.tags.len() && #[trigger] ps[i].metadata.tags[j] == name
}

/// The registry entries of the tags the pads carry, in registry order.
pub open spec fn referenced_tags(reg: Seq<TagEntryV>, ps: Seq<PadV>) -> Seq<TagEntryV>
    decreases reg.len(),
{
    if reg.len() == 0 {
        Seq::empty()
    } else {
        let r = referenced_tags(reg.drop_last(), ps);
        if tag_referenced(ps, reg.last().name) {
            r.push(reg.last())
        } else {
            r
        }
    }
}

pub open spec fn registry_entries_view(v: Seq<TagRegistryEntry>) -> Seq<TagEntryV> {
    v.map_values(|t: TagRegistryEntry| TagEntryV { name: t.name@, created_at: t.created_at })
}

/// The descriptor and files of a JSON archive of `nested`: one entry and one
/// file per pad (see [`json_pads`]), and the registry entries of the tags
/// they carry.
pub open spec fn json_contents(
    s: Seq<StoredV>,
    reg: TagRegistry,
    scope: Scope,
    nested: Seq<(DisplayPadV, usize)>,
    exported_at: i64,
    padz_version: Seq<char>,
    archive: Archive,
    files: Seq<(Seq<char>, Seq<u8>)>,
) -> bool {
    let ps = json_pads(nested);
    &&& archive.schema_version == SCHEMA_VERSION
    &&& archive.exported_at == exported_at
    &&& archive.padz_version@ == padz_version
    &&& archive.pads@.len() == ps.len()
    &&& forall|i: int| 0 <= i < ps.len() ==> #[trigger] entry_describes(archive.pads@[i], s, scope, ps[i])
    &&& registry_entries_view(archive.tags@) == referenced_tags(reg.tags_of(scope), ps)
    &&& files == json_files(s, scope, ps)
}

fn json_file_text(store: &Store, scope: Scope, id: u128) -> (r: String)
    ensures
        r@ == json_file_name(store@, scope, id),
{
    let mut t = lit("pads/pad-");
    append_chars(&mut t, &chars_of(uuid_text(id).as_str()));
    t.push('.');
    if store.contains(id, scope, Bucket::Active) || store.contains(id, scope, Bucket::Archived) {
        match store.file_extension(id, scope) {
            Some(e) => append_chars(&mut t, &chars_of(e.as_str())),
            None => {
                proof {
                    assert(false);
                }
            },
        }
    } else {
        append_chars(&mut t, &lit("txt"));
    }
    proof {
        assert(t@ =~= json_file_name(store@, scope, id));
    }
    string_from_chars(&t)
}

fn bucket_text(store: &Store, scope: Scope, id: u128) -> (r: String)
    ensures
        r@ == json_bucket(store@, scope, id),
{
    if store.contains(id, scope, Bucket::Active) {
        string_from_chars(&lit("Active"))
    } else if store.contains(id, scope, Bucket::Archived) {
        string_from_chars(&lit("Archived"))
    } else {
        string_from_chars(&lit("Active"))
    }
}

fn pad_carries(pads: &Vec<crate::model::Pad>, name: &String) -> (r: bool)
    ensures
        r == tag_referenced(crate::tree::pads_view(pads@), name@),
{
    let ghost ps = crate::tree::pads_view(pads@);
    let mut i: usize = 0;
    while i < pads.len()
        invariant
            ps == crate::tree::pads_view(pads@),
            i <= pads.len(),
            forall|a: int, b: int|
                0 <= a < i && 0 <= b < ps[a].metadata.tags.len() ==> #[trigger] ps[a].metadata.tags[b] != name@,
        decreases pads.len() - i,
    {
        let tags = &pads[i].metadata.tags;
        let mut j: usize = 0;
        while j < tags.len()
            invariant
                ps == crate::tree::pads_view(pads@),
                i < pads.len(),
                tags == pads@[i as int].metadata.tags,
                j <= tags.len(),
                forall|a: int, b: int|
                    0 <= a < i && 0 <= b < ps[a].metadata.tags.len() ==> #[trigger] ps[a].metadata.tags[b] != name@,
                forall|b: int| 0 <= b < j ==> #[trigger] ps[i as int].metadata.tags[b] != name@,
            decreases tags.len() - j,
        {
            proof {
                assert(ps[i as int].metadata.tags[j as int] == tags@[j as int]@);
            }
            if str_eq(tags[j].as_str(), name.as_str()) {
                assert(ps[i as int].metadata.tags[j as int] == name@);
                return true;
            }
            j += 1;
        }
        i += 1;
    }
    false
}

/// What a JSON archive of `nested` holds (see [`json_contents`]): the
/// descriptor, stamped with `exported_at` and `padz_version`, and the files.
pub fn json_archive_contents(
    store: &Store,
    registry: &TagRegistry,
    scope: Scope,
    nested: &Vec<NestedPad>,
    exported_at: i64,
    padz_version: &str,
) -> (r: (Archive, Vec<(String, Vec<u8>)>))
    ensures
        json_contents(
            store@,
            *registry,
            scope,
            nested_view(nested@),
            exported_at,
            padz_version@,
            r.0,
            crate::import::archive::files_view(r.1@),
        ),
{
    let ghost nv = nested_view(nested@);
    let mut exported: Vec<crate::model::Pad> = Vec::new();
    let mut entries: Vec<PadEntry> = Vec::new();
    let mut files: Vec<(String, Vec<u8>)> = Vec::new();
    let mut i: usize = 0;
    proof {
        assert(nv.take(0) =~= Seq::<(DisplayPadV, usize)>::empty());
        assert(crate::import::archive::files_view(files@) =~= json_files(store@, scope, Seq::<PadV>::empty()));
    }
    while i < nested.len()
        invariant
            nv == nested_view(nested@),
            i <= nested.len(),
            crate::tree::pads_view(exported@) == json_pads(nv.take(i as int)),
            entries@.len() == exported@.len(),
            forall|k: int| 0 <= k < entries@.len() ==> #[trigger] entry_describes(
                entries@[k],
                store@,
                scope,
                crate::tree::pads_view(exported@)[k],
            ),
            crate::import::archive::files_view(files@) == json_files(store@, scope, crate::tree::pads_view(exported@)),
        decreases nested.len() - i,
    {
        proof {
            assert(nv.take(i + 1).drop_last() =~= nv.take(i as int));
            assert(nv.take(i + 1).last() == nv[i as int]);
            assert(nv[i as int].0 == crate::tree::dp_view(nested@[i as int].pad));
            assert forall|q: int| 0 <= q < i implies #[trigger] nv.take(i + 1)[q] == nv[q] by {}
            if first_seen(nv, i as int) {
                assert forall|q: int| 0 <= q < i implies #[trigger] nv.take(i + 1)[q].0.pad.metadata.id
                    != nv.take(i + 1)[i as int].0.pad.metadata.id by {
                    assert(nv.take(i + 1)[q] == nv[q]);
                }
            } else {
                let q = choose|q: int| 0 <= q < i && #[trigger] nv[q].0.pad.metadata.id == nv[i as int].0.pad.metadata.id;
                assert(nv.take(i + 1)[q] == nv[q]);
            }
            assert(first_seen(nv.take(i + 1), i as int) == first_seen(nv, i as int));
        }
        if is_first(nested, i) {
            let pad = &nested[i].pad.pad;
            let file = json_file_text(store, scope, pad.metadata.id);
            let mut path = lit("padz/");
            append_chars(&mut path, &chars_of(file.as_str()));
            let data = utf8_bytes(&pad.content);
            let ghost before_files = files@;
            let ghost before_exported = exported@;
            let ghost before_entries = entries@;
            files.push((string_from_chars(&path), data));
            let e = PadEntry {
                file,
                bucket: bucket_text(store, scope, pad.metadata.id),
                metadata: metadata_json(&pad.metadata),
            };
            entries.push(e);
            exported.push(pad.duplicate());
            proof {
                let pv = crate::tree::pads_view(exported@);
                assert(pv =~= crate::tree::pads_view(before_exported).push(nv[i as int].0.pad));
                assert(crate::import::archive::files_view(files@) =~= crate::import::archive::files_view(
                    before_files,
                ).push(("padz/"@ + json_file_name(store@, scope, pad.metadata.id), vstd::utf8::encode_utf8(pad.content@))));
                assert(json_files(store@, scope, pv) =~= json_files(store@, scope, crate::tree::pads_view(before_exported)).push(
                    ("padz/"@ + json_file_name(store@, scope, pad.metadata.id), vstd::utf8::encode_utf8(pad.content@)),
                ));
                assert forall|k: int| 0 <= k < entries@.len() implies #[trigger] entry_describes(
                    entries@[k],
                    store@,
                    scope,
                    pv[k],
                ) by {
                    if k < before_entries.len() {
                        assert(entries@[k] == before_entries[k]);
                        assert(pv[k] == crate::tree::pads_view(before_exported)[k]);
                    }
                }
            }
        }
        i += 1;
    }
    proof {
        assert(nv.take(nested.len() as int) =~= nv);
    }
    let ghost ps = crate::tree::pads_view(exported@);
    let all = match registry.load_tags(scope) {
        Ok(v) => v,
        Err(_) => Vec::new(),
    };
    let ghost reg = crate::tags::tags_view(all@);
    let mut tags: Vec<TagRegistryEntry> = Vec::new();
    let mut j: usize = 0;
    proof {
        assert(reg.take(0) =~= Seq::<TagEntryV>::empty());
        assert(registry_entries_view(tags@) =~= Seq::<TagEntryV>::empty());
    }
    while j < all.len()
        invariant
            j <= all.len(),
            reg == crate::tags::tags_view(all@),
            reg == registry.tags_of(scope),
            ps == crate::tree::pads_view(exported@),
            registry_entries_view(tags@) == referenced_tags(reg.take(j as int), ps),
        decreases all.len() - j,
    {
        proof {
            assert(reg.take(j + 1).drop_last() =~= reg.take(j as int));
            assert(reg.take(j + 1).last() == reg[j as int]);
        }
        if pad_carries(&exported, &all[j].name) {
            let ghost before = tags@;
            tags.push(TagRegistryEntry { name: all[j].name.clone(), created_at: all[j].created_at });
            proof {
                assert(registry_entries_view(tags@) =~= registry_entries_view(before).push(reg[j as int]));
            }
        }
        j += 1;
    }
    proof {
        assert(reg.take(all.len() as int) =~= reg);
    }
    let archive = Archive {
        schema_version: SCHEMA_VERSION,
        exported_at,
        padz_version: string_from_chars(&chars_of(padz_version)),
        pads: entries,
        tags,
    };
    (archive, files)
}

// ---------------------------------------------------------------------------
// Exporting
// ---------------------------------------------------------------------------

/// The tar entries of a JSON archive: each file, then `padz/db.json`.
pub open spec fn json_tar_entries(files: Seq<(Seq<char>, Seq<u8>)>, db: Seq<u8>) -> Seq<(Seq<char>, Seq<u8>, u32)> {
    files.map_values(|f: (Seq<char>, Seq<u8>)| (f.0, f.1, ENTRY_MODE)) + seq![("padz/db.json"@, db, ENTRY_MODE)]
}

/// Writes a JSON archive: the files, then the descriptor's JSON text as
/// `padz/db.json`, into a gzip-compressed tar. It fails, with an `Io`
/// error, exactly when `tar` refuses one of the paths.
pub fn pack_json_archive(files: &Vec<(String, Vec<u8>)>, db: &Vec<u8>) -> (r: Result<Vec<u8>, PadzError>)
    ensures
        r is Ok <==> (forall|i: int| 0 <= i < files@.len() ==> #[trigger] spec_tar_accepts(files@[i].0@))
            && spec_tar_accepts("padz/db.json"@),
        r matches Ok(v) ==> v@ == spec_tar_gz(json_tar_entries(crate::import::archive::files_view(files@), db@)),
        r matches Err(e) ==> e is Io,
{
    let ghost fv = crate::import::archive::files_view(files@);
    let mut builder = new_archive();
    let mut i: usize = 0;
    proof {
        assert(fv.take(0).map_values(|f: (Seq<char>, Seq<u8>)| (f.0, f.1, ENTRY_MODE)) =~= Seq::<
            (Seq<char>, Seq<u8>, u32),
        >::empty());
    }
    while i < files.len()
        invariant
            i <= files.len(),
            fv == crate::import::archive::files_view(files@),
            archive_entries(builder) == fv.take(i as int).map_values(
                |f: (Seq<char>, Seq<u8>)| (f.0, f.1, ENTRY_MODE),
            ),
            forall|j: int| 0 <= j < i ==> #[trigger] spec_tar_accepts(files@[j].0@),
        decreases files.len() - i,
    {
        match append_entry(&mut builder, files[i].0.as_str(), &files[i].1, ENTRY_MODE) {
            Ok(()) => {},
            Err(e) => {
                assert(!spec_tar_accepts(files@[i as int].0@));
                return Err(e);
            },
        }
        proof {
            assert(fv[i as int] == (files@[i as int].0@, files@[i as int].1@));
            assert(fv.take(i + 1).map_values(|f: (Seq<char>, Seq<u8>)| (f.0, f.1, ENTRY_MODE)) =~= fv.take(
                i as int,
            ).map_values(|f: (Seq<char>, Seq<u8>)| (f.0, f.1, ENTRY_MODE)).push((fv[i as int].0, fv[i as int].1, ENTRY_MODE)));
        }
        i += 1;
    }
    match append_entry(&mut builder, "padz/db.json", db, ENTRY_MODE) {
        Ok(()) => {},
        Err(e) => return Err(e),
    }
    assert(forall|j: int| 0 <= j < files@.len() ==> #[trigger] spec_tar_accepts(files@[j].0@));
    proof {
        assert(fv.take(files.len() as int) =~= fv);
        assert(archive_entries(builder) =~= json_tar_entries(fv, db@));
    }
    finish_archive(builder)
}

/// A JSON export before its descriptor is written out: nothing to export,
/// or the descriptor and files of the archive with the number of pads
/// selected and the suggested file name.
#[derive(Debug)]
pub enum JsonExport {
    Empty,
    Contents { archive: Archive, files: Vec<(String, Vec<u8>)>, exported: usize, suggested_filename: String },
}

/// What a JSON export yields (see [`run_json`]).
pub open spec fn json_export_outcome(
    s: Seq<StoredV>,
    reg: TagRegistry,
    scope: Scope,
    sels: Seq<crate::index::SelectorV>,
    nesting: NestingMode,
    padz_version: Seq<char>,
    r: Result<JsonExport, PadzError>,
) -> bool {
    match export_selection(s, scope, sels) {
        Err(k) => r matches Err(e) && e.kind() == k,
        Ok(p) => if p.len() == 0 {
            r matches Ok(JsonExport::Empty)
        } else {
            r matches Ok(JsonExport::Contents { archive, files, exported, suggested_filename }) && json_contents(
                s,
                reg,
                scope,
                nesting_of(s, scope, p, nesting),
                archive.exported_at,
                padz_version,
                archive,
                crate::import::archive::files_view(files@),
            ) && exported == p.len() && exists|stamp: Seq<char>|
                #[trigger] json_archive_name(stamp) == suggested_filename@
        },
    }
}

/// The suggested name of a JSON archive written at the time `stamp` names.
pub open spec fn json_archive_name(stamp: Seq<char>) -> Seq<char> {
    "padz-"@ + stamp + ".json.tar.gz"@
}

/// Exports the selected pads (all live top-level pads without selectors) as
/// the contents of a JSON archive, stamped with the current time (see
/// [`json_export_outcome`]).
pub fn run_json(
    store: &Store,
    registry: &TagRegistry,
    scope: Scope,
    selectors: &Vec<PadSelector>,
    nesting: NestingMode,
    padz_version: &str,
) -> (r: Result<JsonExport, PadzError>)
    ensures
        json_export_outcome(store@, *registry, scope, selectors_view(selectors@), nesting, padz_version@, r),
{
    let pads = match resolve_pads(store, scope, selectors) {
        Ok(v) => v,
        Err(e) => return Err(e),
    };
    if pads.len() == 0 {
        return Ok(JsonExport::Empty);
    }
    let nested = match resolve_nested(store, scope, &pads, nesting) {
        Ok(v) => v,
        Err(e) => return Err(e),
    };
    let exported_at = crate::model::now_millis();
    let stamp = now_stamp();
    let mut name = lit("padz-");
    append_chars(&mut name, &chars_of(stamp.as_str()));
    append_chars(&mut name, &lit(".json.tar.gz"));
    let (archive, files) = json_archive_contents(store, registry, scope, &nested, exported_at, padz_version);
    let suggested_filename = string_from_chars(&name);
    assert(json_archive_name(stamp@) == suggested_filename@);
    Ok(JsonExport::Contents { archive, files, exported: pads.len(), suggested_filename })
}

} // verus!
