//! What a JSON archive gives back: importing the contents of an export
//! lands every exported pad again with its id, times, flags, status, tags
//! and content; a parent survives when it was exported too.
use vstd::prelude::*;
use crate::commands::metadata_apply::bucket_of_label;
use crate::commands::metadata_schema::{Archive, PadEntry};
use crate::export::json_archive::{
    entry_describes, json_bucket, json_contents, json_file_name, json_files, json_opt_id_is, json_opt_time_is, json_pads,
    json_text_is, json_texts_are, json_time_is, metadata_json_is, metadata_keys, status_name,
};
use crate::import::archive::{entry_bytes, entry_id, entry_ids, entry_pad, file_at, landed_pad, EntryErrorV};
use crate::index::spec_uuid_parse;
use crate::json::{member, text_of, JsonValue};
use crate::model::{compose_content, new_pad_value, spec_title_and_body, uuid_hyphenated, Bucket, MetadataV, PadV, Scope};
use crate::patch::{
    json_time, json_uuid, non_string_count, patch_created, patch_id, patch_is_pinned, patch_parent, patch_pinned_at,
    patch_protected, patch_status, patch_tags, patch_updated, patched, spec_rfc3339_text, four_digit_year, status_named, string_items,
    ParentPolicyV, PatchWarningV,
};
use crate::store::{stored_in, StoredV};
use crate::tags::TagRegistry;
use crate::tree::DisplayPadV;

verus! {

/// Each member name of stored metadata differs from the others.
proof fn lemma_metadata_keys_distinct()
    ensures
        forall|a: int, b: int| 0 <= a < b < 10 ==> #[trigger] metadata_keys()[a] != #[trigger] metadata_keys()[b],
{
    reveal_strlit("id");
    reveal_strlit("created_at");
    reveal_strlit("updated_at");
    reveal_strlit("is_pinned");
    reveal_strlit("pinned_at");
    reveal_strlit("delete_protected");
    reveal_strlit("parent_id");
    reveal_strlit("title");
    reveal_strlit("status");
    reveal_strlit("tags");
    let k = metadata_keys();
    assert(k[1][0] != k[2][0]);
    assert(k[3][0] != k[4][0]);
    assert(k[3][0] != k[6][0]);
    assert(k[4][1] != k[6][1]);
    assert forall|a: int, b: int| 0 <= a < b < 10 implies #[trigger] k[a] != #[trigger] k[b] by {
        if a == 1 && b == 2 {
            assert(k[a][0] != k[b][0]);
        } else if a == 3 && b == 4 {
            assert(k[a][0] != k[b][0]);
        } else if a == 3 && b == 6 {
            assert(k[a][0] != k[b][0]);
        } else if a == 4 && b == 6 {
            assert(k[a][1] != k[b][1]);
        } else {
            assert(k[a].len() != k[b].len());
        }
    }
}

proof fn lemma_member_absent(o: Seq<(String, JsonValue)>, key: Seq<char>)
    requires
        forall|j: int| 0 <= j < o.len() ==> #[trigger] o[j].0@ != key,
    ensures
        member(o, key) is None,
    decreases o.len(),
{
    if o.len() > 0 {
        lemma_member_absent(o.drop_last(), key);
        assert(o.last() == o[o.len() - 1]);
    }
}

/// The member named `key` is the one at `k` when no earlier member has that
/// name.
proof fn lemma_member_at(o: Seq<(String, JsonValue)>, key: Seq<char>, k: int)
    requires
        0 <= k < o.len(),
        o[k].0@ == key,
        forall|j: int| 0 <= j < k ==> #[trigger] o[j].0@ != key,
    ensures
        member(o, key) == Some(o[k].1),
    decreases o.len(),
{
    if k == o.len() - 1 {
        assert forall|j: int| 0 <= j < o.drop_last().len() implies #[trigger] o.drop_last()[j].0@ != key by {
            assert(o.drop_last()[j] == o[j]);
        }
        lemma_member_absent(o.drop_last(), key);
    } else {
        assert forall|j: int| 0 <= j < k implies #[trigger] o.drop_last()[j].0@ != key by {
            assert(o.drop_last()[j] == o[j]);
        }
        assert(o.drop_last()[k] == o[k]);
        lemma_member_at(o.drop_last(), key, k);
    }
}

proof fn lemma_string_items(items: Seq<JsonValue>, ts: Seq<Seq<char>>)
    requires
        items.len() == ts.len(),
        forall|i: int| 0 <= i < ts.len() ==> #[trigger] json_text_is(items[i], ts[i]),
    ensures
        string_items(items) == ts,
        non_string_count(items) == 0,
    decreases items.len(),
{
    if items.len() > 0 {
        assert forall|i: int| 0 <= i < ts.drop_last().len() implies #[trigger] json_text_is(
            items.drop_last()[i],
            ts.drop_last()[i],
        ) by {
            assert(json_text_is(items[i], ts[i]));
        }
        lemma_string_items(items.drop_last(), ts.drop_last());
        assert(json_text_is(items[items.len() - 1], ts[ts.len() - 1]));
        assert(ts =~= ts.drop_last().push(ts.last()));
    }
}

/// The parent a pad keeps on import: its own when that parent is among
/// `ids`, else none.
pub open spec fn kept_parent(parent: Option<u128>, ids: Seq<u128>) -> Option<u128> {
    match parent {
        Some(p) => if ids.contains(p) {
            Some(p)
        } else {
            None
        },
        None => None,
    }
}

/// The warning importing notes about a parent: an orphaned one only.
pub open spec fn parent_warnings(parent: Option<u128>, ids: Seq<u128>) -> Seq<PatchWarningV> {
    match parent {
        Some(p) => if ids.contains(p) {
            Seq::empty()
        } else {
            seq![PatchWarningV::ParentOrphaned]
        },
        None => Seq::empty(),
    }
}

/// The texts of the ids read back as those ids, as `uuid` reads its own
/// hyphenated form.
pub open spec fn id_parses(id: u128) -> bool {
    spec_uuid_parse(uuid_hyphenated(id)) == Some(id)
}

/// A pad an archive gives back whole: its content reads back as its title
/// and a body that compose it again, its times fall in years 0000 through
/// 9999, and its id and parent read back from their text.
pub open spec fn restorable(p: PadV) -> bool {
    &&& match spec_title_and_body(p.content) {
        Some((t, b)) => t == p.metadata.title && t.len() > 0 && compose_content(t, b) == p.content,
        None => false,
    }
    &&& four_digit_year(p.metadata.created_at)
    &&& four_digit_year(p.metadata.updated_at)
    &&& (p.metadata.pinned_at matches Some(t) ==> four_digit_year(t))
    &&& id_parses(p.metadata.id)
    &&& (p.metadata.parent_id matches Some(q) ==> id_parses(q))
}

/// Applying stored metadata over any metadata restores it, but for the
/// title, which stays, and a parent outside `ids`, which is dropped.
proof fn lemma_patched_restores(m0: MetadataV, v: JsonValue, m: MetadataV, ids: Seq<u128>)
    requires
        metadata_json_is(v, m),
        four_digit_year(m.created_at),
        four_digit_year(m.updated_at),
        m.pinned_at matches Some(t) ==> four_digit_year(t),
        id_parses(m.id),
        m.parent_id matches Some(q) ==> id_parses(q),
    ensures
        patched(m0, v, ParentPolicyV::OrphanUnknown(ids)) == (
            MetadataV { title: m0.title, parent_id: kept_parent(m.parent_id, ids), ..m },
            parent_warnings(m.parent_id, ids),
        ),
{
    reveal(patched);
    let o = v->Object_0@;
    lemma_metadata_keys_distinct();
    assert forall|k: int| 0 <= k < 10 implies #[trigger] member(o, metadata_keys()[k]) == Some(o[k].1) by {
        assert forall|j: int| 0 <= j < k implies #[trigger] o[j].0@ != metadata_keys()[k] by {
            assert(o[j].0@ == metadata_keys()[j]);
        }
        assert(o[k].0@ == metadata_keys()[k]);
        lemma_member_at(o, metadata_keys()[k], k);
    }
    reveal_strlit("id");
    reveal_strlit("created_at");
    reveal_strlit("updated_at");
    reveal_strlit("is_pinned");
    reveal_strlit("pinned_at");
    reveal_strlit("delete_protected");
    reveal_strlit("parent_id");
    reveal_strlit("title");
    reveal_strlit("status");
    reveal_strlit("tags");
    reveal_strlit("Planned");
    reveal_strlit("InProgress");
    reveal_strlit("Done");
    assert(member(o, "id"@) == Some(o[0].1)) by {
        assert(metadata_keys()[0] == "id"@);
    }
    assert(member(o, "created_at"@) == Some(o[1].1)) by {
        assert(metadata_keys()[1] == "created_at"@);
    }
    assert(member(o, "updated_at"@) == Some(o[2].1)) by {
        assert(metadata_keys()[2] == "updated_at"@);
    }
    assert(member(o, "is_pinned"@) == Some(o[3].1)) by {
        assert(metadata_keys()[3] == "is_pinned"@);
    }
    assert(member(o, "pinned_at"@) == Some(o[4].1)) by {
        assert(metadata_keys()[4] == "pinned_at"@);
    }
    assert(member(o, "delete_protected"@) == Some(o[5].1)) by {
        assert(metadata_keys()[5] == "delete_protected"@);
    }
    assert(member(o, "parent_id"@) == Some(o[6].1)) by {
        assert(metadata_keys()[6] == "parent_id"@);
    }
    assert(member(o, "status"@) == Some(o[8].1)) by {
        assert(metadata_keys()[8] == "status"@);
    }
    assert(member(o, "tags"@) == Some(o[9].1)) by {
        assert(metadata_keys()[9] == "tags"@);
    }
    let items = o[9].1->Array_0@;
    lemma_string_items(items, m.tags);
    assert(status_named(status_name(m.status)) == Some(m.status)) by {
        assert("InProgress"@.len() != "Planned"@.len());
        assert("Done"@.len() != "Planned"@.len());
        assert("Done"@.len() != "InProgress"@.len());
    }
    let p0 = (m0, Seq::<PatchWarningV>::empty());
    let p1 = patch_id(p0, o);
    assert(p1 == (MetadataV { id: m.id, ..m0 }, Seq::<PatchWarningV>::empty()));
    let p2 = patch_created(p1, o);
    assert(json_time(o[1].1) == Some(m.created_at));
    let p3 = patch_updated(p2, o);
    assert(json_time(o[2].1) == Some(m.updated_at));
    let p4 = patch_is_pinned(p3, o);
    let p5 = patch_pinned_at(p4, o);
    let p6 = patch_protected(p5, o);
    let p7 = patch_status(p6, o);
    let p8 = patch_tags(p7, o);
    assert(p8 == (
        MetadataV {
            id: m.id,
            created_at: m.created_at,
            updated_at: m.updated_at,
            is_pinned: m.is_pinned,
            pinned_at: m.pinned_at,
            delete_protected: m.delete_protected,
            status: m.status,
            tags: m.tags,
            ..m0
        },
        Seq::<PatchWarningV>::empty(),
    ));
    let p9 = patch_parent(p8, o, ParentPolicyV::OrphanUnknown(ids));
    assert(p9.0 == MetadataV { title: m0.title, parent_id: kept_parent(m.parent_id, ids), ..m });
    assert(p9.1 == parent_warnings(m.parent_id, ids));
}

proof fn lemma_file_at_unique(files: Seq<(Seq<char>, Seq<u8>)>, path: Seq<char>, k: int)
    requires
        0 <= k < files.len(),
        files[k].0 == path,
        forall|j: int| 0 <= j < files.len() && j != k ==> #[trigger] files[j].0 != path,
    ensures
        file_at(files, path) == Some(files[k].1),
    decreases files.len(),
{
    if k < files.len() - 1 {
        assert(files.last() == files[files.len() - 1]);
        assert forall|j: int| 0 <= j < files.drop_last().len() && j != k implies #[trigger] files.drop_last()[j].0
            != path by {
            assert(files.drop_last()[j] == files[j]);
        }
        assert(files.drop_last()[k] == files[k]);
        lemma_file_at_unique(files.drop_last(), path, k);
    }
}

/// Every pad a JSON archive holds is an exported pad, and no two share an id.
proof fn lemma_json_pads(pads: Seq<(DisplayPadV, usize)>)
    ensures
        forall|i: int| 0 <= i < json_pads(pads).len() ==> exists|j: int|
            0 <= j < pads.len() && #[trigger] json_pads(pads)[i] == pads[j].0.pad,
        forall|a: int, b: int|
            0 <= a < b < json_pads(pads).len() ==> #[trigger] json_pads(pads)[a].metadata.id
                != #[trigger] json_pads(pads)[b].metadata.id,
    decreases pads.len(),
{
    if pads.len() > 0 {
        let prev = pads.drop_last();
        lemma_json_pads(prev);
        let r = json_pads(prev);
        let n = pads.len() - 1;
        assert forall|i: int| 0 <= i < r.len() implies exists|j: int| 0 <= j < pads.len() && #[trigger] r[i] == pads[j].0.pad by {
            let j = choose|j: int| 0 <= j < prev.len() && #[trigger] r[i] == prev[j].0.pad;
            assert(prev[j] == pads[j]);
        }
        if crate::export::first_seen(pads, n) {
            let q = json_pads(pads);
            assert(q == r.push(pads[n].0.pad));
            assert forall|i: int| 0 <= i < q.len() implies exists|j: int| 0 <= j < pads.len() && #[trigger] q[i] == pads[j].0.pad by {
                if i < r.len() {
                    assert(q[i] == r[i]);
                } else {
                    assert(q[i] == pads[n].0.pad);
                }
            }
            assert forall|a: int, b: int| 0 <= a < b < q.len() implies #[trigger] q[a].metadata.id != #[trigger] q[b].metadata.id by {
                if b == r.len() {
                    assert(q[a] == r[a]);
                    let j = choose|j: int| 0 <= j < pads.len() && #[trigger] r[a] == pads[j].0.pad;
                    let jj = choose|jj: int| 0 <= jj < prev.len() && #[trigger] r[a] == prev[jj].0.pad;
                    assert(prev[jj] == pads[jj]);
                    assert(pads[jj].0.pad.metadata.id != pads[n].0.pad.metadata.id);
                } else {
                    assert(q[a] == r[a]);
                    assert(q[b] == r[b]);
                }
            }
        }
    }
}

/// The ids of the pads.
pub open spec fn pad_ids(ps: Seq<PadV>) -> Seq<u128> {
    ps.map_values(|p: PadV| p.metadata.id)
}

proof fn lemma_metadata_members(v: JsonValue, m: MetadataV)
    requires
        metadata_json_is(v, m),
    ensures
        forall|k: int| 0 <= k < 10 ==> #[trigger] member(v->Object_0@, metadata_keys()[k]) == Some(v->Object_0@[k].1),
{
    let o = v->Object_0@;
    lemma_metadata_keys_distinct();
    assert forall|k: int| 0 <= k < 10 implies #[trigger] member(o, metadata_keys()[k]) == Some(o[k].1) by {
        assert forall|j: int| 0 <= j < k implies #[trigger] o[j].0@ != metadata_keys()[k] by {
            assert(o[j].0@ == metadata_keys()[j]);
        }
        assert(o[k].0@ == metadata_keys()[k]);
        lemma_member_at(o, metadata_keys()[k], k);
    }
}

proof fn lemma_entry_ids(es: Seq<PadEntry>, ps: Seq<PadV>)
    requires
        es.len() == ps.len(),
        forall|i: int| 0 <= i < ps.len() ==> #[trigger] metadata_json_is(es[i].metadata, ps[i].metadata),
        forall|i: int| 0 <= i < ps.len() ==> #[trigger] id_parses(ps[i].metadata.id),
    ensures
        entry_ids(es) == pad_ids(ps),
    decreases es.len(),
{
    if es.len() > 0 {
        let n = es.len() - 1;
        assert forall|i: int| 0 <= i < ps.drop_last().len() implies #[trigger] metadata_json_is(
            es.drop_last()[i].metadata,
            ps.drop_last()[i].metadata,
        ) by {
            assert(metadata_json_is(es[i].metadata, ps[i].metadata));
        }
        assert forall|i: int| 0 <= i < ps.drop_last().len() implies #[trigger] id_parses(ps.drop_last()[i].metadata.id) by {
            assert(id_parses(ps[i].metadata.id));
        }
        lemma_entry_ids(es.drop_last(), ps.drop_last());
        assert(metadata_json_is(es[n].metadata, ps[n].metadata));
        assert(id_parses(ps[n].metadata.id));
        lemma_metadata_members(es[n].metadata, ps[n].metadata);
        reveal_strlit("id");
        assert(metadata_keys()[0] == "id"@);
        assert(member(es[n].metadata->Object_0@, metadata_keys()[0]) == Some(es[n].metadata->Object_0@[0].1));
        assert(entry_id(es.last()) == Some(ps[n].metadata.id));
        assert(pad_ids(ps) =~= pad_ids(ps.drop_last()).push(ps[n].metadata.id));
    }
}

/// A JSON archive gives back what was exported: importing its entry `k`,
/// with every entry of the archive in the import set, lands the `k`-th
/// exported pad with its id, times, flags, status, tags and content; its
/// parent stays when that parent was exported too, else it becomes a root
/// pad and the import says so. The entry lands in the pad's bucket (active,
/// or archived). This holds of pads the archive can give back whole (see
/// [`restorable`]); whatever new id and time a pad would otherwise get
/// play no part.
pub proof fn lemma_json_roundtrip(
    s: Seq<StoredV>,
    reg: TagRegistry,
    scope: Scope,
    nested: Seq<(DisplayPadV, usize)>,
    exported_at: i64,
    padz_version: Seq<char>,
    archive: Archive,
    files: Seq<(Seq<char>, Seq<u8>)>,
    k: int,
    fresh: u128,
    now: i64,
)
    requires
        json_contents(s, reg, scope, nested, exported_at, padz_version, archive, files),
        forall|i: int| 0 <= i < json_pads(nested).len() ==> #[trigger] restorable(json_pads(nested)[i]),
        0 <= k < json_pads(nested).len(),
    ensures
        ({
            let ps = json_pads(nested);
            let p = ps[k];
            let ids = pad_ids(ps);
            &&& entry_ids(archive.pads@) == ids
            &&& entry_pad(archive.pads@[k], files, ids, fresh, now) == Ok::<(PadV, Seq<PatchWarningV>), EntryErrorV>(
                (
                    PadV { metadata: MetadataV { parent_id: kept_parent(p.metadata.parent_id, ids), ..p.metadata }, ..p },
                    parent_warnings(p.metadata.parent_id, ids),
                ),
            )
            &&& bucket_of_label(archive.pads@[k].bucket@) == if !stored_in(s, scope, p.metadata.id, Bucket::Active)
                && stored_in(s, scope, p.metadata.id, Bucket::Archived) {
                Bucket::Archived
            } else {
                Bucket::Active
            }
        }),
{
    let ps = json_pads(nested);
    let p = ps[k];
    let ids = pad_ids(ps);
    let e = archive.pads@[k];
    assert(entry_describes(e, s, scope, p));
    assert(restorable(p));
    // The archive's ids are the exported ones.
    assert forall|i: int| 0 <= i < ps.len() implies #[trigger] metadata_json_is(
        archive.pads@[i].metadata,
        ps[i].metadata,
    ) by {
        assert(entry_describes(archive.pads@[i], s, scope, ps[i]));
    }
    assert forall|i: int| 0 <= i < ps.len() implies #[trigger] id_parses(ps[i].metadata.id) by {
        assert(restorable(ps[i]));
    }
    lemma_entry_ids(archive.pads@, ps);
    // The entry's file holds the pad's content.
    lemma_json_pads(nested);
    crate::model::lemma_uuid_hyphenated_len(p.metadata.id);
    let path = "padz/"@ + json_file_name(s, scope, p.metadata.id);
    assert(files == json_files(s, scope, ps));
    assert(files[k].0 == path);
    assert forall|j: int| 0 <= j < files.len() && j != k implies #[trigger] files[j].0 != path by {
        let q = ps[j];
        assert(files[j].0 == "padz/"@ + json_file_name(s, scope, q.metadata.id));
        crate::model::lemma_uuid_hyphenated_len(q.metadata.id);
        if files[j].0 == path {
            reveal_strlit("padz/");
            reveal_strlit("pads/pad-");
            assert(files[j].0.subrange(14, 50) =~= uuid_hyphenated(q.metadata.id));
            assert(path.subrange(14, 50) =~= uuid_hyphenated(p.metadata.id));
            assert(id_parses(q.metadata.id));
            if j < k {
                assert(ps[j].metadata.id != ps[k].metadata.id);
            } else {
                assert(ps[k].metadata.id != ps[j].metadata.id);
            }
        }
    }
    lemma_file_at_unique(files, path, k);
    assert(e.file@ == json_file_name(s, scope, p.metadata.id));
    assert(entry_bytes(files, e.file@) == Some(vstd::utf8::encode_utf8(p.content)));
    vstd::utf8::encode_utf8_valid_utf8(p.content);
    vstd::utf8::encode_utf8_decode_utf8(p.content);
    let (t, b) = spec_title_and_body(p.content)->Some_0;
    assert(t == p.metadata.title);
    // The metadata is applied over the new pad.
    let p0 = new_pad_value(fresh, now, t, b);
    lemma_patched_restores(p0.metadata, e.metadata, p.metadata, ids);
    assert(entry_pad(e, files, ids, fresh, now) == Ok::<(PadV, Seq<PatchWarningV>), crate::import::archive::EntryErrorV>(
        landed_pad(e, t, b, ids, fresh, now),
    ));
    reveal_strlit("Active");
    reveal_strlit("Archived");
    reveal_strlit("Deleted");
    assert("Active"@.len() != "Archived"@.len());
    assert("Active"@.len() != "Deleted"@.len());
    assert("Archived"@ != "Deleted"@) by {
        assert("Archived"@[1] != "Deleted"@[1]);
    }
}

} // verus!
