//! Importing JSON archives: every pad entry of `db.json` lands with its
//! file's content and as much of its metadata as can be read; an entry that
//! cannot land is skipped with a typed diagnostic while the others still
//! import; referenced tags join the registry.
use vstd::prelude::*;
use crate::commands::metadata_apply::{
    apply_metadata_defensively, bucket_of_label, parse_bucket_or_active, warning_fact_of, application_warnings_view,
    MetadataApplicationWarning, WarningV,
};
use crate::commands::metadata_schema::{Archive, PadEntry, TagRegistryEntry};
use crate::error::PadzError;
use crate::import::{
    append_warning_diagnostics, diags_view, failed_source, warning_diags, warnings_view, ArchiveEntrySkipReason, DiagnosticV, ImportDiagnostic, ImportSourceKind,
    ImportSourceReport, ImportSourceStatus, IoFailure, SourceReportV, TagRegistryMergeStatus,
};
use crate::index::{parse_uuid, spec_uuid_parse};
use crate::json::{get_member, member, JsonValue};
use crate::model::{extract_title_and_body, new_pad_value, spec_title_and_body, MetadataV, Pad, PadV, Scope};
use crate::patch::{patched, ParentPolicy, ParentPolicyV, PatchWarningV};
use crate::store::{spec_save, Store, StoredV};
use crate::tags::{tags_view, TagEntry, TagEntryV, TagRegistry};
use crate::text::{
    append_chars, chars_ends_with, chars_of, ends_with, lit, spec_lowercase, str_eq, string_from_chars, to_lowercase,
};

verus! {

// ---------------------------------------------------------------------------
// Unpacking
// ---------------------------------------------------------------------------

/// Whether a file name, taken case-insensitively, ends in `.tar.gz` or
/// `.tgz`: such a file is imported as a JSON archive.
pub open spec fn archive_file_name(name: Seq<char>) -> bool {
    ends_with(spec_lowercase(name), ".tar.gz"@) || ends_with(spec_lowercase(name), ".tgz"@)
}

/// Whether a file of this name is imported as a JSON archive (see
/// [`archive_file_name`]).
pub fn is_json_archive_name(name: &str) -> (r: bool)
    ensures
        r == archive_file_name(name@),
{
    let lower = chars_of(to_lowercase(name).as_str());
    chars_ends_with(&lower, &lit(".tar.gz")) || chars_ends_with(&lower, &lit(".tgz"))
}

/// The step of reading an archive that failed.
#[derive(Clone, Copy, Debug, PartialEq, Eq, Structural)]
pub enum UnpackStage {
    /// Listing the entries.
    Entries,
    /// Reading an entry's header.
    Entry,
    /// Reading an entry's path.
    Path,
    /// Reading an entry's content.
    Content,
}

pub open spec fn files_view(v: Seq<(String, Vec<u8>)>) -> Seq<(Seq<char>, Seq<u8>)> {
    v.map_values(|f: (String, Vec<u8>)| (f.0@, f.1@))
}

/// What reading a gzip-compressed tar archive with `tar::Archive` over
/// `flate2::read::GzDecoder` gives: each entry's path (lossily as text) and
/// content, in order; or the step that failed with the error's text.
pub uninterp spec fn spec_unpacked(bytes: Seq<u8>) -> Result<Seq<(Seq<char>, Seq<u8>)>, (UnpackStage, Seq<char>)>;

/// Calls `tar::Archive::new` over `flate2::read::GzDecoder::new`, then
/// `entries`, `path` and `read_to_end` on each entry; the result is the
/// named reading of the bytes.
#[verifier::external_body]
fn unpack(bytes: &Vec<u8>) -> (r: Result<Vec<(String, Vec<u8>)>, (UnpackStage, String)>)
    ensures
        match r {
            Ok(v) => spec_unpacked(bytes@) == Ok::<Seq<(Seq<char>, Seq<u8>)>, (UnpackStage, Seq<char>)>(files_view(v@)),
            Err(e) => spec_unpacked(bytes@) == Err::<Seq<(Seq<char>, Seq<u8>)>, (UnpackStage, Seq<char>)>((e.0, e.1@)),
        },
{
    let mut archive = tar::Archive::new(flate2::read::GzDecoder::new(bytes.as_slice()));
    let entries = archive.entries().map_err(|e| (UnpackStage::Entries, e.to_string()))?;
    let mut files = Vec::new();
    for entry in entries {
        let mut entry = entry.map_err(|e| (UnpackStage::Entry, e.to_string()))?;
        let path = entry.path().map_err(|e| (UnpackStage::Path, e.to_string()))?.to_string_lossy().to_string();
        let mut buf = Vec::new();
        std::io::Read::read_to_end(&mut entry, &mut buf).map_err(|e| (UnpackStage::Content, e.to_string()))?;
        files.push((path, buf));
    }
    Ok(files)
}

/// The content stored under `path` (the last entry with that path).
pub open spec fn file_at(files: Seq<(Seq<char>, Seq<u8>)>, path: Seq<char>) -> Option<Seq<u8>>
    decreases files.len(),
{
    if files.len() == 0 {
        None
    } else if files.last().0 == path {
        Some(files.last().1)
    } else {
        file_at(files.drop_last(), path)
    }
}

fn find_file<'a>(files: &'a Vec<(String, Vec<u8>)>, path: &str) -> (r: Option<&'a Vec<u8>>)
    ensures
        match file_at(files_view(files@), path@) {
            Some(b) => r matches Some(x) && x@ == b,
            None => r is None,
        },
{
    let ghost fv = files_view(files@);
    let mut k: usize = files.len();
    proof {
        assert(fv.take(files.len() as int) =~= fv);
    }
    while k > 0
        invariant
            fv == files_view(files@),
            k <= files.len(),
            file_at(fv, path@) == file_at(fv.take(k as int), path@),
        decreases k,
    {
        proof {
            assert(fv.take(k as int).drop_last() =~= fv.take(k - 1));
            assert(fv.take(k as int).last() == fv[k - 1]);
        }
        proof {
            assert(fv[k - 1] == (files@[k - 1].0@, files@[k - 1].1@));
        }
        if str_eq(files[k - 1].0.as_str(), path) {
            return Some(&files[k - 1].1);
        }
        k -= 1;
    }
    proof {
        assert(fv.take(0) =~= Seq::<(Seq<char>, Seq<u8>)>::empty());
    }
    None
}

/// The message for a failed step of reading an archive.
pub open spec fn unpack_message(stage: UnpackStage, detail: Seq<char>) -> Seq<char> {
    match stage {
        UnpackStage::Path => "Invalid archive path: "@ + detail,
        UnpackStage::Content => "Invalid archive entry: "@ + detail,
        _ => "Invalid archive: "@ + detail,
    }
}

/// Reads a JSON archive: its files and the bytes of its `db.json`
/// (`padz/db.json`, else a bare `db.json`). An unreadable archive, or one
/// without `db.json`, is an API error.
pub fn unpack_json_archive(bytes: &Vec<u8>) -> (r: Result<(Vec<(String, Vec<u8>)>, Vec<u8>), PadzError>)
    ensures
        match spec_unpacked(bytes@) {
            Err((stage, detail)) => r matches Err(PadzError::Api(m)) && m@ == unpack_message(stage, detail),
            Ok(files) => match file_at(files, "padz/db.json"@) {
                Some(db) => r matches Ok((f, d)) && files_view(f@) == files && d@ == db,
                None => match file_at(files, "db.json"@) {
                    Some(db) => r matches Ok((f, d)) && files_view(f@) == files && d@ == db,
                    None => r matches Err(PadzError::Api(m)) && m@ == "Archive does not contain db.json"@,
                },
            },
        },
{
    let files = match unpack(bytes) {
        Ok(f) => f,
        Err((stage, detail)) => {
            let prefix = match stage {
                UnpackStage::Path => lit("Invalid archive path: "),
                UnpackStage::Content => lit("Invalid archive entry: "),
                _ => lit("Invalid archive: "),
            };
            let mut m = prefix;
            append_chars(&mut m, &chars_of(detail.as_str()));
            return Err(PadzError::Api(string_from_chars(&m)));
        },
    };
    let db = match find_file(&files, "padz/db.json") {
        Some(d) => d.clone(),
        None => match find_file(&files, "db.json") {
            Some(d) => d.clone(),
            None => return Err(PadzError::Api(string_from_chars(&lit("Archive does not contain db.json")))),
        },
    };
    Ok((files, db))
}

// ---------------------------------------------------------------------------
// One entry
// ---------------------------------------------------------------------------

/// What `std::str::from_utf8` reports for bytes that are not UTF-8.
pub uninterp spec fn spec_utf8_error(bytes: Seq<u8>) -> Seq<char>;

/// Calls `std::str::from_utf8`: the text of valid UTF-8 bytes, else the
/// error's text (named by [`spec_utf8_error`]).
#[verifier::external_body]
fn utf8_text(bytes: &Vec<u8>) -> (r: Result<String, String>)
    ensures
        r is Ok <==> vstd::utf8::valid_utf8(bytes@),
        r matches Ok(s) ==> s@ == vstd::utf8::decode_utf8(bytes@),
        r matches Err(e) ==> e@ == spec_utf8_error(bytes@),
{
    std::str::from_utf8(bytes.as_slice()).map(|s| s.to_string()).map_err(|e| e.to_string())
}

/// Why an archive entry could not land.
#[derive(Debug)]
pub enum ArchiveEntryError {
    MissingFile(String),
    InvalidEncoding(String),
    EmptyContent,
    StoreFailure(String),
}

pub enum EntryErrorV {
    MissingFile(Seq<char>),
    InvalidEncoding(Seq<char>),
    EmptyContent,
}

impl ArchiveEntryError {
    pub open spec fn spec_reason(&self) -> ArchiveEntrySkipReason {
        match self {
            ArchiveEntryError::MissingFile(_) => ArchiveEntrySkipReason::MissingFile,
            ArchiveEntryError::InvalidEncoding(_) => ArchiveEntrySkipReason::InvalidEncoding,
            ArchiveEntryError::EmptyContent => ArchiveEntrySkipReason::EmptyContent,
            ArchiveEntryError::StoreFailure(_) => ArchiveEntrySkipReason::StoreFailure,
        }
    }

    pub open spec fn spec_message(&self) -> Seq<char> {
        match self {
            ArchiveEntryError::MissingFile(f) => "Missing file: "@ + f@,
            ArchiveEntryError::InvalidEncoding(e) => "Non-UTF-8 content: "@ + e@,
            ArchiveEntryError::EmptyContent => "Empty pad content"@,
            ArchiveEntryError::StoreFailure(e) => e@,
        }
    }

    /// The typed reason of the failure.
    pub fn reason(&self) -> (r: ArchiveEntrySkipReason)
        ensures
            r == self.spec_reason(),
    {
        match self {
            ArchiveEntryError::MissingFile(_) => ArchiveEntrySkipReason::MissingFile,
            ArchiveEntryError::InvalidEncoding(_) => ArchiveEntrySkipReason::InvalidEncoding,
            ArchiveEntryError::EmptyContent => ArchiveEntrySkipReason::EmptyContent,
            ArchiveEntryError::StoreFailure(_) => ArchiveEntrySkipReason::StoreFailure,
        }
    }

    /// The explanation of the failure.
    pub fn message(&self) -> (r: String)
        ensures
            r@ == self.spec_message(),
    {
        match self {
            ArchiveEntryError::MissingFile(f) => {
                let mut m = lit("Missing file: ");
                append_chars(&mut m, &chars_of(f.as_str()));
                string_from_chars(&m)
            },
            ArchiveEntryError::InvalidEncoding(e) => {
                let mut m = lit("Non-UTF-8 content: ");
                append_chars(&mut m, &chars_of(e.as_str()));
                string_from_chars(&m)
            },
            ArchiveEntryError::EmptyContent => string_from_chars(&lit("Empty pad content")),
            ArchiveEntryError::StoreFailure(e) => e.clone(),
        }
    }
}

/// The reason and explanation of a failed entry.
pub open spec fn entry_error_fact(e: EntryErrorV) -> (ArchiveEntrySkipReason, Seq<char>) {
    match e {
        EntryErrorV::MissingFile(f) => (ArchiveEntrySkipReason::MissingFile, "Missing file: "@ + f),
        EntryErrorV::InvalidEncoding(d) => (ArchiveEntrySkipReason::InvalidEncoding, "Non-UTF-8 content: "@ + d),
        EntryErrorV::EmptyContent => (ArchiveEntrySkipReason::EmptyContent, "Empty pad content"@),
    }
}

/// The content of an entry's file: under `padz/` first, else as named.
pub open spec fn entry_bytes(files: Seq<(Seq<char>, Seq<u8>)>, file: Seq<char>) -> Option<Seq<u8>> {
    match file_at(files, "padz/"@ + file) {
        Some(b) => Some(b),
        None => file_at(files, file),
    }
}

/// The pad an entry lands as, given the fresh id and time a new pad gets,
/// with the metadata warnings; or why it cannot land. The content gives
/// title and body; the metadata is applied over a new pad, a parent outside
/// `ids` being dropped; the title read from the content wins.
pub open spec fn entry_pad(
    entry: PadEntry,
    files: Seq<(Seq<char>, Seq<u8>)>,
    ids: Seq<u128>,
    fresh: u128,
    now: i64,
) -> Result<(PadV, Seq<PatchWarningV>), EntryErrorV> {
    match entry_bytes(files, entry.file@) {
        None => Err(EntryErrorV::MissingFile(entry.file@)),
        Some(bytes) => if !vstd::utf8::valid_utf8(bytes) {
            Err(EntryErrorV::InvalidEncoding(spec_utf8_error(bytes)))
        } else {
            match spec_title_and_body(vstd::utf8::decode_utf8(bytes)) {
                None => Err(EntryErrorV::EmptyContent),
                Some((t, b)) => Ok(landed_pad(entry, t, b, ids, fresh, now)),
            }
        },
    }
}

/// The pad that the title and body of an entry make, with the metadata
/// warnings: the metadata is applied over a new pad, a parent outside `ids`
/// being dropped, and a non-empty title read from the content wins.
pub open spec fn landed_pad(
    entry: PadEntry,
    t: Seq<char>,
    b: Seq<char>,
    ids: Seq<u128>,
    fresh: u128,
    now: i64,
) -> (PadV, Seq<PatchWarningV>) {
    let p0 = new_pad_value(fresh, now, t, b);
    let (m, w) = patched(p0.metadata, entry.metadata, ParentPolicyV::OrphanUnknown(ids));
    let m2 = if t.len() > 0 {
        MetadataV { title: t, ..m }
    } else {
        m
    };
    (PadV { metadata: m2, ..p0 }, w)
}

pub open spec fn lands_as(
    entry: PadEntry,
    t: Seq<char>,
    b: Seq<char>,
    ids: Seq<u128>,
    fresh: u128,
    now: i64,
    p: PadV,
    w: Seq<WarningV>,
) -> bool {
    &&& p == landed_pad(entry, t, b, ids, fresh, now).0
    &&& w == landed_pad(entry, t, b, ids, fresh, now).1.map_values(
        |x: PatchWarningV| warning_fact_of(x, entry.file@),
    )
}

pub open spec fn entry_landed(
    s0: Seq<StoredV>,
    s1: Seq<StoredV>,
    scope: Scope,
    entry: PadEntry,
    files: Seq<(Seq<char>, Seq<u8>)>,
    ids: Seq<u128>,
    fresh: u128,
    now: i64,
    r: Result<(u128, Vec<MetadataApplicationWarning>), ArchiveEntryError>,
) -> bool {
    match entry_pad(entry, files, ids, fresh, now) {
        Err(e) => r matches Err(x) && x.spec_reason() == entry_error_fact(e).0 && x.spec_message() == entry_error_fact(e).1
            && s1 == s0,
        Ok((p, w)) => r matches Ok((id, ws)) && id == p.metadata.id && application_warnings_view(ws@) == w.map_values(
            |x: PatchWarningV| warning_fact_of(x, entry.file@),
        ) && s1 == spec_save(s0, p, scope, bucket_of_label(entry.bucket@)),
    }
}

fn entry_file_bytes<'a>(files: &'a Vec<(String, Vec<u8>)>, file: &String) -> (r: Option<&'a Vec<u8>>)
    ensures
        match entry_bytes(files_view(files@), file@) {
            Some(b) => r matches Some(x) && x@ == b,
            None => r is None,
        },
{
    let mut p = lit("padz/");
    append_chars(&mut p, &chars_of(file.as_str()));
    let prefixed = string_from_chars(&p);
    match find_file(files, prefixed.as_str()) {
        Some(b) => Some(b),
        None => find_file(files, file.as_str()),
    }
}

/// The title and body an entry's file holds, or why it has none.
pub open spec fn entry_text(entry: PadEntry, files: Seq<(Seq<char>, Seq<u8>)>) -> Result<(Seq<char>, Seq<char>), EntryErrorV> {
    match entry_bytes(files, entry.file@) {
        None => Err(EntryErrorV::MissingFile(entry.file@)),
        Some(bytes) => if !vstd::utf8::valid_utf8(bytes) {
            Err(EntryErrorV::InvalidEncoding(spec_utf8_error(bytes)))
        } else {
            match spec_title_and_body(vstd::utf8::decode_utf8(bytes)) {
                None => Err(EntryErrorV::EmptyContent),
                Some(tb) => Ok(tb),
            }
        },
    }
}

fn read_entry_text(entry: &PadEntry, files: &Vec<(String, Vec<u8>)>) -> (r: Result<(String, String), ArchiveEntryError>)
    ensures
        match entry_text(*entry, files_view(files@)) {
            Err(e) => r matches Err(x) && x.spec_reason() == entry_error_fact(e).0 && x.spec_message()
                == entry_error_fact(e).1,
            Ok((t, b)) => r matches Ok((x, y)) && x@ == t && y@ == b,
        },
{
    let bytes = match entry_file_bytes(files, &entry.file) {
        Some(b) => b,
        None => {
            return Err(ArchiveEntryError::MissingFile(entry.file.clone()));
        },
    };
    let raw = match utf8_text(bytes) {
        Ok(s) => s,
        Err(e) => {
            return Err(ArchiveEntryError::InvalidEncoding(e));
        },
    };
    match extract_title_and_body(raw.as_str()) {
        Some(tb) => Ok(tb),
        None => Err(ArchiveEntryError::EmptyContent),
    }
}

proof fn lemma_entry_pad_text(entry: PadEntry, files: Seq<(Seq<char>, Seq<u8>)>, ids: Seq<u128>, fresh: u128, now: i64)
    ensures
        match entry_text(entry, files) {
            Err(e) => entry_pad(entry, files, ids, fresh, now) == Err::<(PadV, Seq<PatchWarningV>), EntryErrorV>(e),
            Ok((t, b)) => entry_pad(entry, files, ids, fresh, now) == Ok::<(PadV, Seq<PatchWarningV>), EntryErrorV>(
                landed_pad(entry, t, b, ids, fresh, now),
            ),
        },
{
}

/// The pad an entry's title and body make, with its metadata applied.
fn build_entry_pad(title: String, body: String, entry: &PadEntry, archive_ids: &Vec<u128>) -> (r: (
    Pad,
    Vec<MetadataApplicationWarning>,
))
    ensures
        exists|fresh: u128, now: i64|
            #[trigger] lands_as(*entry, title@, body@, archive_ids@, fresh, now, r.0@, application_warnings_view(r.1@)),
{
    let ghost t = title@;
    let ghost b = body@;
    let title_copy = title.clone();
    let mut pad = Pad::new(title, body);
    let ghost fresh = pad@.metadata.id;
    let ghost now = pad@.metadata.created_at;
    let ghost p0 = pad@;
    let ids = archive_ids.clone();
    proof {
        assert(ids@ =~= archive_ids@);
    }
    let policy = ParentPolicy::OrphanUnknown(ids);
    let warnings = apply_metadata_defensively(&mut pad, &entry.metadata, &policy, entry.file.as_str());
    let ghost pr = patched(p0.metadata, entry.metadata, ParentPolicyV::OrphanUnknown(archive_ids@));
    assert(pad@ == (PadV { metadata: pr.0, ..p0 }));
    if chars_of(title_copy.as_str()).len() > 0 {
        pad.metadata.title = title_copy;
    }
    proof {
        assert(pad@ == landed_pad(*entry, t, b, archive_ids@, fresh, now).0);
    }
    let r = (pad, warnings);
    assert(lands_as(*entry, t, b, archive_ids@, fresh, now, r.0@, application_warnings_view(r.1@)));
    r
}

/// Imports one archive entry (see [`entry_pad`]).
fn import_pad_entry(
    store: &mut Store,
    scope: Scope,
    entry: &PadEntry,
    files: &Vec<(String, Vec<u8>)>,
    archive_ids: &Vec<u128>,
) -> (r: Result<(u128, Vec<MetadataApplicationWarning>), ArchiveEntryError>)
    ensures
        exists|fresh: u128, now: i64|
            #[trigger] entry_landed(old(store)@, final(store)@, scope, *entry, files_view(files@), archive_ids@, fresh, now, r),
{
    let ghost s0 = store@;
    let ghost fv = files_view(files@);
    let (title, body) = match read_entry_text(entry, files) {
        Ok(tb) => tb,
        Err(e) => {
            let r = Err(e);
            proof {
                lemma_entry_pad_text(*entry, fv, archive_ids@, 0, 0);
            }
            assert(entry_landed(s0, store@, scope, *entry, fv, archive_ids@, 0, 0, r));
            return r;
        },
    };
    let ghost tb = (title@, body@);
    let (pad, warnings) = build_entry_pad(title, body, entry, archive_ids);
    let ghost (fresh, now) = choose|fresh: u128, now: i64|
        #[trigger] lands_as(*entry, tb.0, tb.1, archive_ids@, fresh, now, pad@, application_warnings_view(warnings@));
    proof {
        lemma_entry_pad_text(*entry, fv, archive_ids@, fresh, now);
    }
    let bucket = parse_bucket_or_active(entry.bucket.as_str());
    match store.save_pad(&pad, scope, bucket) {
        Ok(()) => {},
        Err(e) => {
            return Err(ArchiveEntryError::StoreFailure(e.message()));
        },
    }
    let r = Ok((pad.metadata.id, warnings));
    assert(entry_landed(s0, store@, scope, *entry, fv, archive_ids@, fresh, now, r));
    r
}

// ---------------------------------------------------------------------------
// Whole archives
// ---------------------------------------------------------------------------

/// The id an entry's metadata names: its `id` member, when that is text
/// that parses as a UUID.
pub open spec fn entry_id(entry: PadEntry) -> Option<u128> {
    match entry.metadata {
        JsonValue::Object(o) => match member(o@, "id"@) {
            Some(JsonValue::String(t)) => spec_uuid_parse(t@),
            _ => None,
        },
        _ => None,
    }
}

/// The ids the entries name, in order.
pub open spec fn entry_ids(es: Seq<PadEntry>) -> Seq<u128>
    decreases es.len(),
{
    if es.len() == 0 {
        Seq::empty()
    } else {
        match entry_id(es.last()) {
            Some(id) => entry_ids(es.drop_last()).push(id),
            None => entry_ids(es.drop_last()),
        }
    }
}

/// The id an entry's metadata names (see [`entry_id`]).
pub fn pad_id_from_entry(entry: &PadEntry) -> (r: Option<u128>)
    ensures
        r == entry_id(*entry),
{
    match &entry.metadata {
        JsonValue::Object(o) => match get_member(o, "id") {
            Some(JsonValue::String(t)) => parse_uuid(t.as_str()),
            _ => None,
        },
        _ => None,
    }
}

fn collect_entry_ids(pads: &Vec<PadEntry>) -> (r: Vec<u128>)
    ensures
        r@ == entry_ids(pads@),
{
    let mut out: Vec<u128> = Vec::new();
    let mut i: usize = 0;
    while i < pads.len()
        invariant
            i <= pads.len(),
            out@ == entry_ids(pads@.take(i as int)),
        decreases pads.len() - i,
    {
        proof {
            assert(pads@.take(i + 1).drop_last() =~= pads@.take(i as int));
            assert(pads@.take(i + 1).last() == pads@[i as int]);
        }
        match pad_id_from_entry(&pads[i]) {
            Some(id) => out.push(id),
            None => {},
        }
        i += 1;
    }
    proof {
        assert(pads@.take(pads.len() as int) =~= pads@);
    }
    out
}

/// What one entry leaves behind: the store, the pads imported, and the
/// diagnostics. A landed entry with warnings is summarized, then each
/// warning follows; a failed one is skipped with its reason.
pub open spec fn entry_outcome(
    s: Seq<StoredV>,
    scope: Scope,
    entry: PadEntry,
    files: Seq<(Seq<char>, Seq<u8>)>,
    ids: Seq<u128>,
    fresh: u128,
    now: i64,
) -> (Seq<StoredV>, nat, Seq<DiagnosticV>) {
    match entry_pad(entry, files, ids, fresh, now) {
        Err(e) => (
            s,
            0,
            seq![
                DiagnosticV::ArchiveEntrySkipped {
                    entry: entry.file@,
                    reason: entry_error_fact(e).0,
                    detail: entry_error_fact(e).1,
                },
            ],
        ),
        Ok((p, w)) => (
            spec_save(s, p, scope, bucket_of_label(entry.bucket@)),
            1,
            if w.len() == 0 {
                Seq::empty()
            } else {
                seq![DiagnosticV::ArchiveMetadataSummary { pad_id: p.metadata.id, warning_count: w.len() as usize }]
                    + warning_diags(w.map_values(|x: PatchWarningV| warning_fact_of(x, entry.file@)))
            },
        ),
    }
}

/// What the entries leave behind when imported in order, the `k`-th new pad
/// getting the id and time `choices[k]`.
pub open spec fn entries_outcome(
    s0: Seq<StoredV>,
    scope: Scope,
    es: Seq<PadEntry>,
    files: Seq<(Seq<char>, Seq<u8>)>,
    ids: Seq<u128>,
    choices: Seq<(u128, i64)>,
) -> (Seq<StoredV>, nat, Seq<DiagnosticV>)
    decreases es.len(),
{
    if es.len() == 0 || choices.len() != es.len() {
        (s0, 0, Seq::empty())
    } else {
        let (s, n, d) = entries_outcome(s0, scope, es.drop_last(), files, ids, choices.drop_last());
        let (s2, m, d2) = entry_outcome(s, scope, es.last(), files, ids, choices.last().0, choices.last().1);
        (s2, n + m, d + d2)
    }
}

/// Each entry imports at most one pad.
pub proof fn lemma_entries_outcome_bound(
    s0: Seq<StoredV>,
    scope: Scope,
    es: Seq<PadEntry>,
    files: Seq<(Seq<char>, Seq<u8>)>,
    ids: Seq<u128>,
    choices: Seq<(u128, i64)>,
)
    ensures
        entries_outcome(s0, scope, es, files, ids, choices).1 <= es.len(),
    decreases es.len(),
{
    if es.len() > 0 && choices.len() == es.len() {
        lemma_entries_outcome_bound(s0, scope, es.drop_last(), files, ids, choices.drop_last());
    }
}

/// An entry that cannot land is reported as skipped, with its file, reason
/// and explanation, while the entries around it are still imported.
pub proof fn lemma_failed_entry_reported(
    s0: Seq<StoredV>,
    scope: Scope,
    es: Seq<PadEntry>,
    files: Seq<(Seq<char>, Seq<u8>)>,
    ids: Seq<u128>,
    choices: Seq<(u128, i64)>,
    k: int,
)
    requires
        choices.len() == es.len(),
        0 <= k < es.len(),
        entry_pad(es[k], files, ids, choices[k].0, choices[k].1) is Err,
    ensures
        ({
            let e = entry_pad(es[k], files, ids, choices[k].0, choices[k].1)->Err_0;
            let d = entries_outcome(s0, scope, es, files, ids, choices).2;
            exists|j: int|
                0 <= j < d.len() && #[trigger] d[j] == DiagnosticV::ArchiveEntrySkipped {
                    entry: es[k].file@,
                    reason: entry_error_fact(e).0,
                    detail: entry_error_fact(e).1,
                }
        }),
    decreases es.len(),
{
    let e = entry_pad(es[k], files, ids, choices[k].0, choices[k].1)->Err_0;
    let want = DiagnosticV::ArchiveEntrySkipped {
        entry: es[k].file@,
        reason: entry_error_fact(e).0,
        detail: entry_error_fact(e).1,
    };
    let (s, n, d) = entries_outcome(s0, scope, es.drop_last(), files, ids, choices.drop_last());
    let (s2, m, d2) = entry_outcome(s, scope, es.last(), files, ids, choices.last().0, choices.last().1);
    let all = entries_outcome(s0, scope, es, files, ids, choices).2;
    assert(all == d + d2);
    if k == es.len() - 1 {
        assert(d2[0] == want);
        assert(all[d.len() as int] == want);
    } else {
        lemma_failed_entry_reported(s0, scope, es.drop_last(), files, ids, choices.drop_last(), k);
        assert(es.drop_last()[k] == es[k]);
        assert(choices.drop_last()[k] == choices[k]);
        let j = choose|j: int| 0 <= j < d.len() && #[trigger] d[j] == want;
        assert(all[j] == want);
    }
}

/// The registry after merging archive tags: the tags already there stay, in
/// order; each archive tag whose name was not registered before is added.
/// Also gives how many were added.
pub open spec fn merged_tags(existing: Seq<TagEntryV>, incoming: Seq<TagRegistryEntry>) -> (Seq<TagEntryV>, nat)
    decreases incoming.len(),
{
    if incoming.len() == 0 {
        (existing, 0)
    } else {
        let (m, n) = merged_tags(existing, incoming.drop_last());
        let t = incoming.last();
        if exists|i: int| 0 <= i < existing.len() && #[trigger] existing[i].name == t.name@ {
            (m, n)
        } else {
            (m.push(TagEntryV { name: t.name@, created_at: t.created_at }), n + 1)
        }
    }
}

/// The diagnostic of a tag merge: the number added when some were, a merge
/// of none when the archive carried only known tags, nothing when it
/// carried none.
pub open spec fn merge_diags(added: nat, carried: nat) -> Seq<DiagnosticV> {
    if added > 0 {
        seq![DiagnosticV::TagRegistryMerge { status: TagRegistryMergeStatus::Merged, added: added as usize, detail: None }]
    } else if carried > 0 {
        seq![DiagnosticV::TagRegistryMerge { status: TagRegistryMergeStatus::Merged, added: 0, detail: None }]
    } else {
        Seq::empty()
    }
}

/// What importing one archive gave.
#[derive(Debug)]
pub struct ArchiveImportResult {
    pub imported: usize,
    pub diagnostics: Vec<ImportDiagnostic>,
}

pub open spec fn entry_reported(
    s0: Seq<StoredV>,
    s1: Seq<StoredV>,
    scope: Scope,
    entry: PadEntry,
    files: Seq<(Seq<char>, Seq<u8>)>,
    ids: Seq<u128>,
    fresh: u128,
    now: i64,
    n: nat,
    added: Seq<DiagnosticV>,
) -> bool {
    entry_outcome(s0, scope, entry, files, ids, fresh, now) == (s1, n, added)
}

/// Imports one entry and appends its diagnostics (see [`entry_outcome`]);
/// returns the number of pads imported.
fn import_entry_reported(
    store: &mut Store,
    scope: Scope,
    entry: &PadEntry,
    files: &Vec<(String, Vec<u8>)>,
    archive_ids: &Vec<u128>,
    diagnostics: &mut Vec<ImportDiagnostic>,
) -> (n: usize)
    ensures
        n <= 1,
        final(diagnostics)@.len() >= old(diagnostics)@.len(),
        exists|fresh: u128, now: i64|
            #[trigger] entry_reported(
                old(store)@,
                final(store)@,
                scope,
                *entry,
                files_view(files@),
                archive_ids@,
                fresh,
                now,
                n as nat,
                diags_view(final(diagnostics)@).skip(old(diagnostics)@.len() as int),
            ),
        diags_view(final(diagnostics)@).take(old(diagnostics)@.len() as int) == diags_view(old(diagnostics)@),
{
    let ghost s0 = store@;
    let ghost d0 = diagnostics@;
    let ghost fv = files_view(files@);
    let r = import_pad_entry(store, scope, entry, files, archive_ids);
    let ghost (fresh, now) = choose|fresh: u128, now: i64|
        #[trigger] entry_landed(s0, store@, scope, *entry, fv, archive_ids@, fresh, now, r);
    match r {
        Ok((id, warnings)) => {
            if warnings.len() > 0 {
                diagnostics.push(ImportDiagnostic::ArchiveMetadataSummary { pad_id: id, warning_count: warnings.len() });
                let ghost d1 = diagnostics@;
                let ghost wv = warnings_view(warnings@);
                append_warning_diagnostics(diagnostics, warnings);
                proof {
                    assert(wv =~= application_warnings_view(warnings@));
                    assert(diags_view(diagnostics@).skip(d0.len() as int) =~= seq![
                        DiagnosticV::ArchiveMetadataSummary { pad_id: id, warning_count: wv.len() as usize },
                    ] + warning_diags(wv));
                    assert(diags_view(diagnostics@).take(d0.len() as int) =~= diags_view(d0));
                }
            } else {
                proof {
                    assert(diags_view(diagnostics@).skip(d0.len() as int) =~= Seq::<DiagnosticV>::empty());
                    assert(diags_view(diagnostics@).take(d0.len() as int) =~= diags_view(d0));
                }
            }
            assert(entry_reported(
                s0,
                store@,
                scope,
                *entry,
                fv,
                archive_ids@,
                fresh,
                now,
                1,
                diags_view(diagnostics@).skip(d0.len() as int),
            ));
            1
        },
        Err(e) => {
            let reason = e.reason();
            let detail = e.message();
            diagnostics.push(ImportDiagnostic::ArchiveEntrySkipped { entry: entry.file.clone(), reason, detail });
            proof {
                assert(diags_view(diagnostics@).skip(d0.len() as int) =~= seq![
                    DiagnosticV::ArchiveEntrySkipped { entry: entry.file@, reason, detail: detail@ },
                ]);
                assert(diags_view(diagnostics@).take(d0.len() as int) =~= diags_view(d0));
            }
            assert(entry_reported(
                s0,
                store@,
                scope,
                *entry,
                fv,
                archive_ids@,
                fresh,
                now,
                0,
                diags_view(diagnostics@).skip(d0.len() as int),
            ));
            0
        },
    }
}

pub open spec fn entries_reported(
    s0: Seq<StoredV>,
    s1: Seq<StoredV>,
    scope: Scope,
    es: Seq<PadEntry>,
    files: Seq<(Seq<char>, Seq<u8>)>,
    ids: Seq<u128>,
    choices: Seq<(u128, i64)>,
    n: nat,
    diags: Seq<DiagnosticV>,
) -> bool {
    &&& choices.len() == es.len()
    &&& entries_outcome(s0, scope, es, files, ids, choices) == (s1, n, diags)
}

/// Imports the entries in order, each independently of the others (see
/// [`entries_outcome`]).
fn import_entries(
    store: &mut Store,
    scope: Scope,
    pads: &Vec<PadEntry>,
    files: &Vec<(String, Vec<u8>)>,
    archive_ids: &Vec<u128>,
) -> (r: (usize, Vec<ImportDiagnostic>))
    ensures
        exists|choices: Seq<(u128, i64)>|
            #[trigger] entries_reported(
                old(store)@,
                final(store)@,
                scope,
                pads@,
                files_view(files@),
                archive_ids@,
                choices,
                r.0 as nat,
                diags_view(r.1@),
            ),
{
    let ghost s0 = store@;
    let ghost fv = files_view(files@);
    let ghost mut choices: Seq<(u128, i64)> = Seq::empty();
    let mut imported: usize = 0;
    let mut diagnostics: Vec<ImportDiagnostic> = Vec::new();
    let mut i: usize = 0;
    proof {
        assert(pads@.take(0) =~= Seq::<PadEntry>::empty());
        assert(diags_view(diagnostics@) =~= Seq::<DiagnosticV>::empty());
    }
    while i < pads.len()
        invariant
            i <= pads.len(),
            imported <= i,
            fv == files_view(files@),
            entries_reported(s0, store@, scope, pads@.take(i as int), fv, archive_ids@, choices, imported as nat, diags_view(diagnostics@)),
        decreases pads.len() - i,
    {
        let ghost s_before = store@;
        let ghost d_before = diagnostics@;
        let n = import_entry_reported(store, scope, &pads[i], files, archive_ids, &mut diagnostics);
        let ghost (fresh, now) = choose|fresh: u128, now: i64|
            #[trigger] entry_reported(
                s_before,
                store@,
                scope,
                pads@[i as int],
                fv,
                archive_ids@,
                fresh,
                now,
                n as nat,
                diags_view(diagnostics@).skip(d_before.len() as int),
            );
        proof {
            let ghost prev = choices;
            choices = choices.push((fresh, now));
            assert(pads@.take(i + 1).drop_last() =~= pads@.take(i as int));
            assert(pads@.take(i + 1).last() == pads@[i as int]);
            assert(choices.drop_last() =~= prev);
            assert(diags_view(diagnostics@) =~= diags_view(diagnostics@).take(d_before.len() as int) + diags_view(
                diagnostics@,
            ).skip(d_before.len() as int));
        }
        imported = imported + n;
        i += 1;
    }
    proof {
        assert(pads@.take(pads.len() as int) =~= pads@);
    }
    let r = (imported, diagnostics);
    assert(entries_reported(s0, store@, scope, pads@, fv, archive_ids@, choices, r.0 as nat, diags_view(r.1@)));
    r
}

fn tag_known(existing: &Vec<TagEntry>, name: &String) -> (r: bool)
    ensures
        r == exists|i: int| 0 <= i < existing@.len() && #[trigger] tags_view(existing@)[i].name == name@,
{
    let mut i: usize = 0;
    while i < existing.len()
        invariant
            i <= existing.len(),
            forall|j: int| 0 <= j < i ==> #[trigger] tags_view(existing@)[j].name != name@,
        decreases existing.len() - i,
    {
        if str_eq(existing[i].name.as_str(), name.as_str()) {
            assert(tags_view(existing@)[i as int].name == name@);
            return true;
        }
        i += 1;
    }
    false
}

/// Merges an archive's tags into the registry of `scope` (see
/// [`merged_tags`]) and returns how many were added; the registry is written
/// only when some were.
fn merge_archive_tags(registry: &mut TagRegistry, scope: Scope, tags: &Vec<TagRegistryEntry>) -> (added: usize)
    ensures
        final(registry).tags_of(scope) == merged_tags(old(registry).tags_of(scope), tags@).0,
        added == merged_tags(old(registry).tags_of(scope), tags@).1,
        forall|other: Scope| other != scope ==> final(registry).tags_of(other) == old(registry).tags_of(other),
{
    let ghost ex = registry.tags_of(scope);
    let existing = match registry.load_tags(scope) {
        Ok(v) => v,
        Err(_) => return 0,
    };
    let mut new_tags = match registry.load_tags(scope) {
        Ok(v) => v,
        Err(_) => return 0,
    };
    let mut added: usize = 0;
    let mut i: usize = 0;
    proof {
        assert(tags@.take(0) =~= Seq::<TagRegistryEntry>::empty());
    }
    while i < tags.len()
        invariant
            i <= tags.len(),
            added <= i,
            tags_view(existing@) == ex,
            added == 0 ==> tags_view(new_tags@) == ex,
            (tags_view(new_tags@), added as nat) == merged_tags(ex, tags@.take(i as int)),
        decreases tags.len() - i,
    {
        proof {
            assert(tags@.take(i + 1).drop_last() =~= tags@.take(i as int));
            assert(tags@.take(i + 1).last() == tags@[i as int]);
        }
        if !tag_known(&existing, &tags[i].name) {
            let ghost before = new_tags@;
            new_tags.push(TagEntry { name: tags[i].name.clone(), created_at: tags[i].created_at });
            proof {
                assert(tags_view(new_tags@) =~= tags_view(before).push(
                    TagEntryV { name: tags@[i as int].name@, created_at: tags@[i as int].created_at },
                ));
            }
            added = added + 1;
        }
        i += 1;
    }
    proof {
        assert(tags@.take(tags.len() as int) =~= tags@);
    }
    if added > 0 {
        let _ = registry.save_tags(scope, new_tags);
    }
    added
}

/// What importing an archive does: the entries land in order (see
/// [`entries_reported`]), giving the pads imported and the first
/// diagnostics; then the archive's tags are merged into the registry of
/// `scope` (see [`merged_tags`]), reported last (see [`merge_diags`]); the
/// other scope's registry stays.
pub open spec fn archive_imported(
    s0: Seq<StoredV>,
    s1: Seq<StoredV>,
    t0: TagRegistry,
    t1: TagRegistry,
    scope: Scope,
    archive: Archive,
    files: Seq<(Seq<char>, Seq<u8>)>,
    imported: nat,
    diags: Seq<DiagnosticV>,
) -> bool {
    let (merged, added) = merged_tags(t0.tags_of(scope), archive.tags@);
    let md = merge_diags(added, archive.tags@.len());
    &&& diags.len() >= md.len()
    &&& diags.skip(diags.len() - md.len()) == md
    &&& exists|choices: Seq<(u128, i64)>|
        #[trigger] entries_reported(
            s0,
            s1,
            scope,
            archive.pads@,
            files,
            entry_ids(archive.pads@),
            choices,
            imported,
            diags.take(diags.len() - md.len()),
        )
    &&& t1.tags_of(scope) == merged
    &&& forall|other: Scope| other != scope ==> #[trigger] t1.tags_of(other) == t0.tags_of(other)
}

/// The number of skipped-entry diagnostics.
pub open spec fn skipped_entries(d: Seq<DiagnosticV>) -> nat
    decreases d.len(),
{
    if d.len() == 0 {
        0
    } else {
        skipped_entries(d.drop_last()) + if d.last() is ArchiveEntrySkipped {
            1nat
        } else {
            0nat
        }
    }
}

proof fn lemma_skipped_concat(a: Seq<DiagnosticV>, b: Seq<DiagnosticV>)
    ensures
        skipped_entries(a + b) == skipped_entries(a) + skipped_entries(b),
    decreases b.len(),
{
    if b.len() == 0 {
        assert(a + b =~= a);
    } else {
        lemma_skipped_concat(a, b.drop_last());
        assert((a + b).drop_last() =~= a + b.drop_last());
        assert((a + b).last() == b.last());
    }
}

proof fn lemma_no_skips(d: Seq<DiagnosticV>)
    requires
        forall|i: int| 0 <= i < d.len() ==> !(#[trigger] d[i] is ArchiveEntrySkipped),
    ensures
        skipped_entries(d) == 0,
    decreases d.len(),
{
    if d.len() > 0 {
        assert(!(d[d.len() - 1] is ArchiveEntrySkipped));
        lemma_no_skips(d.drop_last());
    }
}

/// Every archive entry is counted once: as an imported pad or as a skipped
/// entry.
pub proof fn lemma_entries_counted(
    s0: Seq<StoredV>,
    scope: Scope,
    es: Seq<PadEntry>,
    files: Seq<(Seq<char>, Seq<u8>)>,
    ids: Seq<u128>,
    choices: Seq<(u128, i64)>,
)
    requires
        choices.len() == es.len(),
    ensures
        entries_outcome(s0, scope, es, files, ids, choices).1 + skipped_entries(
            entries_outcome(s0, scope, es, files, ids, choices).2,
        ) == es.len(),
    decreases es.len(),
{
    if es.len() > 0 {
        lemma_entries_counted(s0, scope, es.drop_last(), files, ids, choices.drop_last());
        let (st, n, d) = entries_outcome(s0, scope, es.drop_last(), files, ids, choices.drop_last());
        let (s2, m, d2) = entry_outcome(st, scope, es.last(), files, ids, choices.last().0, choices.last().1);
        lemma_skipped_concat(d, d2);
        assert(entries_outcome(s0, scope, es, files, ids, choices) == (s2, n + m, d + d2));
        match entry_pad(es.last(), files, ids, choices.last().0, choices.last().1) {
            Err(_) => {
                assert(d2.drop_last() =~= Seq::<DiagnosticV>::empty());
                assert(skipped_entries(d2.drop_last()) == 0);
                assert(d2.last() is ArchiveEntrySkipped);
                assert(skipped_entries(d2) == 1);
                assert(m == 0);
            },
            Ok((p, w)) => {
                assert forall|i: int| 0 <= i < d2.len() implies !(#[trigger] d2[i] is ArchiveEntrySkipped) by {
                    if w.len() > 0 && i > 0 {
                        let ws = w.map_values(|x: PatchWarningV| warning_fact_of(x, es.last().file@));
                        assert(d2[i] == warning_diags(ws)[i - 1]);
                    }
                }
                lemma_no_skips(d2);
                assert(m == 1);
            },
        }
    }
}

/// Archive import counting: the pads imported plus the entries reported as
/// skipped make up all the entries of the descriptor.
pub proof fn lemma_archive_counted(
    s0: Seq<StoredV>,
    s1: Seq<StoredV>,
    t0: TagRegistry,
    t1: TagRegistry,
    scope: Scope,
    archive: Archive,
    files: Seq<(Seq<char>, Seq<u8>)>,
    imported: nat,
    diags: Seq<DiagnosticV>,
)
    requires
        archive_imported(s0, s1, t0, t1, scope, archive, files, imported, diags),
    ensures
        imported + skipped_entries(diags) == archive.pads@.len(),
{
    let (merged, added) = merged_tags(t0.tags_of(scope), archive.tags@);
    let md = merge_diags(added, archive.tags@.len());
    let k = diags.len() - md.len();
    let choices = choose|choices: Seq<(u128, i64)>|
        #[trigger] entries_reported(s0, s1, scope, archive.pads@, files, entry_ids(archive.pads@), choices, imported, diags.take(k));
    lemma_entries_counted(s0, scope, archive.pads@, files, entry_ids(archive.pads@), choices);
    assert(diags =~= diags.take(k) + diags.skip(k));
    lemma_skipped_concat(diags.take(k), diags.skip(k));
    assert forall|i: int| 0 <= i < md.len() implies !(#[trigger] md[i] is ArchiveEntrySkipped) by {}
    lemma_no_skips(md);
}

/// Imports an archive whose descriptor and files have been read: every pad
/// entry in order, each independently of the others, a parent being kept
/// only when some entry of the archive names it; then the archive's tags
/// join the registry (see [`archive_imported`]).
pub fn import_json_archive(
    store: &mut Store,
    registry: &mut TagRegistry,
    scope: Scope,
    archive: &Archive,
    files: &Vec<(String, Vec<u8>)>,
) -> (r: ArchiveImportResult)
    ensures
        archive_imported(
            old(store)@,
            final(store)@,
            *old(registry),
            *final(registry),
            scope,
            *archive,
            files_view(files@),
            r.imported as nat,
            diags_view(r.diagnostics@),
        ),
{
    let ghost s0 = store@;
    let ghost fv = files_view(files@);
    let archive_ids = collect_entry_ids(&archive.pads);
    let (imported, mut diagnostics) = import_entries(store, scope, &archive.pads, files, &archive_ids);
    let ghost d0 = diags_view(diagnostics@);
    let ghost choices = choose|c: Seq<(u128, i64)>|
        #[trigger] entries_reported(s0, store@, scope, archive.pads@, fv, archive_ids@, c, imported as nat, d0);
    let added = merge_archive_tags(registry, scope, &archive.tags);
    if added > 0 {
        diagnostics.push(ImportDiagnostic::TagRegistryMerge {
            status: TagRegistryMergeStatus::Merged,
            added,
            detail: None,
        });
    } else if archive.tags.len() > 0 {
        diagnostics.push(ImportDiagnostic::TagRegistryMerge {
            status: TagRegistryMergeStatus::Merged,
            added: 0,
            detail: None,
        });
    }
    proof {
        let md = merge_diags(added as nat, archive.tags@.len());
        assert(diags_view(diagnostics@) =~= d0 + md);
        assert((d0 + md).take((d0 + md).len() - md.len()) =~= d0);
        assert((d0 + md).skip((d0 + md).len() - md.len()) =~= md);
        assert(entries_reported(
            s0,
            store@,
            scope,
            archive.pads@,
            fv,
            entry_ids(archive.pads@),
            choices,
            imported as nat,
            diags_view(diagnostics@).take(diags_view(diagnostics@).len() - md.len()),
        ));
    }
    let r = ArchiveImportResult { imported, diagnostics };
    assert(entries_reported(
        s0,
        store@,
        scope,
        archive.pads@,
        fv,
        entry_ids(archive.pads@),
        choices,
        r.imported as nat,
        diags_view(r.diagnostics@).take(
            diags_view(r.diagnostics@).len() - merge_diags(
                merged_tags(old(registry).tags_of(scope), archive.tags@).1,
                archive.tags@.len(),
            ).len(),
        ),
    ));
    r
}

/// What reading an archive source gave.
#[derive(Debug)]
pub enum ArchiveRead {
    /// The archive file could not be read.
    Unread(IoFailure),
    /// The archive could not be unpacked, or its `db.json` is not a valid
    /// descriptor; with the explanation.
    Broken(String),
    /// The descriptor and every file of the archive.
    Read { archive: Archive, files: Vec<(String, Vec<u8>)> },
}

/// The report of an archive source, apart from what importing it gave: a
/// source that could not be read fails as [`failed_source`] says; a broken
/// archive is invalid; an imported one reports the pads it imported and its
/// diagnostics, and no plain files.
pub open spec fn archive_report(
    path: Seq<char>,
    read: ArchiveRead,
    imported: nat,
    diags: Seq<DiagnosticV>,
) -> SourceReportV {
    match read {
        ArchiveRead::Unread(f) => failed_source(path, ImportSourceKind::JsonArchive, f),
        ArchiveRead::Broken(m) => SourceReportV {
            source: path,
            source_kind: ImportSourceKind::JsonArchive,
            status: ImportSourceStatus::Invalid,
            imported: 0,
            processed_files: Seq::empty(),
            detail: Some(m@),
            diagnostics: Seq::empty(),
        },
        ArchiveRead::Read { .. } => SourceReportV {
            source: path,
            source_kind: ImportSourceKind::JsonArchive,
            status: if imported > 0 {
                ImportSourceStatus::Imported
            } else {
                ImportSourceStatus::Skipped
            },
            imported: imported as usize,
            processed_files: Seq::empty(),
            detail: None,
            diagnostics: diags,
        },
    }
}

/// Imports an archive source into one report (see [`archive_report`]);
/// only a read archive changes the store and the registry, as
/// [`archive_imported`] says.
pub fn import_json_archive_source(
    store: &mut Store,
    registry: &mut TagRegistry,
    scope: Scope,
    path: String,
    read: ArchiveRead,
) -> (r: ImportSourceReport)
    ensures
        r@ == archive_report(path@, read, r@.imported as nat, r@.diagnostics),
        match read {
            ArchiveRead::Read { archive, files } => archive_imported(
                old(store)@,
                final(store)@,
                *old(registry),
                *final(registry),
                scope,
                archive,
                files_view(files@),
                r@.imported as nat,
                r@.diagnostics,
            ),
            _ => final(store)@ == old(store)@ && *final(registry) == *old(registry),
        },
{
    let ghost p = path@;
    let ghost rd = read;
    match read {
        ArchiveRead::Unread(f) => {
            let r = crate::import::failed_source_report(path, ImportSourceKind::JsonArchive, f);
            r
        },
        ArchiveRead::Broken(m) => {
            let r = ImportSourceReport {
                source: path,
                source_kind: ImportSourceKind::JsonArchive,
                status: ImportSourceStatus::Invalid,
                imported: 0,
                processed_files: Vec::new(),
                detail: Some(m),
                diagnostics: Vec::new(),
            };
            proof {
                assert(r@.processed_files =~= Seq::<Seq<char>>::empty());
                assert(r@.diagnostics =~= Seq::<DiagnosticV>::empty());
            }
            r
        },
        ArchiveRead::Read { archive, files } => {
            let res = import_json_archive(store, registry, scope, &archive, &files);
            let status = if res.imported > 0 {
                ImportSourceStatus::Imported
            } else {
                ImportSourceStatus::Skipped
            };
            let r = ImportSourceReport {
                source: path,
                source_kind: ImportSourceKind::JsonArchive,
                status,
                imported: res.imported,
                processed_files: Vec::new(),
                detail: None,
                diagnostics: res.diagnostics,
            };
            proof {
                assert(r@.processed_files =~= Seq::<Seq<char>>::empty());
            }
            r
        },
    }
}

} // verus!
