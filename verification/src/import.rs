//! Importing pads from plain files and directories.
//!
//! Every requested source yields one typed report. A failure that concerns
//! one source or one directory entry stays local to it, so independent
//! inputs still import; the reports say exactly what happened to each.
//!
//! The library does not touch the file system: the caller lists each
//! requested source with what reading it gave (see [`ImportSource`]).
pub mod archive;
pub mod roundtrip;
use vstd::prelude::*;
use crate::commands::create;
use crate::commands::metadata_apply::{
    MetadataApplicationWarning, MetadataWarningCategory, MetadataWarningReason, MetadataWarningSeverity, WarningV, opt_text,
};
use crate::error::PadzError;
use crate::model::{extract_title_and_body, new_pad_value, spec_title_and_body, Bucket, PadV, Scope};
use crate::store::{spec_save, Store, StoredV};
use crate::text::str_eq;
use crate::tags::TagRegistry;
use crate::import::archive::{
    archive_imported, archive_report, entries_reported, entry_ids, files_view, import_json_archive_source,
    lemma_entries_outcome_bound, merge_diags, merged_tags, ArchiveRead,
};

verus! {

// ---------------------------------------------------------------------------
// Report types
// ---------------------------------------------------------------------------

/// How an import went as a whole.
#[derive(Clone, Copy, Debug, PartialEq, Eq, Structural)]
pub enum ImportStatus {
    FullSuccess,
    PartialSuccess,
    NoImports,
}

/// What a requested source turned out to be.
#[derive(Clone, Copy, Debug, PartialEq, Eq, Structural)]
pub enum ImportSourceKind {
    File,
    Directory,
    JsonArchive,
}

/// How a requested source went.
#[derive(Clone, Copy, Debug, PartialEq, Eq, Structural)]
pub enum ImportSourceStatus {
    Imported,
    Skipped,
    Missing,
    Unreadable,
    Invalid,
}

/// Why an archive entry was not imported.
#[derive(Clone, Copy, Debug, PartialEq, Eq, Structural)]
pub enum ArchiveEntrySkipReason {
    MissingFile,
    InvalidEncoding,
    EmptyContent,
    StoreFailure,
}

/// Why a directory entry was not imported.
#[derive(Clone, Copy, Debug, PartialEq, Eq, Structural)]
pub enum DirectoryEntrySkipReason {
    ReadEntry,
    InspectEntry,
    ImportFile,
}

/// Whether a tag registry merge went through.
#[derive(Clone, Copy, Debug, PartialEq, Eq, Structural)]
pub enum TagRegistryMergeStatus {
    Merged,
    Failed,
}

/// A fact noticed while importing one source, in the order it was noticed.
#[derive(Debug, PartialEq, Eq)]
#[allow(inconsistent_fields)]
pub enum ImportDiagnostic {
    InlineMetadataApplied { source_label: String, bucket: Bucket, warning_count: usize },
    ArchiveMetadataSummary { pad_id: u128, warning_count: usize },
    MetadataWarning { warning: MetadataApplicationWarning },
    ArchiveEntrySkipped { entry: String, reason: ArchiveEntrySkipReason, detail: String },
    DirectoryEntrySkipped { entry: Option<String>, reason: DirectoryEntrySkipReason, detail: String },
    TagRegistryMerge {
        status: TagRegistryMergeStatus,
        /// Registry entries the merge stored; zero when it failed.
        added: usize,
        detail: Option<String>,
    },
}

/// The report of one requested source.
#[derive(Debug, PartialEq, Eq)]
pub struct ImportSourceReport {
    pub source: String,
    pub source_kind: ImportSourceKind,
    pub status: ImportSourceStatus,
    pub imported: usize,
    /// Plain files read from this source, also those skipped for empty content.
    pub processed_files: Vec<String>,
    pub detail: Option<String>,
    pub diagnostics: Vec<ImportDiagnostic>,
}

/// The report of a whole import.
#[derive(Debug, PartialEq, Eq)]
pub struct ImportReport {
    pub status: ImportStatus,
    pub total_imported: usize,
    pub sources: Vec<ImportSourceReport>,
}

// ---------------------------------------------------------------------------
// Views
// ---------------------------------------------------------------------------

#[allow(inconsistent_fields)]
pub enum DiagnosticV {
    InlineMetadataApplied { source_label: Seq<char>, bucket: Bucket, warning_count: usize },
    ArchiveMetadataSummary { pad_id: u128, warning_count: usize },
    MetadataWarning { warning: WarningV },
    ArchiveEntrySkipped { entry: Seq<char>, reason: ArchiveEntrySkipReason, detail: Seq<char> },
    DirectoryEntrySkipped { entry: Option<Seq<char>>, reason: DirectoryEntrySkipReason, detail: Seq<char> },
    TagRegistryMerge { status: TagRegistryMergeStatus, added: usize, detail: Option<Seq<char>> },
}

impl View for ImportDiagnostic {
    type V = DiagnosticV;

    open spec fn view(&self) -> DiagnosticV {
        match self {
            ImportDiagnostic::InlineMetadataApplied { source_label, bucket, warning_count } => {
                DiagnosticV::InlineMetadataApplied {
                    source_label: source_label@,
                    bucket: *bucket,
                    warning_count: *warning_count,
                }
            },
            ImportDiagnostic::ArchiveMetadataSummary { pad_id, warning_count } => {
                DiagnosticV::ArchiveMetadataSummary { pad_id: *pad_id, warning_count: *warning_count }
            },
            ImportDiagnostic::MetadataWarning { warning } => DiagnosticV::MetadataWarning { warning: warning@ },
            ImportDiagnostic::ArchiveEntrySkipped { entry, reason, detail } => {
                DiagnosticV::ArchiveEntrySkipped { entry: entry@, reason: *reason, detail: detail@ }
            },
            ImportDiagnostic::DirectoryEntrySkipped { entry, reason, detail } => {
                DiagnosticV::DirectoryEntrySkipped { entry: opt_text(*entry), reason: *reason, detail: detail@ }
            },
            ImportDiagnostic::TagRegistryMerge { status, added, detail } => {
                DiagnosticV::TagRegistryMerge { status: *status, added: *added, detail: opt_text(*detail) }
            },
        }
    }
}

pub open spec fn warnings_view(v: Seq<MetadataApplicationWarning>) -> Seq<WarningV> {
    v.map_values(|w: MetadataApplicationWarning| w@)
}

pub open spec fn diags_view(v: Seq<ImportDiagnostic>) -> Seq<DiagnosticV> {
    v.map_values(|d: ImportDiagnostic| d@)
}

pub struct SourceReportV {
    pub source: Seq<char>,
    pub source_kind: ImportSourceKind,
    pub status: ImportSourceStatus,
    pub imported: usize,
    pub processed_files: Seq<Seq<char>>,
    pub detail: Option<Seq<char>>,
    pub diagnostics: Seq<DiagnosticV>,
}

impl View for ImportSourceReport {
    type V = SourceReportV;

    open spec fn view(&self) -> SourceReportV {
        SourceReportV {
            source: self.source@,
            source_kind: self.source_kind,
            status: self.status,
            imported: self.imported,
            processed_files: self.processed_files@.map_values(|s: String| s@),
            detail: opt_text(self.detail),
            diagnostics: diags_view(self.diagnostics@),
        }
    }
}

pub open spec fn reports_view(v: Seq<ImportSourceReport>) -> Seq<SourceReportV> {
    v.map_values(|r: ImportSourceReport| r@)
}

// ---------------------------------------------------------------------------
// Failures of sources
// ---------------------------------------------------------------------------

/// A failure to read something, as the library sees it: whether the data
/// was invalid (text that is not UTF-8), and the failure's text.
#[derive(Debug)]
pub struct IoFailure {
    pub invalid_data: bool,
    pub detail: String,
}

/// A source that cannot be read is unreadable; one whose data is invalid is
/// invalid.
pub open spec fn failure_status(f: IoFailure) -> ImportSourceStatus {
    if f.invalid_data {
        ImportSourceStatus::Invalid
    } else {
        ImportSourceStatus::Unreadable
    }
}

/// The status of a source that failed this way (see [`failure_status`]).
pub fn source_error_status(error: &IoFailure) -> (r: ImportSourceStatus)
    ensures
        r == failure_status(*error),
{
    if error.invalid_data {
        ImportSourceStatus::Invalid
    } else {
        ImportSourceStatus::Unreadable
    }
}

/// The report of a source that failed before anything was imported.
pub open spec fn failed_source(path: Seq<char>, kind: ImportSourceKind, f: IoFailure) -> SourceReportV {
    SourceReportV {
        source: path,
        source_kind: kind,
        status: failure_status(f),
        imported: 0,
        processed_files: Seq::empty(),
        detail: Some(f.detail@),
        diagnostics: Seq::empty(),
    }
}

pub(crate) fn failed_source_report(path: String, kind: ImportSourceKind, error: IoFailure) -> (r: ImportSourceReport)
    ensures
        r@ == failed_source(path@, kind, error),
{
    let status = source_error_status(&error);
    let r = ImportSourceReport {
        source: path,
        source_kind: kind,
        status,
        imported: 0,
        processed_files: Vec::new(),
        detail: Some(error.detail),
        diagnostics: Vec::new(),
    };
    proof {
        assert(r@.processed_files =~= Seq::<Seq<char>>::empty());
        assert(r@.diagnostics =~= Seq::<DiagnosticV>::empty());
    }
    r
}

/// The report of a directory whose listing failed (see [`failed_source`]).
pub fn directory_failure_report(path: String, error: IoFailure) -> (r: ImportSourceReport)
    ensures
        r@ == failed_source(path@, ImportSourceKind::Directory, error),
{
    failed_source_report(path, ImportSourceKind::Directory, error)
}

#[verifier::external_type_specification]
#[verifier::external_body]
pub struct ExIoError(std::io::Error);

/// Reads a `std::io::Error` as an [`IoFailure`]: whether its kind is
/// `InvalidData`, and its `Display` text. Nothing is stated of either, since
/// the error is opaque here.
#[verifier::external_body]
fn io_failure(error: &std::io::Error) -> IoFailure {
    IoFailure { invalid_data: error.kind() == std::io::ErrorKind::InvalidData, detail: error.to_string() }
}

/// The report of a directory whose listing failed with an I/O error; the
/// error's kind and text decide status and detail as
/// [`directory_failure_report`] says.
pub fn unreadable_directory_report(path: String, error: std::io::Error) -> (r: ImportSourceReport)
    ensures
        r@.source == path@,
        r@.source_kind == ImportSourceKind::Directory,
        r@.status == ImportSourceStatus::Unreadable || r@.status == ImportSourceStatus::Invalid,
        r@.imported == 0,
        r@.processed_files.len() == 0,
        r@.detail is Some,
        r@.diagnostics.len() == 0,
{
    directory_failure_report(path, io_failure(&error))
}

// ---------------------------------------------------------------------------
// Partial imports
// ---------------------------------------------------------------------------

/// Whether a diagnostic means that something of the source was not imported
/// as asked.
pub open spec fn diag_is_partial(d: DiagnosticV) -> bool {
    match d {
        DiagnosticV::MetadataWarning { warning } => warning.severity == MetadataWarningSeverity::Warning,
        DiagnosticV::ArchiveEntrySkipped { .. } => true,
        DiagnosticV::DirectoryEntrySkipped { .. } => true,
        DiagnosticV::TagRegistryMerge { status, .. } => status == TagRegistryMergeStatus::Failed,
        DiagnosticV::InlineMetadataApplied { .. } => false,
        DiagnosticV::ArchiveMetadataSummary { .. } => false,
    }
}

/// A source is partial unless it imported and none of its diagnostics is a
/// failure.
pub open spec fn spec_source_is_partial(r: SourceReportV) -> bool {
    r.status != ImportSourceStatus::Imported || exists|i: int|
        0 <= i < r.diagnostics.len() && #[trigger] diag_is_partial(r.diagnostics[i])
}

fn diagnostic_is_partial(d: &ImportDiagnostic) -> (r: bool)
    ensures
        r == diag_is_partial(d@),
{
    match d {
        ImportDiagnostic::MetadataWarning { warning } => match warning.severity {
            MetadataWarningSeverity::Warning => true,
            MetadataWarningSeverity::Info => false,
        },
        ImportDiagnostic::ArchiveEntrySkipped { .. } => true,
        ImportDiagnostic::DirectoryEntrySkipped { .. } => true,
        ImportDiagnostic::TagRegistryMerge { status, .. } => match status {
            TagRegistryMergeStatus::Failed => true,
            TagRegistryMergeStatus::Merged => false,
        },
        ImportDiagnostic::InlineMetadataApplied { .. } => false,
        ImportDiagnostic::ArchiveMetadataSummary { .. } => false,
    }
}

/// Whether a source report is partial (see [`spec_source_is_partial`]).
pub fn source_is_partial(source: &ImportSourceReport) -> (r: bool)
    ensures
        r == spec_source_is_partial(source@),
{
    let imported = match source.status {
        ImportSourceStatus::Imported => true,
        _ => false,
    };
    if !imported {
        return true;
    }
    let ghost dv = diags_view(source.diagnostics@);
    let mut i: usize = 0;
    while i < source.diagnostics.len()
        invariant
            dv == diags_view(source.diagnostics@),
            i <= source.diagnostics.len(),
            forall|j: int| 0 <= j < i ==> !#[trigger] diag_is_partial(dv[j]),
        decreases source.diagnostics.len() - i,
    {
        if diagnostic_is_partial(&source.diagnostics[i]) {
            assert(source@.diagnostics == dv);
            assert(diag_is_partial(source@.diagnostics[i as int]));
            return true;
        }
        i += 1;
    }
    false
}

// ---------------------------------------------------------------------------
// Importing one text
// ---------------------------------------------------------------------------

/// What importing one file gave: the pads it created, the metadata warnings
/// met, and, when inline metadata was applied, the source's label with the
/// bucket the pad went to.
#[derive(Debug)]
pub struct FileImportResult {
    pub imported: usize,
    pub warnings: Vec<MetadataApplicationWarning>,
    pub inline_metadata: Option<(String, Bucket)>,
}

/// The diagnostics of a file import: that inline metadata was applied, if it
/// was, then each metadata warning in order.
pub open spec fn file_diagnostics(
    inline_metadata: Option<(Seq<char>, Bucket)>,
    warnings: Seq<WarningV>,
) -> Seq<DiagnosticV> {
    let head = match inline_metadata {
        Some((label, bucket)) => seq![
            DiagnosticV::InlineMetadataApplied { source_label: label, bucket, warning_count: warnings.len() as usize },
        ],
        None => Seq::empty(),
    };
    head + warning_diags(warnings)
}

pub open spec fn inline_view(m: Option<(String, Bucket)>) -> Option<(Seq<char>, Bucket)> {
    match m {
        Some((label, bucket)) => Some((label@, bucket)),
        None => None,
    }
}

impl FileImportResult {
    /// The diagnostics of this import (see [`file_diagnostics`]).
    pub fn diagnostics(self) -> (r: Vec<ImportDiagnostic>)
        ensures
            diags_view(r@) == file_diagnostics(
                inline_view(self.inline_metadata),
                warnings_view(self.warnings@),
            ),
    {
        let ghost wv = warnings_view(self.warnings@);
        let ghost iv = inline_view(self.inline_metadata);
        let count = self.warnings.len();
        let mut out: Vec<ImportDiagnostic> = Vec::new();
        match self.inline_metadata {
            Some((source_label, bucket)) => {
                out.push(ImportDiagnostic::InlineMetadataApplied { source_label, bucket, warning_count: count });
            },
            None => {},
        }
        let ghost head = diags_view(out@);
        append_warning_diagnostics(&mut out, self.warnings);
        proof {
            let ghost hv = match iv {
                Some((l, b)) => seq![
                    DiagnosticV::InlineMetadataApplied { source_label: l, bucket: b, warning_count: count },
                ],
                None => Seq::<DiagnosticV>::empty(),
            };
            assert(head == hv);
        }
        out
    }
}

/// Diagnostics that report metadata warnings, one each, in order.
pub open spec fn warning_diags(ws: Seq<WarningV>) -> Seq<DiagnosticV> {
    ws.map_values(|w: WarningV| DiagnosticV::MetadataWarning { warning: w })
}

/// Appends one metadata-warning diagnostic per warning, in order.
pub(crate) fn append_warning_diagnostics(out: &mut Vec<ImportDiagnostic>, warnings: Vec<MetadataApplicationWarning>)
    ensures
        diags_view(final(out)@) == diags_view(old(out)@) + warning_diags(warnings_view(warnings@)),
{
    let ghost wv = warnings_view(warnings@);
    let ghost head = diags_view(out@);
    let count = warnings.len();
    let mut warnings = warnings;
    let mut k: usize = 0;
    proof {
        assert(diags_view(out@) =~= head + warning_diags(wv.take(0)));
    }
    while warnings.len() > 0
        invariant
            wv.len() == count,
            k <= wv.len(),
            k + warnings@.len() == wv.len(),
            warnings_view(warnings@) == wv.skip(k as int),
            diags_view(out@) == head + warning_diags(wv.take(k as int)),
        decreases warnings.len(),
    {
        let ghost before = warnings@;
        let w = warnings.remove(0);
        proof {
            assert(w@ == wv[k as int]) by {
                assert(warnings_view(before)[0] == wv.skip(k as int)[0]);
            }
            assert forall|j: int| 0 <= j < warnings@.len() implies #[trigger] warnings_view(warnings@)[j] == wv.skip(k + 1)[j] by {
                assert(warnings@[j] == before[j + 1]);
                assert(warnings_view(before)[j + 1] == wv.skip(k as int)[j + 1]);
            }
            assert(warnings_view(warnings@) =~= wv.skip(k + 1));
        }
        let ghost prev = out@;
        out.push(ImportDiagnostic::MetadataWarning { warning: w });
        proof {
            assert(wv.take(k + 1) =~= wv.take(k as int).push(wv[k as int]));
            assert(diags_view(out@) =~= diags_view(prev).push(DiagnosticV::MetadataWarning { warning: wv[k as int] }));
            assert(warning_diags(wv.take(k + 1)) =~= warning_diags(wv.take(k as int)).push(
                DiagnosticV::MetadataWarning { warning: wv[k as int] },
            ));
        }
        k += 1;
    }
    proof {
        assert(wv.take(k as int) =~= wv);
    }
}

/// The store `s0` with the pads `ps` saved one after another as active pads
/// of `scope`.
pub open spec fn saved_all(s0: Seq<StoredV>, ps: Seq<PadV>, scope: Scope) -> Seq<StoredV>
    decreases ps.len(),
{
    if ps.len() == 0 {
        s0
    } else {
        spec_save(saved_all(s0, ps.drop_last(), scope), ps.last(), scope, Bucket::Active)
    }
}

/// Each pad of `ps` is a new root pad holding the matching title and body.
pub open spec fn fresh_pads_of(ps: Seq<PadV>, texts: Seq<(Seq<char>, Seq<char>)>) -> bool {
    &&& ps.len() == texts.len()
    &&& forall|k: int|
        0 <= k < ps.len() ==> #[trigger] ps[k] == new_pad_value(
            ps[k].metadata.id,
            ps[k].metadata.created_at,
            texts[k].0,
            texts[k].1,
        )
}

/// `s1` is `s0` after importing `texts` in order, each as a new active root
/// pad (with a fresh id and creation time).
pub open spec fn imports_texts(s0: Seq<StoredV>, s1: Seq<StoredV>, scope: Scope, texts: Seq<(Seq<char>, Seq<char>)>) -> bool {
    exists|ps: Seq<PadV>| #[trigger] fresh_pads_of(ps, texts) && saved_all(s0, ps, scope) == s1
}

/// The titles and bodies a raw text imports as: its title and body, or
/// nothing when the text is blank.
pub open spec fn raw_texts(raw: Seq<char>) -> Seq<(Seq<char>, Seq<char>)> {
    match spec_title_and_body(raw) {
        Some(tb) => seq![tb],
        None => Seq::empty(),
    }
}

/// Adding one more imported text keeps the import relation.
pub proof fn lemma_imports_push(
    s0: Seq<StoredV>,
    s1: Seq<StoredV>,
    scope: Scope,
    texts: Seq<(Seq<char>, Seq<char>)>,
    more: Seq<(Seq<char>, Seq<char>)>,
    s2: Seq<StoredV>,
)
    requires
        imports_texts(s0, s1, scope, texts),
        imports_texts(s1, s2, scope, more),
    ensures
        imports_texts(s0, s2, scope, texts + more),
    decreases more.len(),
{
    let ps = choose|ps: Seq<PadV>| #[trigger] fresh_pads_of(ps, texts) && saved_all(s0, ps, scope) == s1;
    let qs = choose|qs: Seq<PadV>| #[trigger] fresh_pads_of(qs, more) && saved_all(s1, qs, scope) == s2;
    lemma_saved_all_concat(s0, ps, qs, scope);
    let all = ps + qs;
    assert forall|k: int| 0 <= k < all.len() implies #[trigger] all[k] == new_pad_value(
        all[k].metadata.id,
        all[k].metadata.created_at,
        (texts + more)[k].0,
        (texts + more)[k].1,
    ) by {
        if k < ps.len() {
            assert(all[k] == ps[k]);
        } else {
            assert(all[k] == qs[k - ps.len()]);
        }
    }
    assert(fresh_pads_of(all, texts + more));
}

proof fn lemma_saved_all_concat(s0: Seq<StoredV>, ps: Seq<PadV>, qs: Seq<PadV>, scope: Scope)
    ensures
        saved_all(s0, ps + qs, scope) == saved_all(saved_all(s0, ps, scope), qs, scope),
    decreases qs.len(),
{
    if qs.len() == 0 {
        assert(ps + qs =~= ps);
    } else {
        lemma_saved_all_concat(s0, ps, qs.drop_last(), scope);
        assert((ps + qs).drop_last() =~= ps + qs.drop_last());
        assert((ps + qs).last() == qs.last());
    }
}

/// Nothing imported leaves the store as it was.
proof fn lemma_imports_none(s: Seq<StoredV>, scope: Scope)
    ensures
        imports_texts(s, s, scope, Seq::empty()),
{
    let ps = Seq::<PadV>::empty();
    assert(fresh_pads_of(ps, Seq::empty()));
    assert(saved_all(s, ps, scope) == s);
}

/// Imports a text as a pad: a blank text imports nothing; otherwise its
/// trimmed first line becomes the title and the trimmed rest the body of a
/// new active root pad. The extension and the label only matter to texts with
/// inline metadata, which are imported as plain text here, so no warnings
/// arise and no inline metadata is reported.
pub fn import_content(store: &mut Store, scope: Scope, content_raw: &str, ext: &str, source_label: &str) -> (r:
    Result<FileImportResult, PadzError>)
    ensures
        r matches Ok(f) && f.imported == raw_texts(content_raw@).len() && f.warnings@.len() == 0
            && f.inline_metadata is None,
        imports_texts(old(store)@, final(store)@, scope, raw_texts(content_raw@)),
{
    match extract_title_and_body(content_raw) {
        Some((title, body)) => {
            let ghost t = title@;
            let ghost b = body@;
            let ghost s0 = store@;
            let created = create::run(store, scope, title, body, None);
            match created {
                Ok(res) => {
                    proof {
                        let p = res.affected_pads@[0].pad@;
                        let ps = seq![p];
                        assert(ps.drop_last() =~= Seq::<PadV>::empty());
                        assert(saved_all(s0, ps.drop_last(), scope) == s0);
                        assert(saved_all(s0, ps, scope) == store@);
                        assert(fresh_pads_of(ps, raw_texts(content_raw@)));
                    }
                    Ok(FileImportResult { imported: 1, warnings: Vec::new(), inline_metadata: None })
                },
                Err(e) => Err(e),
            }
        },
        None => {
            proof {
                lemma_imports_none(store@, scope);
            }
            Ok(FileImportResult { imported: 0, warnings: Vec::new(), inline_metadata: None })
        },
    }
}

// ---------------------------------------------------------------------------
// Directories
// ---------------------------------------------------------------------------

/// What inspecting a listed directory entry gave.
#[derive(Debug)]
pub enum EntryInspection {
    /// The entry is not a regular file.
    NotAFile,
    /// Inspecting the entry failed.
    Failed(IoFailure),
    /// The entry is a regular file, and reading it as text gave this.
    File(Result<String, IoFailure>),
}

/// One entry of a directory listing.
#[derive(Debug)]
pub enum DirectoryEntry {
    /// Listing this entry failed.
    Unlisted(IoFailure),
    /// A listed entry: its path, its file extension (without the dot) when it
    /// has one, and what inspecting it gave.
    Listed { path: String, extension: Option<String>, inspection: EntryInspection },
}

/// Whether `.ext` is one of the accepted extensions.
pub open spec fn ext_accepted(exts: Seq<String>, ext: Seq<char>) -> bool {
    exists|i: int| 0 <= i < exts.len() && #[trigger] exts[i]@ == seq!['.'] + ext
}

/// Whether an entry is a listed entry with an accepted extension.
pub open spec fn entry_accepted(e: DirectoryEntry, exts: Seq<String>) -> bool {
    match e {
        DirectoryEntry::Listed { extension, .. } => match extension {
            Some(x) => ext_accepted(exts, x@),
            None => false,
        },
        DirectoryEntry::Unlisted(_) => false,
    }
}

/// The titles and bodies an entry imports: those of an accepted file that
/// was read.
pub open spec fn entry_texts(e: DirectoryEntry, exts: Seq<String>) -> Seq<(Seq<char>, Seq<char>)> {
    if entry_accepted(e, exts) {
        match e {
            DirectoryEntry::Listed { inspection, .. } => match inspection {
                EntryInspection::File(read) => match read {
                    Ok(c) => raw_texts(c@),
                    Err(_) => Seq::empty(),
                },
                _ => Seq::empty(),
            },
            DirectoryEntry::Unlisted(_) => Seq::empty(),
        }
    } else {
        Seq::empty()
    }
}

/// The path of an accepted file that was read.
pub open spec fn entry_processed(e: DirectoryEntry, exts: Seq<String>) -> Seq<Seq<char>> {
    if entry_accepted(e, exts) {
        match e {
            DirectoryEntry::Listed { path, inspection, .. } => match inspection {
                EntryInspection::File(read) => if read is Ok {
                    seq![path@]
                } else {
                    Seq::empty()
                },
                _ => Seq::empty(),
            },
            DirectoryEntry::Unlisted(_) => Seq::empty(),
        }
    } else {
        Seq::empty()
    }
}

/// The diagnostics of an entry: a failed listing; for an accepted entry, a
/// failed inspection or a failed read.
pub open spec fn entry_diags(e: DirectoryEntry, exts: Seq<String>) -> Seq<DiagnosticV> {
    match e {
        DirectoryEntry::Unlisted(f) => seq![
            DiagnosticV::DirectoryEntrySkipped {
                entry: None,
                reason: DirectoryEntrySkipReason::ReadEntry,
                detail: f.detail@,
            },
        ],
        DirectoryEntry::Listed { path, inspection, .. } => if entry_accepted(e, exts) {
            match inspection {
                EntryInspection::Failed(f) => seq![
                    DiagnosticV::DirectoryEntrySkipped {
                        entry: Some(path@),
                        reason: DirectoryEntrySkipReason::InspectEntry,
                        detail: f.detail@,
                    },
                ],
                EntryInspection::File(read) => match read {
                    Err(f) => seq![
                        DiagnosticV::DirectoryEntrySkipped {
                            entry: Some(path@),
                            reason: DirectoryEntrySkipReason::ImportFile,
                            detail: f.detail@,
                        },
                    ],
                    Ok(_) => Seq::empty(),
                },
                EntryInspection::NotAFile => Seq::empty(),
            }
        } else {
            Seq::empty()
        },
    }
}

pub open spec fn dir_texts(entries: Seq<DirectoryEntry>, exts: Seq<String>) -> Seq<(Seq<char>, Seq<char>)>
    decreases entries.len(),
{
    if entries.len() == 0 {
        Seq::empty()
    } else {
        dir_texts(entries.drop_last(), exts) + entry_texts(entries.last(), exts)
    }
}

pub open spec fn dir_processed(entries: Seq<DirectoryEntry>, exts: Seq<String>) -> Seq<Seq<char>>
    decreases entries.len(),
{
    if entries.len() == 0 {
        Seq::empty()
    } else {
        dir_processed(entries.drop_last(), exts) + entry_processed(entries.last(), exts)
    }
}

pub open spec fn dir_diags(entries: Seq<DirectoryEntry>, exts: Seq<String>) -> Seq<DiagnosticV>
    decreases entries.len(),
{
    if entries.len() == 0 {
        Seq::empty()
    } else {
        dir_diags(entries.drop_last(), exts) + entry_diags(entries.last(), exts)
    }
}

/// What importing the entries of a directory gave.
#[derive(Debug)]
pub struct DirectoryImportResult {
    pub imported: usize,
    pub processed_files: Vec<String>,
    pub diagnostics: Vec<ImportDiagnostic>,
}

/// Whether `.ext` is an accepted extension (see [`ext_accepted`]).
fn ext_listed(exts: &Vec<String>, ext: &str) -> (r: bool)
    ensures
        r == ext_accepted(exts@, ext@),
{
    let mut cand: Vec<char> = vec!['.'];
    crate::text::append_chars(&mut cand, &crate::text::chars_of(ext));
    assert(cand@ =~= seq!['.'] + ext@);
    let mut i: usize = 0;
    while i < exts.len()
        invariant
            i <= exts.len(),
            cand@ == seq!['.'] + ext@,
            forall|j: int| 0 <= j < i ==> #[trigger] exts@[j]@ != seq!['.'] + ext@,
        decreases exts.len() - i,
    {
        if crate::text::chars_eq(&crate::text::chars_of(exts[i].as_str()), &cand) {
            return true;
        }
        i += 1;
    }
    false
}

proof fn lemma_dir_texts_len(entries: Seq<DirectoryEntry>, exts: Seq<String>)
    ensures
        dir_texts(entries, exts).len() <= entries.len(),
    decreases entries.len(),
{
    if entries.len() > 0 {
        lemma_dir_texts_len(entries.drop_last(), exts);
    }
}

/// Imports the accepted files of a directory listing, one after another: an
/// entry counts when it was listed and has an accepted extension (`.` and
/// its extension is one of `import_exts`); entries that are not files are
/// passed over; failures to list, inspect or read an entry become
/// diagnostics and the other entries still import.
pub fn import_directory_entries(
    store: &mut Store,
    scope: Scope,
    entries: &Vec<DirectoryEntry>,
    import_exts: &Vec<String>,
) -> (r: DirectoryImportResult)
    ensures
        r.imported == dir_texts(entries@, import_exts@).len(),
        r.processed_files@.map_values(|s: String| s@) == dir_processed(entries@, import_exts@),
        diags_view(r.diagnostics@) == dir_diags(entries@, import_exts@),
        imports_texts(old(store)@, final(store)@, scope, dir_texts(entries@, import_exts@)),
{
    let ghost es = entries@;
    let ghost exts = import_exts@;
    let ghost s0 = store@;
    let mut imported: usize = 0;
    let mut processed_files: Vec<String> = Vec::new();
    let mut diagnostics: Vec<ImportDiagnostic> = Vec::new();
    let mut i: usize = 0;
    proof {
        lemma_imports_none(s0, scope);
        assert(es.take(0) =~= Seq::<DirectoryEntry>::empty());
        assert(processed_files@.map_values(|s: String| s@) =~= Seq::<Seq<char>>::empty());
        assert(diags_view(diagnostics@) =~= Seq::<DiagnosticV>::empty());
    }
    while i < entries.len()
        invariant
            es == entries@,
            exts == import_exts@,
            i <= entries.len(),
            imported == dir_texts(es.take(i as int), exts).len(),
            processed_files@.map_values(|s: String| s@) == dir_processed(es.take(i as int), exts),
            diags_view(diagnostics@) == dir_diags(es.take(i as int), exts),
            imports_texts(s0, store@, scope, dir_texts(es.take(i as int), exts)),
        decreases entries.len() - i,
    {
        let ghost before = store@;
        let ghost pv = processed_files@;
        let ghost dv = diagnostics@;
        let ghost e = es[i as int];
        proof {
            assert(es.take(i + 1).drop_last() =~= es.take(i as int));
            assert(es.take(i + 1).last() == e);
            lemma_dir_texts_len(es.take(i as int), exts);
            assert(es.take(i as int).len() == i);
        }
        match &entries[i] {
            DirectoryEntry::Unlisted(f) => {
                diagnostics.push(
                    ImportDiagnostic::DirectoryEntrySkipped {
                        entry: None,
                        reason: DirectoryEntrySkipReason::ReadEntry,
                        detail: f.detail.clone(),
                    },
                );
                proof {
                    assert(diags_view(diagnostics@) =~= diags_view(dv) + entry_diags(e, exts));
                    lemma_imports_none(store@, scope);
                    lemma_imports_push(s0, store@, scope, dir_texts(es.take(i as int), exts), Seq::empty(), store@);
                    assert(dir_texts(es.take(i as int), exts) + Seq::empty() =~= dir_texts(es.take(i as int), exts));
                    assert(dir_processed(es.take(i as int), exts) + Seq::empty() =~= dir_processed(es.take(i as int), exts));
                }
            },
            DirectoryEntry::Listed { path, extension, inspection } => {
                let accepted = match extension {
                    Some(x) => ext_listed(import_exts, x.as_str()),
                    None => false,
                };
                assert(accepted == entry_accepted(e, exts));
                let mut more: usize = 0;
                if accepted {
                    match inspection {
                        EntryInspection::NotAFile => {},
                        EntryInspection::Failed(f) => {
                            diagnostics.push(
                                ImportDiagnostic::DirectoryEntrySkipped {
                                    entry: Some(path.clone()),
                                    reason: DirectoryEntrySkipReason::InspectEntry,
                                    detail: f.detail.clone(),
                                },
                            );
                        },
                        EntryInspection::File(read) => match read {
                            Err(f) => {
                                diagnostics.push(
                                    ImportDiagnostic::DirectoryEntrySkipped {
                                        entry: Some(path.clone()),
                                        reason: DirectoryEntrySkipReason::ImportFile,
                                        detail: f.detail.clone(),
                                    },
                                );
                            },
                            Ok(content) => {
                                let ext = match extension {
                                    Some(x) => x.as_str(),
                                    None => "",
                                };
                                match import_content(store, scope, content.as_str(), ext, path.as_str()) {
                                    Ok(result) => {
                                        more = result.imported;
                                        processed_files.push(path.clone());
                                        let mut d = result.diagnostics();
                                        proof {
                                            assert(diags_view(d@) =~= Seq::<DiagnosticV>::empty());
                                        }
                                        diagnostics.append(&mut d);
                                    },
                                    Err(err) => {
                                        diagnostics.push(
                                            ImportDiagnostic::DirectoryEntrySkipped {
                                                entry: Some(path.clone()),
                                                reason: DirectoryEntrySkipReason::ImportFile,
                                                detail: err.message(),
                                            },
                                        );
                                    },
                                }
                            },
                        },
                    }
                }
                proof {
                    if store@ == before {
                        if entry_texts(e, exts).len() == 0 {
                            lemma_imports_none(before, scope);
                            assert(entry_texts(e, exts) =~= Seq::empty());
                        }
                    }
                    assert(imports_texts(before, store@, scope, entry_texts(e, exts)));
                    lemma_imports_push(s0, before, scope, dir_texts(es.take(i as int), exts), entry_texts(e, exts), store@);
                    assert(processed_files@.map_values(|s: String| s@) =~= pv.map_values(|s: String| s@) + entry_processed(
                        e,
                        exts,
                    ));
                    assert(diags_view(diagnostics@) =~= diags_view(dv) + entry_diags(e, exts));
                }
                imported = imported + more;
            },
        }
        i += 1;
    }
    proof {
        assert(es.take(entries.len() as int) =~= es);
    }
    DirectoryImportResult { imported, processed_files, diagnostics }
}

// ---------------------------------------------------------------------------
// Whole imports
// ---------------------------------------------------------------------------

/// A source the caller asked to import, with what reading it gave.
#[derive(Debug)]
pub enum ImportSource {
    /// The path names nothing.
    Missing { path: String },
    /// A file, with its extension (without the dot) and what reading it as
    /// text gave.
    File { path: String, extension: Option<String>, content: Result<String, IoFailure> },
    /// A directory, with what listing it gave.
    Directory { path: String, listing: Result<Vec<DirectoryEntry>, IoFailure> },
}

/// Imported when something was imported, else skipped.
pub open spec fn count_status(n: nat) -> ImportSourceStatus {
    if n > 0 {
        ImportSourceStatus::Imported
    } else {
        ImportSourceStatus::Skipped
    }
}

/// The titles and bodies a source imports.
pub open spec fn source_texts(src: ImportSource, exts: Seq<String>) -> Seq<(Seq<char>, Seq<char>)> {
    match src {
        ImportSource::Missing { .. } => Seq::empty(),
        ImportSource::File { content, .. } => match content {
            Ok(c) => raw_texts(c@),
            Err(_) => Seq::empty(),
        },
        ImportSource::Directory { listing, .. } => match listing {
            Ok(es) => dir_texts(es@, exts),
            Err(_) => Seq::empty(),
        },
    }
}

/// The report of a source.
pub open spec fn source_report(src: ImportSource, exts: Seq<String>) -> SourceReportV {
    match src {
        ImportSource::Missing { path } => SourceReportV {
            source: path@,
            source_kind: ImportSourceKind::File,
            status: ImportSourceStatus::Missing,
            imported: 0,
            processed_files: Seq::empty(),
            detail: None,
            diagnostics: Seq::empty(),
        },
        ImportSource::File { path, content, .. } => match content {
            Err(f) => failed_source(path@, ImportSourceKind::File, f),
            Ok(c) => SourceReportV {
                source: path@,
                source_kind: ImportSourceKind::File,
                status: count_status(raw_texts(c@).len()),
                imported: raw_texts(c@).len() as usize,
                processed_files: seq![path@],
                detail: None,
                diagnostics: Seq::empty(),
            },
        },
        ImportSource::Directory { path, listing } => match listing {
            Err(f) => failed_source(path@, ImportSourceKind::Directory, f),
            Ok(es) => SourceReportV {
                source: path@,
                source_kind: ImportSourceKind::Directory,
                status: count_status(dir_texts(es@, exts).len()),
                imported: dir_texts(es@, exts).len() as usize,
                processed_files: dir_processed(es@, exts),
                detail: None,
                diagnostics: dir_diags(es@, exts),
            },
        },
    }
}

/// The pads imported over all reports.
pub open spec fn reports_total(rs: Seq<SourceReportV>) -> int
    decreases rs.len(),
{
    if rs.len() == 0 {
        0
    } else {
        reports_total(rs.drop_last()) + rs.last().imported
    }
}

/// No imports when nothing was imported; partial when some source is
/// partial; else a full success.
pub open spec fn import_status(rs: Seq<SourceReportV>) -> ImportStatus {
    if reports_total(rs) == 0 {
        ImportStatus::NoImports
    } else if exists|i: int| 0 <= i < rs.len() && #[trigger] spec_source_is_partial(rs[i]) {
        ImportStatus::PartialSuccess
    } else {
        ImportStatus::FullSuccess
    }
}

/// Summarizes source reports into the report of a whole import (see
/// [`import_status`]).
pub fn summarize(sources: Vec<ImportSourceReport>) -> (r: ImportReport)
    requires
        reports_total(reports_view(sources@)) <= usize::MAX,
    ensures
        reports_view(r.sources@) == reports_view(sources@),
        r.total_imported == reports_total(reports_view(sources@)),
        r.status == import_status(reports_view(sources@)),
{
    let ghost rv = reports_view(sources@);
    let mut total: usize = 0;
    let mut partial = false;
    let mut i: usize = 0;
    proof {
        lemma_reports_total_mono(rv);
    }
    while i < sources.len()
        invariant
            rv == reports_view(sources@),
            i <= sources.len(),
            reports_total(rv) <= usize::MAX,
            forall|j: int| 0 <= j <= rv.len() ==> #[trigger] reports_total(rv.take(j)) <= reports_total(rv),
            total == reports_total(rv.take(i as int)),
            partial == exists|j: int| 0 <= j < i && #[trigger] spec_source_is_partial(rv[j]),
        decreases sources.len() - i,
    {
        proof {
            assert(rv.take(i + 1).drop_last() =~= rv.take(i as int));
            assert(rv.take(i + 1).last() == rv[i as int]);
            assert(reports_total(rv.take(i + 1)) <= reports_total(rv));
        }
        total = total + sources[i].imported;
        let p = source_is_partial(&sources[i]);
        assert(p == spec_source_is_partial(rv[i as int]));
        partial = partial || p;
        i += 1;
    }
    proof {
        assert(rv.take(sources.len() as int) =~= rv);
    }
    let status = if total == 0 {
        ImportStatus::NoImports
    } else if partial {
        ImportStatus::PartialSuccess
    } else {
        ImportStatus::FullSuccess
    };
    ImportReport { status, total_imported: total, sources }
}

proof fn lemma_reports_total_mono(rs: Seq<SourceReportV>)
    ensures
        forall|j: int| 0 <= j <= rs.len() ==> #[trigger] reports_total(rs.take(j)) <= reports_total(rs),
    decreases rs.len(),
{
    if rs.len() > 0 {
        lemma_reports_total_mono(rs.drop_last());
        assert forall|j: int| 0 <= j <= rs.len() implies #[trigger] reports_total(rs.take(j)) <= reports_total(rs) by {
            if j == rs.len() {
                assert(rs.take(j) =~= rs);
            } else {
                assert(rs.take(j) =~= rs.drop_last().take(j));
            }
        }
    }
}

/// Imports one requested source and reports it (see [`source_report`]).
fn import_source(store: &mut Store, scope: Scope, src: &ImportSource, import_exts: &Vec<String>) -> (r:
    ImportSourceReport)
    ensures
        r@ == source_report(*src, import_exts@),
        imports_texts(old(store)@, final(store)@, scope, source_texts(*src, import_exts@)),
{
    match src {
        ImportSource::Missing { path } => {
            proof {
                lemma_imports_none(store@, scope);
            }
            let r = ImportSourceReport {
                source: path.clone(),
                source_kind: ImportSourceKind::File,
                status: ImportSourceStatus::Missing,
                imported: 0,
                processed_files: Vec::new(),
                detail: None,
                diagnostics: Vec::new(),
            };
            proof {
                assert(r@.processed_files =~= Seq::<Seq<char>>::empty());
                assert(r@.diagnostics =~= Seq::<DiagnosticV>::empty());
            }
            r
        },
        ImportSource::File { path, extension, content } => match content {
            Err(f) => {
                proof {
                    lemma_imports_none(store@, scope);
                }
                failed_source_report(path.clone(), ImportSourceKind::File, IoFailure {
                    invalid_data: f.invalid_data,
                    detail: f.detail.clone(),
                })
            },
            Ok(c) => {
                let ext = match extension {
                    Some(x) => x.as_str(),
                    None => "",
                };
                let res = import_content(store, scope, c.as_str(), ext, path.as_str());
                let (imported, diagnostics) = match res {
                    Ok(f) => (f.imported, f.diagnostics()),
                    Err(_) => (0, Vec::new()),
                };
                let status = if imported > 0 {
                    ImportSourceStatus::Imported
                } else {
                    ImportSourceStatus::Skipped
                };
                let r = ImportSourceReport {
                    source: path.clone(),
                    source_kind: ImportSourceKind::File,
                    status,
                    imported,
                    processed_files: vec![path.clone()],
                    detail: None,
                    diagnostics,
                };
                proof {
                    assert(r@.processed_files =~= seq![path@]);
                    assert(r@.diagnostics =~= Seq::<DiagnosticV>::empty());
                }
                r
            },
        },
        ImportSource::Directory { path, listing } => match listing {
            Err(f) => {
                proof {
                    lemma_imports_none(store@, scope);
                }
                directory_failure_report(path.clone(), IoFailure { invalid_data: f.invalid_data, detail: f.detail.clone() })
            },
            Ok(entries) => {
                let d = import_directory_entries(store, scope, entries, import_exts);
                let status = if d.imported > 0 {
                    ImportSourceStatus::Imported
                } else {
                    ImportSourceStatus::Skipped
                };
                ImportSourceReport {
                    source: path.clone(),
                    source_kind: ImportSourceKind::Directory,
                    status,
                    imported: d.imported,
                    processed_files: d.processed_files,
                    detail: None,
                    diagnostics: d.diagnostics,
                }
            },
        },
    }
}

/// A requested source: a plain file or directory, or a JSON archive, with
/// what reading it gave.
#[derive(Debug)]
pub enum ImportInput {
    Plain(ImportSource),
    Archive { path: String, read: ArchiveRead },
}

/// Whether `rv` reports the input as it should: a plain source as
/// [`source_report`] says, an archive as [`archive_report`] says of the pads
/// it imported and its diagnostics.
pub open spec fn input_reported(inp: ImportInput, exts: Seq<String>, rv: SourceReportV) -> bool {
    match inp {
        ImportInput::Plain(src) => rv == source_report(src, exts),
        ImportInput::Archive { path, read } => rv == archive_report(path@, read, rv.imported as nat, rv.diagnostics),
    }
}

/// What importing the input did to the store and the tag registry: a plain
/// source adds new pads for its texts (see [`imports_texts`]); a read
/// archive lands as [`archive_imported`] says; an archive that could not be
/// read changes nothing.
pub open spec fn input_effect(
    s0: Seq<StoredV>,
    s1: Seq<StoredV>,
    t0: TagRegistry,
    t1: TagRegistry,
    scope: Scope,
    inp: ImportInput,
    exts: Seq<String>,
    rv: SourceReportV,
) -> bool {
    match inp {
        ImportInput::Plain(src) => imports_texts(s0, s1, scope, source_texts(src, exts)) && t1 == t0,
        ImportInput::Archive { read, .. } => match read {
            ArchiveRead::Read { archive, files } => archive_imported(
                s0,
                s1,
                t0,
                t1,
                scope,
                archive,
                files_view(files@),
                rv.imported as nat,
                rv.diagnostics,
            ),
            _ => s1 == s0 && t1 == t0,
        },
    }
}

/// The most pads an input can import: what a plain source imports, or one
/// per entry of a read archive.
pub open spec fn input_bound(inp: ImportInput, exts: Seq<String>) -> nat {
    match inp {
        ImportInput::Plain(src) => source_report(src, exts).imported as nat,
        ImportInput::Archive { read, .. } => match read {
            ArchiveRead::Read { archive, .. } => archive.pads@.len(),
            _ => 0,
        },
    }
}

pub open spec fn inputs_bound(inps: Seq<ImportInput>, exts: Seq<String>) -> nat
    decreases inps.len(),
{
    if inps.len() == 0 {
        0
    } else {
        inputs_bound(inps.drop_last(), exts) + input_bound(inps.last(), exts)
    }
}

/// The most pads an input can import: one for a file, one per listed entry
/// for a directory, one per descriptor entry for a read archive.
pub open spec fn input_cap(inp: ImportInput) -> nat {
    match inp {
        ImportInput::Plain(src) => match src {
            ImportSource::Missing { .. } => 0,
            ImportSource::File { .. } => 1,
            ImportSource::Directory { listing, .. } => match listing {
                Ok(es) => es@.len(),
                Err(_) => 0,
            },
        },
        ImportInput::Archive { read, .. } => match read {
            ArchiveRead::Read { archive, .. } => archive.pads@.len(),
            _ => 0,
        },
    }
}

pub open spec fn inputs_cap(inps: Seq<ImportInput>) -> nat
    decreases inps.len(),
{
    if inps.len() == 0 {
        0
    } else {
        inputs_cap(inps.drop_last()) + input_cap(inps.last())
    }
}

proof fn lemma_inputs_within_cap(inps: Seq<ImportInput>, exts: Seq<String>)
    requires
        forall|i: int| 0 <= i < inps.len() ==> match #[trigger] inps[i] {
            ImportInput::Plain(ImportSource::Directory { listing: Ok(es), .. }) => es@.len() <= usize::MAX,
            _ => true,
        },
    ensures
        inputs_bound(inps, exts) <= inputs_cap(inps),
    decreases inps.len(),
{
    if inps.len() > 0 {
        let last = inps.last();
        assert(inps[inps.len() - 1] == last);
        lemma_inputs_within_cap(inps.drop_last(), exts);
        match last {
            ImportInput::Plain(ImportSource::Directory { listing: Ok(es), .. }) => {
                lemma_dir_texts_len(es@, exts);
            },
            _ => {},
        }
    }
}

/// Whether the inputs can import at most `usize::MAX` pads in all, counted
/// as [`input_cap`] says; when they can, [`run`] may be called on them.
pub fn inputs_fit(inputs: &Vec<ImportInput>, exts: &Vec<String>) -> (r: bool)
    ensures
        r == (inputs_cap(inputs@) <= usize::MAX),
        r ==> inputs_bound(inputs@, exts@) <= usize::MAX,
{
    let mut total: usize = 0;
    let mut i: usize = 0;
    while i < inputs.len()
        invariant
            i <= inputs.len(),
            total == inputs_cap(inputs@.take(i as int)),
        decreases inputs.len() - i,
    {
        proof {
            assert(inputs@.take(i + 1).drop_last() =~= inputs@.take(i as int));
            assert(inputs@.take(i + 1).last() == inputs@[i as int]);
        }
        let cap: usize = match &inputs[i] {
            ImportInput::Plain(src) => match src {
                ImportSource::Missing { .. } => 0,
                ImportSource::File { .. } => 1,
                ImportSource::Directory { listing, .. } => match listing {
                    Ok(es) => es.len(),
                    Err(_) => 0,
                },
            },
            ImportInput::Archive { read, .. } => match read {
                ArchiveRead::Read { archive, .. } => archive.pads.len(),
                _ => 0,
            },
        };
        match total.checked_add(cap) {
            Some(t) => total = t,
            None => {
                proof {
                    lemma_cap_grows(inputs@, i as int + 1);
                    assert(inputs@.take(inputs.len() as int) =~= inputs@);
                }
                return false;
            },
        }
        i += 1;
    }
    proof {
        assert(inputs@.take(inputs.len() as int) =~= inputs@);
        assert forall|j: int| 0 <= j < inputs@.len() implies match #[trigger] inputs@[j] {
            ImportInput::Plain(ImportSource::Directory { listing: Ok(es), .. }) => es@.len() <= usize::MAX,
            _ => true,
        } by {
            match inputs@[j] {
                ImportInput::Plain(ImportSource::Directory { listing: Ok(es), .. }) => {
                    assert(es@.len() == es.len());
                },
                _ => {},
            }
        }
        lemma_inputs_within_cap(inputs@, exts@);
    }
    true
}

proof fn lemma_cap_grows(inps: Seq<ImportInput>, k: int)
    requires
        0 <= k <= inps.len(),
    ensures
        inputs_cap(inps.take(k)) <= inputs_cap(inps),
    decreases inps.len() - k,
{
    if k < inps.len() {
        lemma_cap_grows(inps, k + 1);
        assert(inps.take(k + 1).drop_last() =~= inps.take(k));
    } else {
        assert(inps.take(k) =~= inps);
    }
}

/// Importing the inputs in order went through the stores `stages` and the
/// registries `regs`, input `i` taking `stages[i]` to `stages[i + 1]` as
/// [`input_effect`] says of its report.
pub open spec fn inputs_effect(
    stages: Seq<Seq<StoredV>>,
    regs: Seq<TagRegistry>,
    scope: Scope,
    inps: Seq<ImportInput>,
    exts: Seq<String>,
    rs: Seq<SourceReportV>,
) -> bool {
    &&& stages.len() == inps.len() + 1
    &&& regs.len() == inps.len() + 1
    &&& rs.len() == inps.len()
    &&& forall|i: int|
        0 <= i < inps.len() ==> #[trigger] input_effect(
            stages[i],
            stages[i + 1],
            regs[i],
            regs[i + 1],
            scope,
            inps[i],
            exts,
            rs[i],
        )
}

/// Imports one input and reports it (see [`input_reported`] and
/// [`input_effect`]).
pub fn import_input(
    store: &mut Store,
    registry: &mut TagRegistry,
    scope: Scope,
    inp: ImportInput,
    import_exts: &Vec<String>,
) -> (r: ImportSourceReport)
    ensures
        input_reported(inp, import_exts@, r@),
        input_effect(old(store)@, final(store)@, *old(registry), *final(registry), scope, inp, import_exts@, r@),
        r@.imported <= input_bound(inp, import_exts@),
{
    match inp {
        ImportInput::Plain(src) => import_source(store, scope, &src, import_exts),
        ImportInput::Archive { path, read } => {
            let ghost rd = read;
            let r = import_json_archive_source(store, registry, scope, path, read);
            proof {
                match rd {
                    ArchiveRead::Read { archive, files } => {
                        let md = merge_diags(merged_tags(old(registry).tags_of(scope), archive.tags@).1, archive.tags@.len());
                        let d = r@.diagnostics;
                        let c = choose|c: Seq<(u128, i64)>|
                            #[trigger] entries_reported(
                                old(store)@,
                                store@,
                                scope,
                                archive.pads@,
                                files_view(files@),
                                entry_ids(archive.pads@),
                                c,
                                r@.imported as nat,
                                d.take(d.len() - md.len()),
                            );
                        lemma_entries_outcome_bound(
                            old(store)@,
                            scope,
                            archive.pads@,
                            files_view(files@),
                            entry_ids(archive.pads@),
                            c,
                        );
                    },
                    _ => {},
                }
            }
            r
        },
    }
}

proof fn lemma_reports_within(rs: Seq<SourceReportV>, inps: Seq<ImportInput>, exts: Seq<String>)
    requires
        rs.len() == inps.len(),
        forall|i: int| 0 <= i < rs.len() ==> #[trigger] rs[i].imported <= input_bound(inps[i], exts),
    ensures
        reports_total(rs) <= inputs_bound(inps, exts),
    decreases rs.len(),
{
    if rs.len() > 0 {
        lemma_reports_within(rs.drop_last(), inps.drop_last(), exts);
        assert(rs.last().imported <= input_bound(inps.last(), exts));
    }
}

/// Imports every requested input in order, each into one report (see
/// [`input_reported`] and [`inputs_effect`]), and summarizes them (see
/// [`import_status`]). The inputs must not be able to import more pads than
/// `usize` counts.
pub fn run(
    store: &mut Store,
    registry: &mut TagRegistry,
    scope: Scope,
    inputs: Vec<ImportInput>,
    import_exts: &Vec<String>,
) -> (r: Result<ImportReport, PadzError>)
    requires
        inputs_bound(inputs@, import_exts@) <= usize::MAX,
    ensures
        r matches Ok(rep) && rep.sources@.len() == inputs@.len() && (forall|i: int|
            0 <= i < inputs@.len() ==> #[trigger] input_reported(inputs@[i], import_exts@, rep.sources@[i]@))
            && rep.total_imported == reports_total(reports_view(rep.sources@))
            && rep.total_imported <= inputs_bound(inputs@, import_exts@) && rep.status == import_status(
            reports_view(rep.sources@),
        ) && exists|stages: Seq<Seq<StoredV>>, regs: Seq<TagRegistry>|
            #[trigger] inputs_effect(stages, regs, scope, inputs@, import_exts@, reports_view(rep.sources@))
                && stages[0] == old(store)@ && stages.last() == final(store)@ && regs[0] == *old(registry)
                && regs.last() == *final(registry),
{
    let ghost inps = inputs@;
    let ghost exts = import_exts@;
    let ghost mut stages: Seq<Seq<StoredV>> = seq![store@];
    let ghost mut regs: Seq<TagRegistry> = seq![*registry];
    let n = inputs.len();
    let mut reports: Vec<ImportSourceReport> = Vec::new();
    let mut rest = inputs;
    let mut i: usize = 0;
    while rest.len() > 0
        invariant
            exts == import_exts@,
            n == inps.len(),
            i + rest@.len() == n,
            rest@ == inps.skip(i as int),
            reports@.len() == i,
            forall|j: int| 0 <= j < i ==> #[trigger] input_reported(inps[j], exts, reports@[j]@),
            forall|j: int| 0 <= j < i ==> #[trigger] reports@[j]@.imported <= input_bound(inps[j], exts),
            inputs_effect(stages, regs, scope, inps.take(i as int), exts, reports_view(reports@)),
            stages.last() == store@,
            regs.last() == *registry,
            stages[0] == old(store)@,
            regs[0] == *old(registry),
        decreases rest.len(),
    {
        let ghost s_before = store@;
        let ghost t_before = *registry;
        let ghost prev_reports = reports@;
        let inp = rest.remove(0);
        proof {
            assert(inp == inps[i as int]);
            assert(rest@ =~= inps.skip(i + 1));
        }
        let rep = import_input(store, registry, scope, inp, import_exts);
        reports.push(rep);
        proof {
            let ghost old_stages = stages;
            let ghost old_regs = regs;
            stages = stages.push(store@);
            regs = regs.push(*registry);
            let rv = reports_view(reports@);
            assert forall|j: int| 0 <= j < i + 1 implies #[trigger] input_effect(
                stages[j],
                stages[j + 1],
                regs[j],
                regs[j + 1],
                scope,
                inps.take(i + 1)[j],
                exts,
                rv[j],
            ) by {
                if j < i {
                    assert(reports@[j] == prev_reports[j]);
                    assert(inps.take(i + 1)[j] == inps.take(i as int)[j]);
                    assert(input_effect(
                        old_stages[j],
                        old_stages[j + 1],
                        old_regs[j],
                        old_regs[j + 1],
                        scope,
                        inps.take(i as int)[j],
                        exts,
                        reports_view(prev_reports)[j],
                    ));
                } else {
                    assert(stages[j] == s_before);
                    assert(regs[j] == t_before);
                }
            }
            assert forall|j: int| 0 <= j < i + 1 implies #[trigger] input_reported(inps[j], exts, reports@[j]@) by {
                if j < i {
                    assert(reports@[j] == prev_reports[j]);
                }
            }
            assert forall|j: int| 0 <= j < i + 1 implies #[trigger] reports@[j]@.imported <= input_bound(inps[j], exts) by {
                if j < i {
                    assert(reports@[j] == prev_reports[j]);
                }
            }
        }
        i += 1;
    }
    proof {
        assert(inps.take(n as int) =~= inps);
        let rv = reports_view(reports@);
        assert forall|j: int| 0 <= j < rv.len() implies #[trigger] rv[j].imported <= input_bound(inps[j], exts) by {
            assert(reports@[j]@.imported <= input_bound(inps[j], exts));
        }
        lemma_reports_within(rv, inps, exts);
    }
    let ghost fstages = stages;
    let ghost fregs = regs;
    let rep = summarize(reports);
    proof {
        assert(reports_view(rep.sources@) == reports_view(reports@));
        assert forall|j: int| 0 <= j < inps.len() implies #[trigger] input_reported(inps[j], exts, rep.sources@[j]@) by {
            assert(rep.sources@[j]@ == reports_view(rep.sources@)[j]);
            assert(reports@[j]@ == reports_view(reports@)[j]);
        }
        assert(inputs_effect(fstages, fregs, scope, inps, exts, reports_view(rep.sources@)));
    }
    Ok(rep)
}

// ---------------------------------------------------------------------------
// Partial imports are never full successes
// ---------------------------------------------------------------------------

proof fn lemma_dir_diags_partial(es: Seq<DirectoryEntry>, exts: Seq<String>)
    ensures
        forall|i: int| 0 <= i < dir_diags(es, exts).len() ==> #[trigger] diag_is_partial(dir_diags(es, exts)[i]),
    decreases es.len(),
{
    if es.len() > 0 {
        lemma_dir_diags_partial(es.drop_last(), exts);
        let a = dir_diags(es.drop_last(), exts);
        let b = entry_diags(es.last(), exts);
        assert forall|i: int| 0 <= i < dir_diags(es, exts).len() implies #[trigger] diag_is_partial(
            dir_diags(es, exts)[i],
        ) by {
            if i < a.len() {
                assert(dir_diags(es, exts)[i] == a[i]);
            } else {
                assert(dir_diags(es, exts)[i] == b[i - a.len()]);
            }
        }
    }
}

/// A report that notes something not imported as asked (a skipped archive
/// or directory entry, a metadata warning, a failed tag merge) makes the
/// whole import at best partial.
pub proof fn lemma_partial_source_not_full_success(rs: Seq<SourceReportV>, k: int, j: int)
    requires
        0 <= k < rs.len(),
        0 <= j < rs[k].diagnostics.len(),
        diag_is_partial(rs[k].diagnostics[j]),
    ensures
        spec_source_is_partial(rs[k]),
        import_status(rs) != ImportStatus::FullSuccess,
{
    assert(spec_source_is_partial(rs[k]));
}

/// A directory with an entry that could not be listed, inspected or read
/// never makes an import a full success: its report is partial, so the
/// import is partial (or imported nothing at all).
pub proof fn lemma_entry_failure_not_full_success(rs: Seq<SourceReportV>, src: ImportSource, exts: Seq<String>, k: int)
    requires
        0 <= k < rs.len(),
        rs[k] == source_report(src, exts),
        src is Directory,
        src->listing is Ok,
        dir_diags(src->listing->Ok_0@, exts).len() > 0,
    ensures
        spec_source_is_partial(rs[k]),
        import_status(rs) != ImportStatus::FullSuccess,
{
    let es = src->listing->Ok_0@;
    lemma_dir_diags_partial(es, exts);
    assert(rs[k].diagnostics == dir_diags(es, exts));
    assert(diag_is_partial(rs[k].diagnostics[0]));
    assert(spec_source_is_partial(rs[k]));
}

} // verus!
