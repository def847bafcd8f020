//! Typed facts about metadata that could not be applied as requested, and
//! the bucket labels of the archive format.
use vstd::prelude::*;
use crate::json::JsonValue;
use crate::model::{Bucket, Pad, PadV};
use crate::patch::{patched, ParentPolicy, PatchWarningV, MetadataPatchWarning};
use crate::text::{lit, str_eq, string_from_chars};

verus! {

/// How serious a metadata-application outcome is.
#[derive(Clone, Copy, Debug, PartialEq, Eq, Structural)]
pub enum MetadataWarningSeverity {
    Info,
    Warning,
}

/// The area of metadata a warning concerns.
#[derive(Clone, Copy, Debug, PartialEq, Eq, Structural)]
pub enum MetadataWarningCategory {
    Metadata,
    Field,
    Tags,
    Parent,
}

/// Why a metadata value was not applied as requested.
#[derive(Clone, Copy, Debug, PartialEq, Eq, Structural)]
pub enum MetadataWarningReason {
    NotAnObject,
    InvalidValue,
    NonStringEntries,
    OutsideImportSet,
}

/// One metadata-application warning, labelled with the source it came from.
#[derive(Debug, PartialEq, Eq)]
pub struct MetadataApplicationWarning {
    pub source_label: String,
    pub category: MetadataWarningCategory,
    pub reason: MetadataWarningReason,
    pub field: Option<String>,
    pub count: Option<usize>,
    pub severity: MetadataWarningSeverity,
}

pub struct WarningV {
    pub source_label: Seq<char>,
    pub category: MetadataWarningCategory,
    pub reason: MetadataWarningReason,
    pub field: Option<Seq<char>>,
    pub count: Option<usize>,
    pub severity: MetadataWarningSeverity,
}

pub open spec fn opt_text(s: Option<String>) -> Option<Seq<char>> {
    match s {
        Some(t) => Some(t@),
        None => None,
    }
}

impl View for MetadataApplicationWarning {
    type V = WarningV;

    open spec fn view(&self) -> WarningV {
        WarningV {
            source_label: self.source_label@,
            category: self.category,
            reason: self.reason,
            field: opt_text(self.field),
            count: self.count,
            severity: self.severity,
        }
    }
}

pub open spec fn application_warnings_view(v: Seq<MetadataApplicationWarning>) -> Seq<WarningV> {
    v.map_values(|w: MetadataApplicationWarning| w@)
}

/// The typed fact a metadata warning stands for, labelled with its source:
/// a non-object is a metadata warning; a bad id or field an invalid value of
/// that field; non-string tags are counted; an orphaned parent lies outside
/// the import set and only informs.
pub open spec fn warning_fact_of(w: PatchWarningV, label: Seq<char>) -> WarningV {
    let (category, reason, field, count) = match w {
        PatchWarningV::NotAnObject => (MetadataWarningCategory::Metadata, MetadataWarningReason::NotAnObject, None, None),
        PatchWarningV::InvalidId => (MetadataWarningCategory::Field, MetadataWarningReason::InvalidValue, Some("id"@), None),
        PatchWarningV::InvalidField(f) => (MetadataWarningCategory::Field, MetadataWarningReason::InvalidValue, Some(f), None),
        PatchWarningV::NonStringTags(n) => (
            MetadataWarningCategory::Tags,
            MetadataWarningReason::NonStringEntries,
            Some("tags"@),
            Some(n),
        ),
        PatchWarningV::ParentOrphaned => (
            MetadataWarningCategory::Parent,
            MetadataWarningReason::OutsideImportSet,
            Some("parent_id"@),
            None,
        ),
    };
    WarningV {
        source_label: label,
        category,
        reason,
        field,
        count,
        severity: if w is ParentOrphaned {
            MetadataWarningSeverity::Info
        } else {
            MetadataWarningSeverity::Warning
        },
    }
}

fn text(s: &str) -> (r: String)
    ensures
        r@ == s@,
{
    string_from_chars(&lit(s))
}

/// The typed fact of a metadata warning (see [`warning_fact_of`]).
fn warning_fact(warning: MetadataPatchWarning, source_label: &str) -> (r: MetadataApplicationWarning)
    ensures
        r@ == warning_fact_of(warning@, source_label@),
{
    let info = warning.is_info();
    let (category, reason, field, count) = match warning {
        MetadataPatchWarning::NotAnObject => (MetadataWarningCategory::Metadata, MetadataWarningReason::NotAnObject, None, None),
        MetadataPatchWarning::InvalidId => (
            MetadataWarningCategory::Field,
            MetadataWarningReason::InvalidValue,
            Some(text("id")),
            None,
        ),
        MetadataPatchWarning::InvalidField(f) => (MetadataWarningCategory::Field, MetadataWarningReason::InvalidValue, Some(f), None),
        MetadataPatchWarning::NonStringTags(n) => (
            MetadataWarningCategory::Tags,
            MetadataWarningReason::NonStringEntries,
            Some(text("tags")),
            Some(n),
        ),
        MetadataPatchWarning::ParentOrphaned => (
            MetadataWarningCategory::Parent,
            MetadataWarningReason::OutsideImportSet,
            Some(text("parent_id")),
            None,
        ),
    };
    MetadataApplicationWarning {
        source_label: text(source_label),
        category,
        reason,
        field,
        count,
        severity: if info {
            MetadataWarningSeverity::Info
        } else {
            MetadataWarningSeverity::Warning
        },
    }
}

/// Applies JSON metadata to a pad (see [`patched`]) and returns each warning
/// as a typed fact labelled with the source (see [`warning_fact_of`]).
pub fn apply_metadata_defensively(
    pad: &mut Pad,
    value: &JsonValue,
    parent_policy: &ParentPolicy,
    source_label: &str,
) -> (r: Vec<MetadataApplicationWarning>)
    ensures
        final(pad)@ == (PadV { metadata: patched(old(pad)@.metadata, *value, parent_policy@).0, ..old(pad)@ }),
        application_warnings_view(r@) == patched(old(pad)@.metadata, *value, parent_policy@).1.map_values(
            |w: PatchWarningV| warning_fact_of(w, source_label@),
        ),
{
    let mut meta = pad.metadata.duplicate();
    let mut warnings = meta.apply_json_patch(value, parent_policy);
    pad.metadata = meta;
    let ghost wv = crate::patch::patch_warnings_view(warnings@);
    let mut out: Vec<MetadataApplicationWarning> = Vec::new();
    let mut k: usize = 0;
    let n = warnings.len();
    while warnings.len() > 0
        invariant
            wv.len() == n,
            k + warnings@.len() == n,
            crate::patch::patch_warnings_view(warnings@) == wv.skip(k as int),
            application_warnings_view(out@) == wv.take(k as int).map_values(
                |w: PatchWarningV| warning_fact_of(w, source_label@),
            ),
        decreases warnings.len(),
    {
        let ghost before = warnings@;
        let w = warnings.remove(0);
        proof {
            assert(crate::patch::patch_warnings_view(before)[0] == wv.skip(k as int)[0]);
            assert(w@ == wv[k as int]);
            assert forall|j: int| 0 <= j < warnings@.len() implies #[trigger] crate::patch::patch_warnings_view(warnings@)[j]
                == wv.skip(k + 1)[j] by {
                assert(warnings@[j] == before[j + 1]);
                assert(crate::patch::patch_warnings_view(before)[j + 1] == wv.skip(k as int)[j + 1]);
            }
            assert(crate::patch::patch_warnings_view(warnings@) =~= wv.skip(k + 1));
        }
        let ghost prev = out@;
        out.push(warning_fact(w, source_label));
        proof {
            assert(wv.take(k + 1) =~= wv.take(k as int).push(wv[k as int]));
            assert(application_warnings_view(out@) =~= application_warnings_view(prev).push(
                warning_fact_of(wv[k as int], source_label@),
            ));
            assert(wv.take(k + 1).map_values(|w: PatchWarningV| warning_fact_of(w, source_label@))
                =~= wv.take(k as int).map_values(|w: PatchWarningV| warning_fact_of(w, source_label@)).push(
                warning_fact_of(wv[k as int], source_label@),
            ));
        }
        k += 1;
    }
    proof {
        assert(wv.take(k as int) =~= wv);
    }
    out
}

/// The bucket an archive label names: `Archived` and `Deleted` name their
/// buckets; every other label means the active bucket.
pub open spec fn bucket_of_label(s: Seq<char>) -> Bucket {
    if s == "Archived"@ {
        Bucket::Archived
    } else if s == "Deleted"@ {
        Bucket::Deleted
    } else {
        Bucket::Active
    }
}

/// Reads a bucket label of the archive format (see [`bucket_of_label`]).
pub fn parse_bucket_or_active(s: &str) -> (r: Bucket)
    ensures
        r == bucket_of_label(s@),
{
    if str_eq(s, "Archived") {
        Bucket::Archived
    } else if str_eq(s, "Deleted") {
        Bucket::Deleted
    } else {
        Bucket::Active
    }
}

} // verus!
