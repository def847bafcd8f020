//! The JSON archive format: a gzip-compressed tar holding `padz/db.json`
//! (this schema) and the raw pad files under `padz/pads/`.
//!
//! Per-pad metadata stays a JSON value, so that one malformed field never
//! poisons a whole pad: the importer applies it field by field.
use vstd::prelude::*;
use crate::json::JsonValue;

verus! {

/// The schema version written into archives.
pub const SCHEMA_VERSION: u32 = 1;

/// The archive descriptor stored as `padz/db.json`.
#[derive(Debug)]
pub struct Archive {
    pub schema_version: u32,
    /// When the archive was written, in milliseconds since the Unix epoch.
    pub exported_at: i64,
    pub padz_version: String,
    pub pads: Vec<PadEntry>,
    pub tags: Vec<TagRegistryEntry>,
}

/// One pad of an archive: its file inside the archive, the bucket it lived
/// in, and its metadata as JSON.
#[derive(Debug)]
pub struct PadEntry {
    /// Path inside the archive, such as `pads/pad-<uuid>.txt`.
    pub file: String,
    pub bucket: String,
    pub metadata: JsonValue,
}

/// A tag registry entry carried by an archive.
#[derive(Debug)]
pub struct TagRegistryEntry {
    pub name: String,
    /// Creation time in milliseconds since the Unix epoch.
    pub created_at: i64,
}

/// The bucket an archive entry gets when its descriptor names none.
pub fn default_bucket() -> (r: String)
    ensures
        r@ == "Active"@,
{
    crate::text::string_from_chars(&crate::text::lit("Active"))
}

} // verus!
