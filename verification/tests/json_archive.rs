use padz::commands::metadata_apply::MetadataWarningSeverity;
use padz::commands::metadata_schema::{Archive, PadEntry, TagRegistryEntry, SCHEMA_VERSION};
use padz::commands::{create, NestingMode};
use padz::export::json_archive::{json_archive_contents, metadata_json, pack_json_archive, run_json, JsonExport};
use padz::helpers::NestedPad;
use padz::import::archive::{
    import_json_archive, is_json_archive_name, pad_id_from_entry, unpack_json_archive, ArchiveEntryError, ArchiveRead,
};
use padz::import::{
    run, ArchiveEntrySkipReason, ImportDiagnostic, ImportInput, ImportReport, ImportSourceKind, ImportSourceStatus,
    ImportStatus, IoFailure, TagRegistryMergeStatus,
};
use padz::index::{DisplayIndex, PadSelector};
use padz::json::JsonValue;
use padz::model::{uuid_text, Bucket, Pad, Scope, TodoStatus};
use padz::store::Store;
use padz::tags::{TagEntry, TagRegistry};
use padz::tree::DisplayPad;

fn add(store: &mut Store, title: &str, body: &str, parent: Option<PadSelector>) {
    create::run(store, Scope::Project, title.to_string(), body.to_string(), parent).unwrap();
}

fn text(s: &str) -> JsonValue {
    JsonValue::String(s.to_string())
}

fn object(members: Vec<(&str, JsonValue)>) -> JsonValue {
    JsonValue::Object(members.into_iter().map(|(k, v)| (k.to_string(), v)).collect())
}

fn entry(file: &str, metadata: JsonValue) -> PadEntry {
    PadEntry { file: file.to_string(), bucket: "Active".to_string(), metadata }
}

fn archive_of(pads: Vec<PadEntry>, tags: Vec<TagRegistryEntry>) -> Archive {
    Archive { schema_version: 1, exported_at: 0, padz_version: "1.9.0".to_string(), pads, tags }
}

fn file(path: &str, content: &[u8]) -> (String, Vec<u8>) {
    (format!("padz/{path}"), content.to_vec())
}

fn import_archive(store: &mut Store, registry: &mut TagRegistry, archive: Archive, files: Vec<(String, Vec<u8>)>) -> ImportReport {
    let inputs = vec![ImportInput::Archive {
        path: "export.tar.gz".to_string(),
        read: ArchiveRead::Read { archive, files },
    }];
    run(store, registry, Scope::Project, inputs, &vec![".txt".to_string()]).unwrap()
}

/// Exports the selected pads of `src` and imports the archive into a fresh
/// store and registry.
fn roundtrip(src: &Store, src_tags: &TagRegistry, selectors: Vec<PadSelector>) -> (Store, TagRegistry, ImportReport) {
    let export = run_json(src, src_tags, Scope::Project, &selectors, NestingMode::Tree, "1.9.0").unwrap();
    let JsonExport::Contents { archive, files, .. } = export else {
        panic!("expected archive contents");
    };
    let mut dst = Store::new();
    let mut dst_tags = TagRegistry::new();
    let report = import_archive(&mut dst, &mut dst_tags, archive, files);
    (dst, dst_tags, report)
}

#[test]
fn archive_entry_skip_is_typed_and_other_entries_continue() {
    let good_id = uuid_text(0x1111_2222_3333_4444_5555_6666_7777_8888);
    let missing_id = uuid_text(0x9999_aaaa_bbbb_cccc_dddd_eeee_ffff_0000);
    let good_file = format!("pads/pad-{good_id}.txt");
    let missing_file = format!("pads/pad-{missing_id}.txt");
    let archive = archive_of(
        vec![
            entry(&good_file, object(vec![("id", text(&good_id))])),
            entry(&missing_file, object(vec![("id", text(&missing_id))])),
        ],
        vec![],
    );
    let mut store = Store::new();
    let mut registry = TagRegistry::new();
    let report = import_archive(&mut store, &mut registry, archive, vec![file(&good_file, b"Good\n\nBody")]);

    assert_eq!(report.status, ImportStatus::PartialSuccess);
    assert_eq!(report.total_imported, 1);
    assert!(report.sources[0].diagnostics.iter().any(|diagnostic| matches!(
        diagnostic,
        ImportDiagnostic::ArchiveEntrySkipped { entry, reason: ArchiveEntrySkipReason::MissingFile, .. }
            if entry == &missing_file
    )));
    let pads = store.list_pads(Scope::Project, Bucket::Active).unwrap();
    assert_eq!(pads.len(), 1);
    assert_eq!(pads[0].metadata.title, "Good");
}

#[test]
fn import_test_json_roundtrip_preserves_metadata() {
    let mut src = Store::new();
    add(&mut src, "Alpha", "Alpha body", None);
    let mut pad = src.list_pads(Scope::Project, Bucket::Active).unwrap().remove(0);
    let pad_id = pad.metadata.id;
    pad.metadata.is_pinned = true;
    pad.metadata.pinned_at = Some(1_776_816_000_000);
    pad.metadata.delete_protected = true;
    pad.metadata.status = TodoStatus::Done;
    pad.metadata.tags = vec!["work".to_string()];
    src.save_pad(&pad, Scope::Project, Bucket::Active).unwrap();
    let mut src_tags = TagRegistry::new();
    src_tags.save_tags(Scope::Project, vec![TagEntry { name: "work".to_string(), created_at: 1_776_816_000_000 }]).unwrap();

    let (dst, dst_tags, res) = roundtrip(&src, &src_tags, vec![]);
    assert_eq!(res.status, ImportStatus::FullSuccess);
    assert_eq!(res.total_imported, 1);
    assert!(res.sources[0].diagnostics.iter().any(|diagnostic| matches!(
        diagnostic,
        ImportDiagnostic::TagRegistryMerge { status: TagRegistryMergeStatus::Merged, added: 1, .. }
    )));

    let pads = dst.list_pads(Scope::Project, Bucket::Active).unwrap();
    assert_eq!(pads.len(), 1);
    let imported = &pads[0];
    assert_eq!(imported.metadata.id, pad_id, "uuid preserved");
    assert_eq!(imported.metadata.title, "Alpha");
    assert!(imported.metadata.is_pinned);
    assert_eq!(imported.metadata.pinned_at, Some(1_776_816_000_000));
    assert!(imported.metadata.delete_protected);
    assert_eq!(imported.metadata.status, TodoStatus::Done);
    assert_eq!(imported.metadata.tags, vec!["work"]);
    assert_eq!(imported.metadata.created_at, pad.metadata.created_at);
    assert_eq!(imported.content, pad.content);

    let tags = dst_tags.load_tags(Scope::Project).unwrap();
    assert_eq!(tags.len(), 1);
    assert_eq!(tags[0].name, "work");
}

#[test]
fn import_test_json_roundtrip_preserves_parent() {
    let mut src = Store::new();
    add(&mut src, "Parent", "P body", None);
    add(&mut src, "Child", "C body", Some(PadSelector::Path(vec![DisplayIndex::Regular(1)])));
    let parent_id = src
        .list_pads(Scope::Project, Bucket::Active)
        .unwrap()
        .iter()
        .find(|p| p.metadata.title == "Parent")
        .unwrap()
        .metadata
        .id;

    let (dst, _, _) = roundtrip(&src, &TagRegistry::new(), vec![]);
    let pads = dst.list_pads(Scope::Project, Bucket::Active).unwrap();
    let child = pads.iter().find(|p| p.metadata.title == "Child").unwrap();
    assert_eq!(child.metadata.parent_id, Some(parent_id));
}

#[test]
fn import_test_json_orphans_child_when_parent_not_in_archive() {
    let mut src = Store::new();
    add(&mut src, "Parent", "P body", None);
    add(&mut src, "Child", "C body", Some(PadSelector::Path(vec![DisplayIndex::Regular(1)])));

    let child_only = vec![PadSelector::Path(vec![DisplayIndex::Regular(1), DisplayIndex::Regular(1)])];
    let (dst, _, report) = roundtrip(&src, &TagRegistry::new(), child_only);
    let pads = dst.list_pads(Scope::Project, Bucket::Active).unwrap();
    assert_eq!(pads.len(), 1);
    assert_eq!(pads[0].metadata.title, "Child");
    assert_eq!(pads[0].metadata.parent_id, None, "orphaned child should have no parent");
    // An orphaned parent only informs: the import is still a full success.
    assert_eq!(report.status, ImportStatus::FullSuccess);
    assert!(report.sources[0].diagnostics.iter().any(|diagnostic| matches!(
        diagnostic,
        ImportDiagnostic::MetadataWarning { warning } if warning.severity == MetadataWarningSeverity::Info
    )));
}

#[test]
fn import_test_json_import_tolerates_bad_metadata_field() {
    let uuid = uuid_text(0x0123_4567_89ab_cdef_0123_4567_89ab_cdef);
    let file_rel = format!("pads/pad-{uuid}.txt");
    let metadata = object(vec![
        ("id", text(&uuid)),
        ("created_at", text("2026-04-22T00:00:00Z")),
        ("updated_at", text("2026-04-22T00:00:00Z")),
        ("is_pinned", JsonValue::Bool(false)),
        ("pinned_at", JsonValue::Null),
        ("delete_protected", JsonValue::Bool(false)),
        ("parent_id", JsonValue::Null),
        ("title", text("Alpha")),
        ("status", text("NotARealStatus")),
        ("tags", JsonValue::Array(vec![])),
        ("unknown_field", text("future-padz")),
    ]);
    let archive = archive_of(vec![entry(&file_rel, metadata)], vec![]);
    let mut dst = Store::new();
    let mut registry = TagRegistry::new();
    let res = import_archive(&mut dst, &mut registry, archive, vec![file(&file_rel, b"Alpha\n\nBody")]);
    assert_eq!(res.status, ImportStatus::PartialSuccess);
    assert_eq!(res.total_imported, 1);
    assert!(res.sources[0].diagnostics.iter().any(|diagnostic| matches!(
        diagnostic,
        ImportDiagnostic::MetadataWarning { warning } if warning.field.as_deref() == Some("status")
    )));

    let pads = dst.list_pads(Scope::Project, Bucket::Active).unwrap();
    assert_eq!(pads.len(), 1);
    assert_eq!(uuid_text(pads[0].metadata.id), uuid, "uuid preserved");
    assert_eq!(pads[0].metadata.status, TodoStatus::Planned);
    assert_eq!(pads[0].metadata.created_at, 1_776_816_000_000);
}

#[test]
fn import_test_json_import_only_exports_referenced_tags() {
    let mut src = Store::new();
    add(&mut src, "Tagged", "Body", None);
    let mut src_tags = TagRegistry::new();
    let tag = |name: &str| TagEntry { name: name.to_string(), created_at: 0 };
    src_tags.save_tags(Scope::Project, vec![tag("used"), tag("unused1"), tag("unused2")]).unwrap();
    let mut pad = src.list_pads(Scope::Project, Bucket::Active).unwrap().remove(0);
    pad.metadata.tags = vec!["used".to_string()];
    src.save_pad(&pad, Scope::Project, Bucket::Active).unwrap();

    let (_, dst_tags, _) = roundtrip(&src, &src_tags, vec![]);
    let tags = dst_tags.load_tags(Scope::Project).unwrap();
    let names: Vec<&str> = tags.iter().map(|t| t.name.as_str()).collect();
    assert!(names.contains(&"used"));
    assert!(!names.contains(&"unused1"));
    assert!(!names.contains(&"unused2"));
}

#[test]
fn json_export_of_nothing_is_empty() {
    let store = Store::new();
    let export = run_json(&store, &TagRegistry::new(), Scope::Project, &vec![], NestingMode::Tree, "1.9.0").unwrap();
    assert!(matches!(export, JsonExport::Empty));
}

#[test]
fn json_export_stores_each_pad_once_with_bucket_and_file() {
    let mut store = Store::new();
    add(&mut store, "Alpha", "Body", None);
    let pad = store.list_pads(Scope::Project, Bucket::Active).unwrap().remove(0);
    let display = DisplayPad { pad: pad.duplicate(), index: DisplayIndex::Regular(1), matches: None, children: vec![] };
    let pinned = DisplayPad { pad: pad.duplicate(), index: DisplayIndex::Pinned(1), matches: None, children: vec![] };
    let nested = vec![NestedPad { pad: pinned, depth: 0 }, NestedPad { pad: display, depth: 0 }];
    let (archive, files) = json_archive_contents(&store, &TagRegistry::new(), Scope::Project, &nested, 42, "1.9.0");
    assert_eq!(archive.schema_version, SCHEMA_VERSION);
    assert_eq!(archive.exported_at, 42);
    assert_eq!(archive.padz_version, "1.9.0");
    assert_eq!(archive.pads.len(), 1);
    let file_name = format!("pads/pad-{}.txt", uuid_text(pad.metadata.id));
    assert_eq!(archive.pads[0].file, file_name);
    assert_eq!(archive.pads[0].bucket, "Active");
    assert_eq!(pad_id_from_entry(&archive.pads[0]), Some(pad.metadata.id));
    assert_eq!(files, vec![(format!("padz/{file_name}"), b"Alpha\n\nBody".to_vec())]);
    assert!(archive.tags.is_empty());
}

#[test]
fn metadata_json_lists_fields_in_order() {
    let mut pad = Pad::new("Alpha".to_string(), "Body".to_string());
    pad.metadata.created_at = 1_776_816_000_000;
    pad.metadata.updated_at = 1_776_816_000_500;
    pad.metadata.status = TodoStatus::InProgress;
    let JsonValue::Object(members) = metadata_json(&pad.metadata) else {
        panic!("expected an object");
    };
    let keys: Vec<&str> = members.iter().map(|(k, _)| k.as_str()).collect();
    assert_eq!(
        keys,
        vec![
            "id",
            "created_at",
            "updated_at",
            "is_pinned",
            "pinned_at",
            "delete_protected",
            "parent_id",
            "title",
            "status",
            "tags"
        ]
    );
    assert_eq!(members[1].1, text("2026-04-22T00:00:00.000Z"));
    assert_eq!(members[2].1, text("2026-04-22T00:00:00.500Z"));
    assert_eq!(members[4].1, JsonValue::Null);
    assert_eq!(members[8].1, text("InProgress"));
}

#[test]
fn packed_archive_unpacks_to_its_files_and_descriptor() {
    let files = vec![file("pads/pad-a.txt", b"A\n\nBody"), file("pads/pad-b.txt", b"B")];
    let db = b"{\"schema_version\":1}".to_vec();
    let bytes = pack_json_archive(&files, &db).unwrap();
    let (unpacked, found) = unpack_json_archive(&bytes).unwrap();
    assert_eq!(found, db);
    assert_eq!(unpacked.len(), 3);
    assert_eq!(unpacked[..2], files[..]);
    assert_eq!(unpacked[2].0, "padz/db.json");
}

#[test]
fn unreadable_archive_bytes_are_an_invalid_archive() {
    let err = unpack_json_archive(&b"not a gzip stream".to_vec()).unwrap_err();
    assert!(err.message().starts_with("Invalid archive"), "{}", err.message());
}

#[test]
fn archive_without_descriptor_is_refused() {
    let mut builder = tar::Builder::new(flate2::write::GzEncoder::new(Vec::new(), flate2::Compression::default()));
    let content = b"X";
    let mut header = tar::Header::new_gnu();
    header.set_size(content.len() as u64);
    header.set_mode(0o644);
    header.set_cksum();
    builder.append_data(&mut header, "padz/pads/x.txt", &content[..]).unwrap();
    let bytes = builder.into_inner().unwrap().finish().unwrap();
    let err = unpack_json_archive(&bytes).unwrap_err();
    assert_eq!(err.message(), "Archive does not contain db.json");
}

#[test]
fn bare_descriptor_is_found_too() {
    let mut builder = tar::Builder::new(flate2::write::GzEncoder::new(Vec::new(), flate2::Compression::default()));
    let db = b"{}";
    let mut header = tar::Header::new_gnu();
    header.set_size(db.len() as u64);
    header.set_mode(0o644);
    header.set_cksum();
    builder.append_data(&mut header, "db.json", &db[..]).unwrap();
    let bytes = builder.into_inner().unwrap().finish().unwrap();
    let (files, found) = unpack_json_archive(&bytes).unwrap();
    assert_eq!(found, b"{}".to_vec());
    assert_eq!(files.len(), 1);
}

#[test]
fn json_archive_names_are_recognized_case_insensitively() {
    assert!(is_json_archive_name("export.tar.gz"));
    assert!(is_json_archive_name("EXPORT.TGZ"));
    assert!(!is_json_archive_name("notes.md"));
    assert!(!is_json_archive_name("archive.tar"));
}

#[test]
fn broken_and_unread_archives_are_reported_without_importing() {
    let mut store = Store::new();
    let mut registry = TagRegistry::new();
    let inputs = vec![
        ImportInput::Archive { path: "a.tar.gz".to_string(), read: ArchiveRead::Broken("Invalid db.json: eof".to_string()) },
        ImportInput::Archive {
            path: "b.tgz".to_string(),
            read: ArchiveRead::Unread(IoFailure { invalid_data: false, detail: "denied".to_string() }),
        },
    ];
    let report = run(&mut store, &mut registry, Scope::Project, inputs, &vec![]).unwrap();
    assert_eq!(report.status, ImportStatus::NoImports);
    assert_eq!(report.sources[0].source_kind, ImportSourceKind::JsonArchive);
    assert_eq!(report.sources[0].status, ImportSourceStatus::Invalid);
    assert_eq!(report.sources[0].detail.as_deref(), Some("Invalid db.json: eof"));
    assert_eq!(report.sources[1].status, ImportSourceStatus::Unreadable);
    assert_eq!(report.sources[1].detail.as_deref(), Some("denied"));
}

#[test]
fn archive_entry_failures_have_reasons_and_messages() {
    let missing = ArchiveEntryError::MissingFile("pads/x.txt".to_string());
    assert_eq!(missing.reason(), ArchiveEntrySkipReason::MissingFile);
    assert_eq!(missing.message(), "Missing file: pads/x.txt");
    let encoding = ArchiveEntryError::InvalidEncoding("bad byte".to_string());
    assert_eq!(encoding.reason(), ArchiveEntrySkipReason::InvalidEncoding);
    assert_eq!(encoding.message(), "Non-UTF-8 content: bad byte");
    assert_eq!(ArchiveEntryError::EmptyContent.message(), "Empty pad content");
}

#[test]
fn archive_entries_with_bad_bytes_or_blank_content_are_skipped() {
    let archive = archive_of(
        vec![entry("pads/bin.txt", object(vec![])), entry("pads/blank.txt", object(vec![]))],
        vec![],
    );
    let files = vec![file("pads/bin.txt", &[0xff, 0xfe, 0x00]), file("pads/blank.txt", b"  \n\n ")];
    let mut store = Store::new();
    let mut registry = TagRegistry::new();
    let result = import_json_archive(&mut store, &mut registry, Scope::Project, &archive, &files);
    assert_eq!(result.imported, 0);
    assert!(matches!(
        &result.diagnostics[0],
        ImportDiagnostic::ArchiveEntrySkipped { reason: ArchiveEntrySkipReason::InvalidEncoding, .. }
    ));
    assert!(matches!(
        &result.diagnostics[1],
        ImportDiagnostic::ArchiveEntrySkipped { reason: ArchiveEntrySkipReason::EmptyContent, detail, .. }
            if detail == "Empty pad content"
    ));
}

#[test]
fn archive_tags_already_registered_merge_none() {
    let id = uuid_text(7);
    let f = format!("pads/pad-{id}.txt");
    let archive = archive_of(
        vec![entry(&f, object(vec![("id", text(&id))]))],
        vec![TagRegistryEntry { name: "work".to_string(), created_at: 5 }],
    );
    let mut store = Store::new();
    let mut registry = TagRegistry::new();
    registry.save_tags(Scope::Project, vec![TagEntry { name: "work".to_string(), created_at: 1 }]).unwrap();
    let result = import_json_archive(&mut store, &mut registry, Scope::Project, &archive, &vec![file(&f, b"T")]);
    assert_eq!(result.imported, 1);
    assert!(matches!(
        result.diagnostics.last(),
        Some(ImportDiagnostic::TagRegistryMerge { status: TagRegistryMergeStatus::Merged, added: 0, detail: None })
    ));
    let tags = registry.load_tags(Scope::Project).unwrap();
    assert_eq!(tags.len(), 1);
    assert_eq!(tags[0].created_at, 1);
}

#[test]
fn archive_entry_lands_in_its_bucket() {
    let id = uuid_text(9);
    let f = format!("pads/pad-{id}.txt");
    let mut e = entry(&f, object(vec![("id", text(&id))]));
    e.bucket = "Archived".to_string();
    let archive = archive_of(vec![e], vec![]);
    let mut store = Store::new();
    let mut registry = TagRegistry::new();
    let result = import_json_archive(&mut store, &mut registry, Scope::Project, &archive, &vec![file(&f, b"Kept")]);
    assert_eq!(result.imported, 1);
    assert!(result.diagnostics.is_empty());
    assert_eq!(store.list_pads(Scope::Project, Bucket::Archived).unwrap().len(), 1);
    assert_eq!(store.list_pads(Scope::Project, Bucket::Active).unwrap().len(), 0);
}

#[test]
fn json_export_names_files_with_their_stored_extension() {
    let mut store = Store::new();
    add(&mut store, "Alpha", "Body", None);
    let pad = store.list_pads(Scope::Project, Bucket::Active).unwrap().remove(0);
    store.set_extension(pad.metadata.id, Scope::Project, "md").unwrap();
    let display = DisplayPad { pad: pad.duplicate(), index: DisplayIndex::Regular(1), matches: None, children: vec![] };
    let nested = vec![NestedPad { pad: display, depth: 0 }];
    let (archive, files) = json_archive_contents(&store, &TagRegistry::new(), Scope::Project, &nested, 42, "1.9.0");
    let file_name = format!("pads/pad-{}.md", uuid_text(pad.metadata.id));
    assert_eq!(archive.pads[0].file, file_name);
    assert_eq!(files[0].0, format!("padz/{file_name}"));
}
