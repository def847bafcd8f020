use padz::commands::doctor::{self, DoctorOutcome};
use padz::commands::init::{self, InitializationOutcome};
use padz::commands::metadata_apply::parse_bucket_or_active;
use padz::commands::PadzPaths;
use padz::import::{
    import_content, import_directory_entries, run, source_error_status, source_is_partial, summarize,
    unreadable_directory_report, DirectoryEntry, DirectoryEntrySkipReason, EntryInspection, FileImportResult,
    ImportDiagnostic, ImportInput, ImportReport, ImportSource, ImportSourceKind, ImportSourceReport, ImportSourceStatus, ImportStatus,
    IoFailure,
};
use padz::model::{Bucket, Scope};
use padz::store::Store;
use padz::tags::TagRegistry;

fn import_content_simple(store: &mut Store, scope: Scope, raw: &str) -> FileImportResult {
    import_content(store, scope, raw, "", "<test>").unwrap()
}

fn import_sources(store: &mut Store, sources: Vec<ImportSource>, exts: &Vec<String>) -> ImportReport {
    let mut registry = TagRegistry::new();
    let inputs = sources.into_iter().map(ImportInput::Plain).collect();
    run(store, &mut registry, Scope::Project, inputs, exts).unwrap()
}

fn md() -> Vec<String> {
    vec![".md".to_string()]
}

fn file_entry(path: &str, ext: Option<&str>, content: &str) -> DirectoryEntry {
    DirectoryEntry::Listed {
        path: path.to_string(),
        extension: ext.map(|e| e.to_string()),
        inspection: EntryInspection::File(Ok(content.to_string())),
    }
}

fn failure(invalid_data: bool, detail: &str) -> IoFailure {
    IoFailure { invalid_data, detail: detail.to_string() }
}

#[test]
fn import_test_import_content_extracts_title() {
    let mut store = Store::new();
    import_content_simple(&mut store, Scope::Project, "My Title\nLine 1\nLine 2");
    let pads = store.list_pads(Scope::Project, Bucket::Active).unwrap();
    assert_eq!(pads.len(), 1);
    assert_eq!(pads[0].metadata.title, "My Title");
    assert_eq!(pads[0].content, "My Title\n\nLine 1\nLine 2");
}

#[test]
fn import_test_import_content_trims_leading_blanks() {
    let mut store = Store::new();
    import_content_simple(&mut store, Scope::Project, "Title\n\n\nReal Content");
    let pads = store.list_pads(Scope::Project, Bucket::Active).unwrap();
    assert_eq!(pads.len(), 1);
    assert_eq!(pads[0].metadata.title, "Title");
    assert_eq!(pads[0].content, "Title\n\nReal Content");
}

#[test]
fn import_test_import_empty_content_returns_zero() {
    let mut store = Store::new();
    let result = import_content_simple(&mut store, Scope::Project, "   \n\n  ");
    assert_eq!(result.imported, 0);
    let pads = store.list_pads(Scope::Project, Bucket::Active).unwrap();
    assert_eq!(pads.len(), 0);
}

#[test]
fn unreadable_directory_report_retains_io_error_detail() {
    let report = unreadable_directory_report(
        "locked".to_string(),
        std::io::Error::new(std::io::ErrorKind::PermissionDenied, "permission denied while listing"),
    );
    assert_eq!(report.status, ImportSourceStatus::Unreadable);
    assert_eq!(report.detail.as_deref(), Some("permission denied while listing"));
}

#[test]
fn import_test_import_empty_paths_list() {
    let mut store = Store::new();
    let res = import_sources(&mut store, vec![], &md());
    assert_eq!(res.status, ImportStatus::NoImports);
    assert!(res.sources.is_empty());
    let pads = store.list_pads(Scope::Project, Bucket::Active).unwrap();
    assert_eq!(pads.len(), 0);
}

#[test]
fn import_test_import_from_directory() {
    let mut store = Store::new();
    let entries = vec![
        file_entry("dir/note1.md", Some("md"), "# Note 1\nContent 1"),
        file_entry("dir/note2.txt", Some("txt"), "Note 2\n\nContent 2"),
        file_entry("dir/ignored.foo", Some("foo"), "Ignored"),
    ];
    let sources = vec![ImportSource::Directory { path: "dir".to_string(), listing: Ok(entries) }];
    let res = import_sources(&mut store, sources, &vec![".md".to_string(), ".txt".to_string()]);

    assert_eq!(res.status, ImportStatus::FullSuccess);
    assert_eq!(res.total_imported, 2);
    assert_eq!(res.sources[0].source_kind, ImportSourceKind::Directory);
    assert_eq!(res.sources[0].processed_files.len(), 2);
    let pads = store.list_pads(Scope::Project, Bucket::Active).unwrap();
    assert_eq!(pads.len(), 2);
    assert!(pads.iter().any(|p| p.metadata.title == "# Note 1"));
    assert!(pads.iter().any(|p| p.metadata.title == "Note 2"));
}

#[test]
fn directory_entry_failures_are_typed_and_make_import_partial() {
    let mut store = Store::new();
    let entries = vec![
        file_entry("dir/imported.md", Some("md"), "Imported\n\nBody"),
        DirectoryEntry::Listed {
            path: "dir/invalid.md".to_string(),
            extension: Some("md".to_string()),
            inspection: EntryInspection::File(Err(failure(true, "stream did not contain valid UTF-8"))),
        },
        DirectoryEntry::Listed {
            path: "dir/vanished.md".to_string(),
            extension: Some("md".to_string()),
            inspection: EntryInspection::Failed(failure(false, "No such file or directory")),
        },
        DirectoryEntry::Unlisted(failure(false, "entry vanished while listing")),
    ];
    let directory = import_directory_entries(&mut store, Scope::Project, &entries, &md());

    assert_eq!(directory.imported, 1);
    assert_eq!(directory.processed_files, vec!["dir/imported.md".to_string()]);
    assert!(directory.diagnostics.iter().any(|d| matches!(
        d,
        ImportDiagnostic::DirectoryEntrySkipped {
            entry: Some(entry),
            reason: DirectoryEntrySkipReason::ImportFile,
            ..
        } if entry == "dir/invalid.md"
    )));
    assert!(directory.diagnostics.iter().any(|d| matches!(
        d,
        ImportDiagnostic::DirectoryEntrySkipped {
            entry: Some(entry),
            reason: DirectoryEntrySkipReason::InspectEntry,
            ..
        } if entry == "dir/vanished.md"
    )));
    assert!(directory.diagnostics.iter().any(|d| matches!(
        d,
        ImportDiagnostic::DirectoryEntrySkipped { entry: None, reason: DirectoryEntrySkipReason::ReadEntry, .. }
    )));
    assert!(source_is_partial(&ImportSourceReport {
        source: "dir".to_string(),
        source_kind: ImportSourceKind::Directory,
        status: ImportSourceStatus::Imported,
        imported: directory.imported,
        processed_files: directory.processed_files,
        detail: None,
        diagnostics: directory.diagnostics,
    }));
}

#[test]
fn import_test_import_file_directly() {
    let mut store = Store::new();
    let sources = vec![ImportSource::File {
        path: "single.md".to_string(),
        extension: Some("md".to_string()),
        content: Ok("# Single\nContent".to_string()),
    }];
    let res = import_sources(&mut store, sources, &md());
    assert_eq!(res.status, ImportStatus::FullSuccess);
    assert_eq!(res.total_imported, 1);
    assert_eq!(res.sources[0].status, ImportSourceStatus::Imported);
    let pads = store.list_pads(Scope::Project, Bucket::Active).unwrap();
    assert_eq!(pads.len(), 1);
    assert_eq!(pads[0].metadata.title, "# Single");
}

#[test]
fn import_test_import_invalid_path() {
    let mut store = Store::new();
    let sources = vec![ImportSource::Missing { path: "missing.md".to_string() }];
    let res = import_sources(&mut store, sources, &md());
    assert_eq!(res.status, ImportStatus::NoImports);
    assert_eq!(res.sources[0].status, ImportSourceStatus::Missing);
}

#[test]
fn import_test_import_file_with_non_utf8_fails() {
    let mut store = Store::new();
    let sources = vec![ImportSource::File {
        path: "binary.md".to_string(),
        extension: Some("md".to_string()),
        content: Err(failure(true, "stream did not contain valid UTF-8")),
    }];
    let res = import_sources(&mut store, sources, &md());
    assert_eq!(res.status, ImportStatus::NoImports);
    assert_eq!(res.sources[0].status, ImportSourceStatus::Invalid);
}

#[test]
fn import_test_import_directory_skips_non_matching_extensions() {
    let mut store = Store::new();
    let entries = vec![
        file_entry("dir/note.json", Some("json"), "{\"title\": \"Test\"}"),
        file_entry("dir/README", None, "No Extension"),
    ];
    let sources = vec![ImportSource::Directory { path: "dir".to_string(), listing: Ok(entries) }];
    let res = import_sources(&mut store, sources, &md());
    assert_eq!(res.status, ImportStatus::NoImports);
    assert_eq!(res.sources[0].status, ImportSourceStatus::Skipped);
    let pads = store.list_pads(Scope::Project, Bucket::Active).unwrap();
    assert_eq!(pads.len(), 0);
}

#[test]
fn import_test_import_multiple_paths_mixed_validity() {
    let mut store = Store::new();
    let sources = vec![
        ImportSource::File {
            path: "valid.md".to_string(),
            extension: Some("md".to_string()),
            content: Ok("Valid Note\n\nContent".to_string()),
        },
        ImportSource::Missing { path: "nonexistent.md".to_string() },
    ];
    let res = import_sources(&mut store, sources, &md());
    assert_eq!(res.total_imported, 1);
    assert_eq!(res.status, ImportStatus::PartialSuccess);
    assert_eq!(res.sources[0].status, ImportSourceStatus::Imported);
    assert_eq!(res.sources[1].status, ImportSourceStatus::Missing);
    let pads = store.list_pads(Scope::Project, Bucket::Active).unwrap();
    assert_eq!(pads.len(), 1);
}

#[test]
fn import_test_import_directory_with_subdirs() {
    let mut store = Store::new();
    let entries = vec![
        DirectoryEntry::Listed { path: "dir/subdir".to_string(), extension: None, inspection: EntryInspection::NotAFile },
        file_entry("dir/root.md", Some("md"), "Root\n\nContent"),
    ];
    let sources = vec![ImportSource::Directory { path: "dir".to_string(), listing: Ok(entries) }];
    let res = import_sources(&mut store, sources, &md());
    assert_eq!(res.total_imported, 1);
    let pads = store.list_pads(Scope::Project, Bucket::Active).unwrap();
    assert_eq!(pads.len(), 1);
    assert_eq!(pads[0].metadata.title, "Root");
}

#[test]
fn import_test_import_directory_file_with_empty_content() {
    let mut store = Store::new();
    let entries = vec![
        file_entry("dir/empty.md", Some("md"), ""),
        file_entry("dir/whitespace.md", Some("md"), "   \n\n   "),
        file_entry("dir/valid.md", Some("md"), "Valid Title\n\nContent"),
    ];
    let sources = vec![ImportSource::Directory { path: "dir".to_string(), listing: Ok(entries) }];
    let res = import_sources(&mut store, sources, &md());
    assert_eq!(res.total_imported, 1);
    assert_eq!(res.sources[0].processed_files.len(), 3);
    let pads = store.list_pads(Scope::Project, Bucket::Active).unwrap();
    assert_eq!(pads.len(), 1);
    assert_eq!(pads[0].metadata.title, "Valid Title");
}

#[test]
fn import_test_import_file_with_no_extension() {
    let mut store = Store::new();
    let sources = vec![ImportSource::File {
        path: "NO_EXT".to_string(),
        extension: None,
        content: Ok("Title Without Ext\n\nContent".to_string()),
    }];
    let res = import_sources(&mut store, sources, &md());
    assert_eq!(res.total_imported, 1);
    let pads = store.list_pads(Scope::Project, Bucket::Active).unwrap();
    assert_eq!(pads[0].metadata.title, "Title Without Ext");
}

// --- further cases ---

#[test]
fn failed_directory_listing_reports_status_and_detail() {
    let mut store = Store::new();
    let sources = vec![
        ImportSource::Directory { path: "a".to_string(), listing: Err(failure(false, "denied")) },
        ImportSource::Directory { path: "b".to_string(), listing: Err(failure(true, "garbled")) },
    ];
    let res = import_sources(&mut store, sources, &md());
    assert_eq!(res.sources[0].status, ImportSourceStatus::Unreadable);
    assert_eq!(res.sources[0].detail.as_deref(), Some("denied"));
    assert_eq!(res.sources[1].status, ImportSourceStatus::Invalid);
    assert_eq!(res.sources[1].source_kind, ImportSourceKind::Directory);
    assert_eq!(res.status, ImportStatus::NoImports);
}

#[test]
fn source_error_status_follows_invalid_data() {
    assert_eq!(source_error_status(&failure(true, "x")), ImportSourceStatus::Invalid);
    assert_eq!(source_error_status(&failure(false, "x")), ImportSourceStatus::Unreadable);
}

#[test]
fn unreadable_directory_report_invalid_data_is_invalid() {
    let report = unreadable_directory_report(
        "d".to_string(),
        std::io::Error::new(std::io::ErrorKind::InvalidData, "bad bytes"),
    );
    assert_eq!(report.status, ImportSourceStatus::Invalid);
    assert_eq!(report.detail.as_deref(), Some("bad bytes"));
    assert_eq!(report.source_kind, ImportSourceKind::Directory);
}

#[test]
fn summarize_full_partial_and_none() {
    let ok = |n: usize, status: ImportSourceStatus| ImportSourceReport {
        source: "s".to_string(),
        source_kind: ImportSourceKind::File,
        status,
        imported: n,
        processed_files: vec![],
        detail: None,
        diagnostics: vec![],
    };
    assert_eq!(summarize(vec![ok(2, ImportSourceStatus::Imported)]).status, ImportStatus::FullSuccess);
    let mixed = summarize(vec![ok(2, ImportSourceStatus::Imported), ok(0, ImportSourceStatus::Skipped)]);
    assert_eq!(mixed.status, ImportStatus::PartialSuccess);
    assert_eq!(mixed.total_imported, 2);
    assert_eq!(summarize(vec![ok(0, ImportSourceStatus::Skipped)]).status, ImportStatus::NoImports);
}

#[test]
fn bucket_labels() {
    assert_eq!(parse_bucket_or_active("Archived"), Bucket::Archived);
    assert_eq!(parse_bucket_or_active("Deleted"), Bucket::Deleted);
    assert_eq!(parse_bucket_or_active("Active"), Bucket::Active);
    assert_eq!(parse_bucket_or_active("archived"), Bucket::Active);
}

#[test]
fn doctor_no_inconsistencies() {
    let mut store = Store::new();
    let result = doctor::run(&mut store, Scope::Project).unwrap();
    assert_eq!(result, DoctorOutcome::Clean { missing_files: 0, recovered_files: 0 });
}

#[test]
fn init_reports_scope_directory() {
    let paths = PadzPaths { project: Some("/p/.padz".to_string()), global: "/g".to_string(), home: None };
    assert_eq!(
        init::run(&paths, Scope::Global).unwrap(),
        InitializationOutcome::Initialized { scope: Scope::Global, store_path: "/g".to_string() }
    );
    assert_eq!(
        init::run(&paths, Scope::Project).unwrap(),
        InitializationOutcome::Initialized { scope: Scope::Project, store_path: "/p/.padz".to_string() }
    );
    let no_project = PadzPaths { project: None, global: "/g".to_string(), home: None };
    assert!(init::run(&no_project, Scope::Project).is_err());
}

#[test]
fn initialization_returns_scope_and_store_path() {
    let project = "/tmp/project/.padz".to_string();
    let paths = PadzPaths { project: Some(project.clone()), global: "/tmp/global".to_string(), home: None };
    let outcome = init::run(&paths, Scope::Project).unwrap();
    assert_eq!(outcome, InitializationOutcome::Initialized { scope: Scope::Project, store_path: project });
}

#[test]
fn test_link_rejects_self() {
    let project_padz = "/tmp/project-a/.padz".to_string();
    let result = init::check_link(Some(project_padz.clone()), project_padz, true, false);
    assert!(result.is_err());
    assert!(result.unwrap_err().message().contains("itself"));
}

#[test]
fn link_refusals_and_unlink() {
    let t = "/tmp/b/.padz".to_string();
    let not_init = init::check_link(None, t.clone(), false, false).unwrap_err().message();
    assert_eq!(not_init, "Target '/tmp/b/.padz' has not been initialized. Run `padz init` there first.");
    let chained = init::check_link(None, t.clone(), true, true).unwrap_err().message();
    assert!(chained.contains("Chained links are not supported"));
    assert_eq!(init::check_link(None, t.clone(), true, false).unwrap(), InitializationOutcome::Linked { target: t });
    assert_eq!(init::check_unlink(true).unwrap(), InitializationOutcome::Unlinked);
    assert_eq!(init::check_unlink(false).unwrap_err().message(), "No link exists in this project.");
}

#[test]
fn doctor_recovers_orphan_files() {
    let mut store = Store::new();
    let orphan_id = padz::index::parse_uuid("0b1c2d3e-4f50-4617-8293-a4b5c6d7e8f9").unwrap();
    store.write_content(orphan_id, Scope::Project, padz::model::Bucket::Active, "Orphan Title\n\nBody");
    let result = doctor::run(&mut store, Scope::Project).unwrap();
    assert_eq!(result, DoctorOutcome::Repaired { missing_files: 0, recovered_files: 1 });
    let pad = store.get_pad(orphan_id, Scope::Project, padz::model::Bucket::Active).unwrap();
    assert_eq!(pad.metadata.title, "Orphan Title");
    assert_eq!(pad.content, "Orphan Title\n\nBody");
    let again = doctor::run(&mut store, Scope::Project).unwrap();
    assert_eq!(again, DoctorOutcome::Clean { missing_files: 0, recovered_files: 0 });
}

#[test]
fn doctor_skips_blank_and_indexed_contents_and_other_scopes() {
    let mut store = Store::new();
    let blank = padz::index::parse_uuid("11111111-2222-4333-8444-555555555555").unwrap();
    let global = padz::index::parse_uuid("22222222-2222-4333-8444-555555555555").unwrap();
    store.write_content(blank, Scope::Project, padz::model::Bucket::Active, "   \n\n   ");
    store.write_content(global, Scope::Global, padz::model::Bucket::Archived, "Kept\n\nfor later");
    let result = doctor::run(&mut store, Scope::Project).unwrap();
    assert_eq!(result, DoctorOutcome::Clean { missing_files: 0, recovered_files: 0 });
    let result = doctor::run(&mut store, Scope::Global).unwrap();
    assert_eq!(result, DoctorOutcome::Repaired { missing_files: 0, recovered_files: 1 });
    assert!(store.get_pad(global, Scope::Global, padz::model::Bucket::Archived).is_ok());
}
