use padz::api::PadzApi;
use padz::commands::doctor::DoctorOutcome;
use padz::commands::get::{PadFilter, PadStatusFilter};
use padz::commands::{NestingMode, PadzPaths};
use padz::export::ExportOutcome;
use padz::index::DisplayIndex;
use padz::model::{Bucket, Pad, Scope};
use padz::store::Store;

fn test_paths() -> PadzPaths {
    PadzPaths { project: Some("/tmp/test".to_string()), global: "/tmp/global".to_string(), home: None }
}

fn make_api() -> PadzApi {
    PadzApi::new(Store::new(), test_paths())
}

fn all_filter(status: PadStatusFilter) -> PadFilter {
    PadFilter { status, search_term: None, todo_status: None, tags: None }
}

fn create_simple(name_check: &str) {
    let mut api = make_api();
    let result = api.create_pad(Scope::Project, "Test Title".into(), "Content".into(), None).unwrap();
    assert_eq!(result.affected_pads.len(), 1);
    assert_eq!(result.affected_pads[0].pad.metadata.title, name_check);
}

fn create_with_parent_string() {
    let mut api = make_api();
    api.create_pad(Scope::Project, "Parent".into(), "".into(), None).unwrap();
    let result = api.create_pad(Scope::Project, "Child".into(), "".into(), Some("1")).unwrap();
    assert_eq!(result.affected_pads.len(), 1);
    assert_eq!(result.affected_pads[0].pad.metadata.title, "Child");
    assert!(result.affected_pads[0].pad.metadata.parent_id.is_some());
}

fn get_pads_lists_created() {
    let mut api = make_api();
    api.create_pad(Scope::Project, "Test".into(), "".into(), None).unwrap();
    let result = api.get_pads(Scope::Project, PadFilter::default(), &vec![]).unwrap();
    assert_eq!(result.listed_pads.len(), 1);
}

fn pin_unpin() {
    let mut api = make_api();
    api.create_pad(Scope::Project, "Test".into(), "".into(), None).unwrap();
    let result = api.pin_pads(Scope::Project, &vec!["1"]).unwrap();
    assert_eq!(result.affected_pads.len(), 1);
    assert!(result.affected_pads[0].pad.metadata.is_pinned);
    let result = api.unpin_pads(Scope::Project, &vec!["p1"]).unwrap();
    assert_eq!(result.affected_pads.len(), 1);
    assert!(!result.affected_pads[0].pad.metadata.is_pinned);
}

fn purge_confirmed() {
    let mut api = make_api();
    api.create_pad(Scope::Project, "Test".into(), "".into(), None).unwrap();
    api.delete_pads(Scope::Project, &vec!["1"]).unwrap();
    let result = api.purge_pads(Scope::Project, &vec!["d1"], false, true, false);
    assert!(result.is_ok());
    let list = api.get_pads(Scope::Project, all_filter(PadStatusFilter::All), &vec![]).unwrap();
    assert_eq!(list.listed_pads.len(), 0);
}

fn purge_not_confirmed() {
    let mut api = make_api();
    api.create_pad(Scope::Project, "Test".into(), "".into(), None).unwrap();
    api.delete_pads(Scope::Project, &vec!["1"]).unwrap();
    let result = api.purge_pads(Scope::Project, &vec!["d1"], false, false, false);
    assert!(result.is_err());
    let err = result.unwrap_err();
    assert!(err.message().contains("Aborted"));
    let list = api.get_pads(Scope::Project, all_filter(PadStatusFilter::Deleted), &vec![]).unwrap();
    assert_eq!(list.listed_pads.len(), 1);
}

fn paths_accessor() {
    let api = make_api();
    let paths = api.paths();
    assert_eq!(paths.project, Some("/tmp/test".to_string()));
    assert_eq!(paths.global, "/tmp/global".to_string());
}

fn move_pads_under_other() {
    let mut api = make_api();
    api.create_pad(Scope::Project, "A".into(), "".into(), None).unwrap();
    api.create_pad(Scope::Project, "B".into(), "".into(), None).unwrap();
    let result = api.move_pads(Scope::Project, &vec!["1"], Some("2")).unwrap();
    assert_eq!(result.affected_pads.len(), 1);
    assert_eq!(result.affected_pads[0].pad.metadata.title, "B");
    let pads = api.get_pads(Scope::Project, PadFilter::default(), &vec![]).unwrap().listed_pads;
    let pad_a = pads.iter().find(|p| p.pad.metadata.title == "A").unwrap();
    assert_eq!(pad_a.children.len(), 1);
    assert_eq!(pad_a.children[0].pad.metadata.title, "B");
}

fn move_pads_to_root() {
    let mut api = make_api();
    api.create_pad(Scope::Project, "Parent".into(), "".into(), None).unwrap();
    api.create_pad(Scope::Project, "Child".into(), "".into(), Some("1")).unwrap();
    let result = api.move_pads(Scope::Project, &vec!["1.1"], None).unwrap();
    assert_eq!(result.affected_pads.len(), 1);
    let pads = api.get_pads(Scope::Project, PadFilter::default(), &vec![]).unwrap().listed_pads;
    let child = pads.iter().find(|p| p.pad.metadata.title == "Child").unwrap();
    assert!(child.pad.metadata.parent_id.is_none());
}

fn move_pads_cycle_error() {
    let mut api = make_api();
    api.create_pad(Scope::Project, "A".into(), "".into(), None).unwrap();
    let result = api.move_pads(Scope::Project, &vec!["1"], Some("1"));
    assert!(result.is_err());
    assert!(result.unwrap_err().message().contains("into itself"));
}

fn doctor_clean() {
    let mut api = make_api();
    let result = api.doctor(Scope::Project).unwrap();
    assert_eq!(result, DoctorOutcome::Clean { missing_files: 0, recovered_files: 0 });
}

#[test]
fn api_test_api_create_pad_simple() {
    create_simple("Test Title");
}

#[test]
fn crud_test_api_create_pad_simple() {
    create_simple("Test Title");
}

#[test]
fn api_test_api_create_pad_with_parent_string() {
    create_with_parent_string();
}

#[test]
fn crud_test_api_create_pad_with_parent_string() {
    create_with_parent_string();
}

#[test]
fn api_test_api_get_pads() {
    get_pads_lists_created();
}

#[test]
fn crud_test_api_get_pads() {
    get_pads_lists_created();
}

#[test]
fn crud_test_api_delete_pads() {
    let mut api = make_api();
    api.create_pad(Scope::Project, "Test".into(), "".into(), None).unwrap();
    let result = api.delete_pads(Scope::Project, &vec!["1"]).unwrap();
    assert_eq!(result.affected_pads.len(), 1);
    assert!(matches!(result.affected_pads[0].index, DisplayIndex::Deleted(_)));
}

#[test]
fn api_test_api_pin_unpin_pads() {
    pin_unpin();
}

#[test]
fn status_test_api_pin_unpin_pads() {
    pin_unpin();
}

#[test]
fn api_test_api_purge_pads_confirmed() {
    purge_confirmed();
}

#[test]
fn crud_test_api_purge_pads_confirmed() {
    purge_confirmed();
}

#[test]
fn api_test_api_purge_pads_not_confirmed() {
    purge_not_confirmed();
}

#[test]
fn crud_test_api_purge_pads_not_confirmed() {
    purge_not_confirmed();
}

#[test]
fn util_test_api_doctor() {
    doctor_clean();
}

#[test]
fn api_test_api_paths_accessor() {
    paths_accessor();
}

#[test]
fn util_test_api_paths_accessor() {
    paths_accessor();
}

#[test]
fn api_test_api_move_pads() {
    move_pads_under_other();
}

#[test]
fn status_test_api_move_pads() {
    move_pads_under_other();
}

#[test]
fn api_test_api_move_pads_to_root() {
    move_pads_to_root();
}

#[test]
fn status_test_api_move_pads_to_root() {
    move_pads_to_root();
}

#[test]
fn api_test_api_move_pads_cycle_error() {
    move_pads_cycle_error();
}

#[test]
fn status_test_api_move_pads_cycle_error() {
    move_pads_cycle_error();
}

#[test]
fn test_api_refresh_pad_updates_title() {
    let mut store = Store::new();
    let mut pad = Pad::new("Original Title".to_string(), "Body".to_string());
    pad.content = "New Title\n\nNew body".to_string();
    let pad_id = pad.metadata.id;
    store.save_pad(&pad, Scope::Project, Bucket::Active).unwrap();
    let mut api = PadzApi::new(store, test_paths());

    let refreshed = api.refresh_pad(Scope::Project, pad_id).unwrap();
    assert!(refreshed.is_some());
    let pad = refreshed.unwrap();
    assert_eq!(pad.metadata.title, "New Title");
    assert_eq!(pad.content, "New Title\n\nNew body");
}

#[test]
fn test_api_refresh_pad_empty_deletes() {
    let mut store = Store::new();
    let mut pad = Pad::new("Will Be Empty".to_string(), "".to_string());
    pad.content = "   \n\n   ".to_string();
    let pad_id = pad.metadata.id;
    store.save_pad(&pad, Scope::Project, Bucket::Active).unwrap();
    let mut api = PadzApi::new(store, test_paths());

    let refreshed = api.refresh_pad(Scope::Project, pad_id).unwrap();
    assert!(refreshed.is_none());
    let list = api.get_pads(Scope::Project, PadFilter::default(), &vec![]).unwrap();
    assert_eq!(list.listed_pads.len(), 0);
}

#[test]
fn test_api_remove_pad() {
    let mut api = make_api();
    let result = api.create_pad(Scope::Project, "To Remove".into(), "Content".into(), None).unwrap();
    let pad_id = result.affected_pads[0].pad.metadata.id;
    api.remove_pad(Scope::Project, pad_id).unwrap();
    let list = api.get_pads(Scope::Project, PadFilter::default(), &vec![]).unwrap();
    assert_eq!(list.listed_pads.len(), 0);
}

// --- further cases ---

#[test]
fn api_bad_parent_string_is_an_error() {
    let mut api = make_api();
    assert!(api.create_pad(Scope::Project, "X".into(), "".into(), Some("not a selector!")).is_err());
    let list = api.get_pads(Scope::Project, PadFilter::default(), &vec![]).unwrap();
    assert_eq!(list.listed_pads.len(), 0);
}

#[test]
fn api_complete_reopen_archive_and_paths() {
    let mut api = make_api();
    api.create_pad(Scope::Project, "Task".into(), "".into(), None).unwrap();
    let done = api.complete_pads(Scope::Project, &vec!["1"]).unwrap();
    assert_eq!(done.affected_pads.len(), 1);
    let reopened = api.reopen_pads(Scope::Project, &vec!["1"]).unwrap();
    assert_eq!(reopened.affected_pads.len(), 1);
    let paths = api.pad_paths(Scope::Project, &vec!["1"]).unwrap();
    assert_eq!(paths.pad_paths.len(), 1);
    assert!(paths.pad_paths[0].starts_with("project/active/pad-"));
    let archived = api.archive_pads(Scope::Project, &vec!["1"]).unwrap();
    assert!(matches!(archived.affected_pads[0].index, DisplayIndex::Archived(_)));
}

#[test]
fn api_move_blank_destination_means_root() {
    let mut api = make_api();
    api.create_pad(Scope::Project, "Parent".into(), "".into(), None).unwrap();
    api.create_pad(Scope::Project, "Child".into(), "".into(), Some("1")).unwrap();
    api.move_pads(Scope::Project, &vec!["1.1"], Some("   ")).unwrap();
    let pads = api.get_pads(Scope::Project, PadFilter::default(), &vec![]).unwrap().listed_pads;
    assert_eq!(pads.len(), 2);
}

#[test]
fn api_init_and_exports() {
    let mut api = make_api();
    assert!(api.init(Scope::Global).is_ok());
    api.create_pad(Scope::Project, "Note".into(), "Body".into(), None).unwrap();
    let single = api.export_pads_single_file(Scope::Project, &vec![], "out.md", NestingMode::Flat).unwrap();
    assert!(matches!(single, ExportOutcome::Artifact(_)));
    let archive = api.export_pads(Scope::Project, &vec![], NestingMode::Flat, false).unwrap();
    assert!(matches!(archive, ExportOutcome::Artifact(_)));
    let path_id = api.get_pads(Scope::Project, PadFilter::default(), &vec![]).unwrap().listed_pads[0].pad.metadata.id;
    assert!(api.get_path_by_id(Scope::Project, path_id).is_ok());
}
