use padz::commands::get::{PadFilter, PadStatusFilter};
use padz::commands::purge::PurgeOutcome;
use padz::commands::{archive, create, delete, get, move_pads, paths, pinning, purge, status, MessageLevel};
use padz::index::{DisplayIndex, PadSelector};
use padz::model::{Bucket, Pad, Scope, TodoStatus};
use padz::store::Store;

fn new_store() -> Store {
    Store::new()
}

fn add(store: &mut Store, title: &str, parent: Option<PadSelector>) -> padz::commands::CmdResult {
    create::run(store, Scope::Project, title.to_string(), "".to_string(), parent).unwrap()
}

fn path(p: &[DisplayIndex]) -> PadSelector {
    PadSelector::Path(p.to_vec())
}

fn listing(store: &Store, status: PadStatusFilter) -> padz::commands::CmdResult {
    let filter = PadFilter { status, ..PadFilter::default() };
    get::run(store, Scope::Project, filter, &vec![]).unwrap()
}

fn active(store: &Store) -> padz::commands::CmdResult {
    get::run(store, Scope::Project, PadFilter::default(), &vec![]).unwrap()
}

// --- create ---

#[test]
fn creates_nested_pad() {
    let mut store = new_store();
    add(&mut store, "Parent", None);
    let parent_sel = path(&[DisplayIndex::Regular(1)]);
    add(&mut store, "Child", Some(parent_sel));

    let pads = store.list_pads(Scope::Project, Bucket::Active).unwrap();
    let child = pads.iter().find(|p| p.metadata.title == "Child").unwrap();
    let parent = pads.iter().find(|p| p.metadata.title == "Parent").unwrap();

    assert_eq!(child.metadata.parent_id, Some(parent.metadata.id));
}

#[test]
fn parent_not_found_returns_error() {
    let mut store = new_store();
    let result = create::run(
        &mut store,
        Scope::Project,
        "Child".into(),
        "".into(),
        Some(path(&[DisplayIndex::Regular(99)])),
    );
    assert!(result.is_err());
    let err = result.unwrap_err();
    assert!(err.message().contains("not found"));
}

#[test]
fn ambiguous_parent_selector_returns_error() {
    let mut store = new_store();
    add(&mut store, "Meeting Notes Monday", None);
    add(&mut store, "Meeting Notes Tuesday", None);
    let result = create::run(
        &mut store,
        Scope::Project,
        "Child".into(),
        "".into(),
        Some(PadSelector::Title("Meeting".to_string())),
    );
    assert!(result.is_err());
}

#[test]
fn create_returns_affected_pad_with_index_1() {
    let mut store = new_store();
    let result = create::run(&mut store, Scope::Project, "New Pad".into(), "Content".into(), None).unwrap();

    assert_eq!(result.affected_pads.len(), 1);
    assert_eq!(result.affected_pads[0].pad.metadata.title, "New Pad");
    assert!(matches!(result.affected_pads[0].index, DisplayIndex::Regular(1)));
    assert!(result.messages.is_empty());
}

#[test]
fn create_with_content_normalizes_title_in_content() {
    let mut store = new_store();
    let result = create::run(&mut store, Scope::Project, "My Title".into(), "Body text".into(), None).unwrap();

    let pad = &result.affected_pads[0].pad;
    assert_eq!(pad.metadata.title, "My Title");
    assert!(pad.content.starts_with("My Title"));
}

#[test]
fn create_root_pad_has_no_parent() {
    let mut store = new_store();
    add(&mut store, "Root", None);

    let pads = store.list_pads(Scope::Project, Bucket::Active).unwrap();
    assert_eq!(pads.len(), 1);
    assert!(pads[0].metadata.parent_id.is_none());
}

#[test]
fn nested_empty_content_no_propagation_during_create() {
    let mut store = new_store();
    add(&mut store, "Parent", None);

    let parent_sel = path(&[DisplayIndex::Regular(1)]);
    let result = add(&mut store, "", Some(parent_sel));
    let child_id = result.affected_pads[0].pad.metadata.id;
    let parent_id = result.affected_pads[0].pad.metadata.parent_id;

    assert!(parent_id.is_some());

    let child = store
        .get_pad(child_id, Scope::Project, Bucket::Active)
        .expect("Child pad must exist after create");
    assert_eq!(child.metadata.parent_id, parent_id);
}

#[test]
fn nested_editor_flow_preserves_parent_id() {
    let mut store = new_store();
    add(&mut store, "Parent", None);

    let parent_sel = path(&[DisplayIndex::Regular(1)]);
    let result = add(&mut store, "", Some(parent_sel));
    let child_id = result.affected_pads[0].pad.metadata.id;
    let parent_id = result.affected_pads[0].pad.metadata.parent_id;
    assert!(parent_id.is_some());

    // The editor writes content; the pad is refreshed from it and saved.
    let mut pad = store
        .get_pad(child_id, Scope::Project, Bucket::Active)
        .expect("Pad must exist after editor write");
    pad.update_from_raw("Editor Content", 1);
    store.save_pad(&pad, Scope::Project, Bucket::Active).unwrap();

    let final_pad = store.get_pad(child_id, Scope::Project, Bucket::Active).unwrap();
    assert_eq!(final_pad.metadata.parent_id, parent_id);
    assert_eq!(final_pad.metadata.title, "Editor Content");
}

#[test]
fn create_returns_pad_path() {
    let mut store = new_store();
    let result = create::run(&mut store, Scope::Project, "Path Test".into(), "Body".into(), None).unwrap();
    assert_eq!(result.pad_paths.len(), 1);
    let pad_id = padz::model::uuid_text(result.affected_pads[0].pad.metadata.id);
    assert!(result.pad_paths[0].contains(&pad_id));
}

#[test]
fn create_with_identity_composes_content() {
    let pad = Pad::with_identity(7, 100, "Title".to_string(), "Body".to_string());
    assert_eq!(pad.content, "Title\n\nBody");
    assert_eq!(pad.metadata.created_at, 100);
    let bare = Pad::with_identity(8, 100, "Only".to_string(), "".to_string());
    assert_eq!(bare.content, "Only");
}

// --- delete ---

#[test]
fn marks_pad_as_deleted() {
    let mut store = new_store();
    add(&mut store, "Title", None);
    delete::run(&mut store, Scope::Project, &vec![path(&[DisplayIndex::Regular(1)])]).unwrap();

    let deleted = listing(&store, PadStatusFilter::Deleted);
    assert_eq!(deleted.listed_pads.len(), 1);
    assert!(matches!(deleted.listed_pads[0].index, DisplayIndex::Deleted(1)));
}

#[test]
fn delete_protected_pad_fails() {
    let mut store = new_store();
    add(&mut store, "Protected", None);
    let pad_id = active(&store).listed_pads[0].pad.metadata.id;
    let mut pad = store.get_pad(pad_id, Scope::Project, Bucket::Active).unwrap();
    pad.metadata.delete_protected = true;
    store.save_pad(&pad, Scope::Project, Bucket::Active).unwrap();

    let result = delete::run(&mut store, Scope::Project, &vec![path(&[DisplayIndex::Regular(1)])]);
    assert!(result.is_err());
    match result {
        Err(padz::error::PadzError::Api(msg)) => {
            assert!(msg.contains("Pinned pads are delete protected"));
        },
        _ => panic!("Expected Api error"),
    }
}

#[test]
fn delete_parent_with_pinned_child_succeeds() {
    let mut store = new_store();
    add(&mut store, "Parent", None);
    add(&mut store, "Child", Some(path(&[DisplayIndex::Regular(1)])));
    pinning::pin(&mut store, Scope::Project, &vec![path(&[DisplayIndex::Regular(1), DisplayIndex::Regular(1)])])
        .unwrap();

    let result = delete::run(&mut store, Scope::Project, &vec![path(&[DisplayIndex::Regular(1)])]);
    assert!(result.is_ok());

    let deleted = listing(&store, PadStatusFilter::Deleted);
    assert_eq!(deleted.listed_pads.len(), 1);
    assert_eq!(deleted.listed_pads[0].pad.metadata.title, "Parent");
    assert_eq!(deleted.listed_pads[0].children.len(), 1);
}

#[test]
fn delete_nested_pad_via_path() {
    let mut store = new_store();
    add(&mut store, "Parent", None);
    add(&mut store, "Child", Some(path(&[DisplayIndex::Regular(1)])));

    let result =
        delete::run(&mut store, Scope::Project, &vec![path(&[DisplayIndex::Regular(1), DisplayIndex::Regular(1)])]);
    assert!(result.is_ok());

    let act = active(&store);
    assert_eq!(act.listed_pads.len(), 1);
    assert_eq!(act.listed_pads[0].pad.metadata.title, "Parent");
    assert_eq!(act.listed_pads[0].children.len(), 0);
}

#[test]
fn delete_reports_pad_at_its_deleted_index() {
    let mut store = new_store();
    add(&mut store, "A", None);
    let res = delete::run(&mut store, Scope::Project, &vec![path(&[DisplayIndex::Regular(1)])]).unwrap();
    assert_eq!(res.affected_pads.len(), 1);
    assert!(matches!(res.affected_pads[0].index, DisplayIndex::Deleted(1)));
    assert!(res.affected_pads[0].children.is_empty());
}

// --- archive ---

#[test]
fn archives_pad() {
    let mut store = new_store();
    add(&mut store, "Title", None);
    archive::run(&mut store, Scope::Project, &vec![path(&[DisplayIndex::Regular(1)])]).unwrap();

    let archived = listing(&store, PadStatusFilter::Archived);
    assert_eq!(archived.listed_pads.len(), 1);
    assert!(matches!(archived.listed_pads[0].index, DisplayIndex::Archived(1)));

    assert_eq!(active(&store).listed_pads.len(), 0);
}

#[test]
fn archive_parent_moves_children() {
    let mut store = new_store();
    add(&mut store, "Parent", None);
    add(&mut store, "Child", Some(path(&[DisplayIndex::Regular(1)])));

    archive::run(&mut store, Scope::Project, &vec![path(&[DisplayIndex::Regular(1)])]).unwrap();

    assert_eq!(store.list_pads(Scope::Project, Bucket::Active).unwrap().len(), 0);
    assert_eq!(store.list_pads(Scope::Project, Bucket::Archived).unwrap().len(), 2);
}

#[test]
fn archive_nested_pad_via_path() {
    let mut store = new_store();
    add(&mut store, "Parent", None);
    add(&mut store, "Child", Some(path(&[DisplayIndex::Regular(1)])));

    archive::run(&mut store, Scope::Project, &vec![path(&[DisplayIndex::Regular(1), DisplayIndex::Regular(1)])])
        .unwrap();

    let act = active(&store);
    assert_eq!(act.listed_pads.len(), 1);
    assert_eq!(act.listed_pads[0].pad.metadata.title, "Parent");
    assert_eq!(act.listed_pads[0].children.len(), 0);

    assert_eq!(store.list_pads(Scope::Project, Bucket::Archived).unwrap().len(), 1);
}

// --- pinning ---

#[test]
fn pinning_assigns_p_index() {
    let mut store = new_store();
    add(&mut store, "A", None);
    add(&mut store, "B", None);

    pinning::pin(&mut store, Scope::Project, &vec![path(&[DisplayIndex::Regular(1)])]).unwrap();

    let result = active(&store);
    assert!(result.listed_pads.iter().any(|dp| matches!(dp.index, DisplayIndex::Pinned(1))));
}

#[test]
fn unpinning_removes_pinned_flag() {
    let mut store = new_store();
    add(&mut store, "A", None);
    let sel = vec![path(&[DisplayIndex::Regular(1)])];
    pinning::pin(&mut store, Scope::Project, &sel).unwrap();
    pinning::unpin(&mut store, Scope::Project, &sel).unwrap();

    let result = active(&store);
    assert!(result.listed_pads.iter().all(|dp| !matches!(dp.index, DisplayIndex::Pinned(_))));
}

#[test]
fn pinning_enables_delete_protection() {
    let mut store = new_store();
    add(&mut store, "A", None);

    pinning::pin(&mut store, Scope::Project, &vec![path(&[DisplayIndex::Regular(1)])]).unwrap();

    let pads = active(&store);
    assert!(pads.listed_pads[0].pad.metadata.delete_protected);

    let err = delete::run(&mut store, Scope::Project, &vec![path(&[DisplayIndex::Pinned(1)])]);
    assert!(err.is_err());

    pinning::unpin(&mut store, Scope::Project, &vec![path(&[DisplayIndex::Pinned(1)])]).unwrap();

    let pads_after = active(&store);
    assert!(!pads_after.listed_pads[0].pad.metadata.delete_protected);

    let success = delete::run(&mut store, Scope::Project, &vec![path(&[DisplayIndex::Regular(1)])]);
    assert!(success.is_ok());
}

#[test]
fn pinning_already_pinned_is_idempotent() {
    let mut store = new_store();
    add(&mut store, "A", None);
    pinning::pin(&mut store, Scope::Project, &vec![path(&[DisplayIndex::Regular(1)])]).unwrap();
    let result = pinning::pin(&mut store, Scope::Project, &vec![path(&[DisplayIndex::Pinned(1)])]).unwrap();

    assert!(matches!(result.messages[0].level, MessageLevel::Info));
    assert!(result.messages[0].content.contains("already pinned"));
    assert_eq!(result.messages[0].content, "Pad p1 is already pinned");
}

#[test]
fn unpinning_already_unpinned_is_idempotent() {
    let mut store = new_store();
    add(&mut store, "A", None);
    let result = pinning::unpin(&mut store, Scope::Project, &vec![path(&[DisplayIndex::Regular(1)])]).unwrap();

    assert!(matches!(result.messages[0].level, MessageLevel::Info));
    assert!(result.messages[0].content.contains("already unpinned"));
}

#[test]
fn pinning_batch() {
    let mut store = new_store();
    add(&mut store, "A", None);
    add(&mut store, "B", None);

    let selectors = vec![path(&[DisplayIndex::Regular(1)]), path(&[DisplayIndex::Regular(2)])];
    pinning::pin(&mut store, Scope::Project, &selectors).unwrap();

    let pads = active(&store);
    for dp in &pads.listed_pads {
        assert!(dp.pad.metadata.is_pinned, "Pad {} should be is_pinned=true", dp.pad.metadata.title);
    }
    assert_eq!(pads.listed_pads.len(), 4);

    let pinned_count = pads.listed_pads.iter().filter(|dp| matches!(dp.index, DisplayIndex::Pinned(_))).count();
    let regular_count = pads.listed_pads.iter().filter(|dp| matches!(dp.index, DisplayIndex::Regular(_))).count();

    assert_eq!(pinned_count, 2);
    assert_eq!(regular_count, 2);
}

#[test]
fn pin_at_records_the_time() {
    let mut store = new_store();
    add(&mut store, "A", None);
    let res = pinning::pin_state_at(&mut store, Scope::Project, &vec![path(&[DisplayIndex::Regular(1)])], true, 42)
        .unwrap();
    assert_eq!(res.affected_pads.len(), 1);
    assert!(matches!(res.affected_pads[0].index, DisplayIndex::Pinned(1)));
    assert_eq!(res.affected_pads[0].pad.metadata.pinned_at, Some(42));
}

// --- purge ---

fn assert_purged(outcome: PurgeOutcome, selected: &[&str], total_purged: usize, descendant_count: usize) {
    let PurgeOutcome::Purged { selected_pads, total_purged: actual_total, descendant_count: actual_descendants } =
        outcome
    else {
        panic!("expected PurgeOutcome::Purged");
    };
    let actual_selected: Vec<String> = selected_pads
        .iter()
        .map(|selection| format!("{} {}", selection.selector(), selection.pad.pad.metadata.title))
        .collect();
    assert_eq!(actual_selected, selected);
    assert_eq!(actual_total, total_purged);
    assert_eq!(actual_descendants, descendant_count);
}

#[test]
fn purges_deleted_pads_when_confirmed() {
    let mut store = new_store();
    add(&mut store, "A", None);
    delete::run(&mut store, Scope::Project, &vec![path(&[DisplayIndex::Regular(1)])]).unwrap();
    assert_eq!(listing(&store, PadStatusFilter::Deleted).listed_pads.len(), 1);

    let res = purge::run(&mut store, Scope::Project, &vec![], false, true, false).unwrap();
    assert_purged(res, &["d1 A"], 1, 0);

    assert_eq!(listing(&store, PadStatusFilter::Deleted).listed_pads.len(), 0);
}

#[test]
fn purge_without_confirmation_returns_error() {
    let mut store = new_store();
    add(&mut store, "A", None);
    delete::run(&mut store, Scope::Project, &vec![path(&[DisplayIndex::Regular(1)])]).unwrap();

    let result = purge::run(&mut store, Scope::Project, &vec![], false, false, false);
    assert!(result.is_err());
    let err = result.unwrap_err().message();
    assert!(err.contains("Aborted"));
    assert!(err.contains("--yes"));
    assert!(err.contains("-y"));

    assert_eq!(listing(&store, PadStatusFilter::Deleted).listed_pads.len(), 1);
}

#[test]
fn purges_specific_pads_even_if_active() {
    let mut store = new_store();
    add(&mut store, "A", None);

    let res = purge::run(&mut store, Scope::Project, &vec![path(&[DisplayIndex::Regular(1)])], false, true, false)
        .unwrap();
    assert_purged(res, &["1 A"], 1, 0);

    assert_eq!(active(&store).listed_pads.len(), 0);
}

#[test]
fn does_nothing_if_no_deleted_pads() {
    let mut store = new_store();
    add(&mut store, "A", None);

    let res = purge::run(&mut store, Scope::Project, &vec![], false, true, false).unwrap();
    assert!(matches!(res, PurgeOutcome::Empty));

    assert_eq!(active(&store).listed_pads.len(), 1);
}

#[test]
fn purges_recursively_with_flag() {
    let mut store = new_store();
    add(&mut store, "Parent", None);
    add(&mut store, "Child", Some(path(&[DisplayIndex::Regular(1)])));
    delete::run(&mut store, Scope::Project, &vec![path(&[DisplayIndex::Regular(1)])]).unwrap();

    let res = purge::run(&mut store, Scope::Project, &vec![path(&[DisplayIndex::Deleted(1)])], true, true, false)
        .unwrap();
    assert_purged(res, &["d1 Parent"], 2, 1);

    assert_eq!(store.list_pads(Scope::Project, Bucket::Active).unwrap().len(), 0);
    assert_eq!(store.list_pads(Scope::Project, Bucket::Deleted).unwrap().len(), 0);
}

#[test]
fn selected_child_is_not_counted_again_as_a_descendant() {
    let mut store = new_store();
    add(&mut store, "Parent", None);
    add(&mut store, "Child", Some(path(&[DisplayIndex::Regular(1)])));

    let res = purge::run(
        &mut store,
        Scope::Project,
        &vec![path(&[DisplayIndex::Regular(1)]), path(&[DisplayIndex::Regular(1), DisplayIndex::Regular(1)])],
        true,
        true,
        false,
    )
    .unwrap();
    assert_purged(res, &["1 Parent", "1.1 Child"], 2, 0);
}

#[test]
fn purge_without_recursive_fails_when_has_children() {
    let mut store = new_store();
    add(&mut store, "Parent", None);
    add(&mut store, "Child", Some(path(&[DisplayIndex::Regular(1)])));

    let result = purge::run(&mut store, Scope::Project, &vec![path(&[DisplayIndex::Regular(1)])], false, true, false);
    assert!(result.is_err());
    let err = result.unwrap_err().message();
    assert!(err.contains("have children"));
    assert!(err.contains("--recursive"));

    assert_eq!(store.list_pads(Scope::Project, Bucket::Active).unwrap().len(), 2);
}

#[test]
fn purge_selectors_vs_all() {
    let mut store = new_store();
    add(&mut store, "A", None);
    add(&mut store, "B", None);
    delete::run(
        &mut store,
        Scope::Project,
        &vec![path(&[DisplayIndex::Regular(1)]), path(&[DisplayIndex::Regular(2)])],
    )
    .unwrap();

    let res = purge::run(&mut store, Scope::Project, &vec![path(&[DisplayIndex::Deleted(1)])], false, true, false)
        .unwrap();
    assert_purged(res, &["d1 B"], 1, 0);

    assert_eq!(store.list_pads(Scope::Project, Bucket::Deleted).unwrap().len(), 1);
}

#[test]
fn purge_nothing_found() {
    let mut store = new_store();
    let res = purge::run(&mut store, Scope::Project, &vec![], false, true, false).unwrap();
    assert!(matches!(res, PurgeOutcome::Empty));
}

#[test]
fn purge_error_includes_count() {
    let mut store = new_store();
    add(&mut store, "A", None);
    add(&mut store, "B", None);
    delete::run(
        &mut store,
        Scope::Project,
        &vec![path(&[DisplayIndex::Regular(1)]), path(&[DisplayIndex::Regular(2)])],
    )
    .unwrap();

    let result = purge::run(&mut store, Scope::Project, &vec![], false, false, false);
    assert!(result.is_err());
    assert!(result.unwrap_err().message().contains("Purging 2 pad(s)"));
}

#[test]
fn purge_include_done_removes_completed_pads() {
    let mut store = new_store();
    add(&mut store, "Keep Me", None);
    add(&mut store, "Complete Me", None);
    status::complete(&mut store, Scope::Project, &vec![path(&[DisplayIndex::Regular(1)])]).unwrap();

    let res = purge::run(&mut store, Scope::Project, &vec![], false, true, true).unwrap();
    assert_purged(res, &["1 Complete Me"], 1, 0);

    let listed = active(&store);
    assert_eq!(listed.listed_pads.len(), 1);
    assert_eq!(listed.listed_pads[0].pad.metadata.title, "Keep Me");
}

#[test]
fn purge_include_done_reports_a_pinned_pad_once() {
    let mut store = new_store();
    add(&mut store, "Complete Me", None);
    status::complete(&mut store, Scope::Project, &vec![path(&[DisplayIndex::Regular(1)])]).unwrap();
    pinning::pin(&mut store, Scope::Project, &vec![path(&[DisplayIndex::Regular(1)])]).unwrap();

    let res = purge::run(&mut store, Scope::Project, &vec![], false, true, true).unwrap();
    assert_purged(res, &["p1 Complete Me"], 1, 0);
}

#[test]
fn purge_include_done_false_ignores_completed_pads() {
    let mut store = new_store();
    add(&mut store, "A", None);
    status::complete(&mut store, Scope::Project, &vec![path(&[DisplayIndex::Regular(1)])]).unwrap();

    let res = purge::run(&mut store, Scope::Project, &vec![], false, true, false).unwrap();
    assert!(matches!(res, PurgeOutcome::Empty));

    assert_eq!(active(&store).listed_pads.len(), 1);
}

#[test]
fn purge_include_done_and_deleted_together() {
    let mut store = new_store();
    add(&mut store, "Done Pad", None);
    add(&mut store, "Deleted Pad", None);
    add(&mut store, "Active Pad", None);

    status::complete(&mut store, Scope::Project, &vec![path(&[DisplayIndex::Regular(3)])]).unwrap();
    delete::run(&mut store, Scope::Project, &vec![path(&[DisplayIndex::Regular(2)])]).unwrap();

    let res = purge::run(&mut store, Scope::Project, &vec![], false, true, true).unwrap();
    assert_purged(res, &["2 Done Pad", "d1 Deleted Pad"], 2, 0);

    let listed = active(&store);
    assert_eq!(listed.listed_pads.len(), 1);
    assert_eq!(listed.listed_pads[0].pad.metadata.title, "Active Pad");
}

// --- status ---

#[test]
fn completing_twice_reports_a_notice() {
    let mut store = new_store();
    add(&mut store, "A", None);
    let first = status::complete(&mut store, Scope::Project, &vec![path(&[DisplayIndex::Regular(1)])]).unwrap();
    assert_eq!(first.outcomes.len(), 1);
    assert_eq!(first.affected_pads[0].pad.metadata.status, TodoStatus::Done);
    let second = status::complete(&mut store, Scope::Project, &vec![path(&[DisplayIndex::Regular(1)])]).unwrap();
    assert_eq!(second.outcomes.len(), 0);
    assert_eq!(second.notices.len(), 1);
    let reopened = status::reopen(&mut store, Scope::Project, &vec![path(&[DisplayIndex::Regular(1)])]).unwrap();
    assert_eq!(reopened.affected_pads[0].pad.metadata.status, TodoStatus::Planned);
}

// --- move ---

fn setup_moves() -> (Store, u128, u128) {
    let mut store = new_store();
    let root_id = add(&mut store, "Root", None).affected_pads[0].pad.metadata.id;
    let child_id = add(&mut store, "Child", Some(path(&[DisplayIndex::Regular(1)]))).affected_pads[0].pad.metadata.id;
    (store, root_id, child_id)
}

#[test]
fn test_move_child_to_root() {
    let (mut store, _root_id, child_id) = setup_moves();

    let child = store.get_pad(child_id, Scope::Project, Bucket::Active).unwrap();
    assert!(child.metadata.parent_id.is_some());

    move_pads::run(&mut store, Scope::Project, &vec![path(&[DisplayIndex::Regular(1), DisplayIndex::Regular(1)])], None)
        .unwrap();

    let child_after = store.get_pad(child_id, Scope::Project, Bucket::Active).unwrap();
    assert!(child_after.metadata.parent_id.is_none());
}

#[test]
fn test_move_root_to_another_pad() {
    let mut store = new_store();
    add(&mut store, "A", None);
    add(&mut store, "B", None);

    let dest = path(&[DisplayIndex::Regular(2)]);
    move_pads::run(&mut store, Scope::Project, &vec![path(&[DisplayIndex::Regular(1)])], Some(&dest)).unwrap();

    let pads = store.list_pads(Scope::Project, Bucket::Active).unwrap();
    let pad_a = pads.iter().find(|p| p.metadata.title == "A").unwrap();
    let pad_b = pads.iter().find(|p| p.metadata.title == "B").unwrap();

    assert_eq!(pad_b.metadata.parent_id, Some(pad_a.metadata.id));
}

#[test]
fn test_prevent_move_to_self() {
    let mut store = new_store();
    add(&mut store, "A", None);
    let dest = path(&[DisplayIndex::Regular(1)]);
    let res = move_pads::run(&mut store, Scope::Project, &vec![path(&[DisplayIndex::Regular(1)])], Some(&dest));
    assert!(res.is_err());
    assert!(res.unwrap_err().message().contains("into itself"));
}

#[test]
fn test_prevent_cycle_move_to_descendant() {
    let (mut store, _root_id, _child_id) = setup_moves();
    let dest = path(&[DisplayIndex::Regular(1), DisplayIndex::Regular(1)]);
    let res = move_pads::run(&mut store, Scope::Project, &vec![path(&[DisplayIndex::Regular(1)])], Some(&dest));
    assert!(res.is_err());
    assert!(res.unwrap_err().message().contains("descendant"));
}

#[test]
fn moving_to_the_current_parent_is_noted() {
    let (mut store, _root_id, _child_id) = setup_moves();
    let dest = path(&[DisplayIndex::Regular(1)]);
    let res = move_pads::move_at(
        &mut store,
        Scope::Project,
        &vec![path(&[DisplayIndex::Regular(1), DisplayIndex::Regular(1)])],
        Some(&dest),
        5,
    )
    .unwrap();
    assert_eq!(res.affected_pads.len(), 0);
    assert_eq!(res.messages[0].content, "Pad '1.1' is already at destination");
}

// --- paths ---

#[test]
fn test_get_path() {
    let mut store = new_store();
    add(&mut store, "Pad A", None);
    let res = paths::run(&store, Scope::Project, &vec![path(&[DisplayIndex::Regular(1)])]).unwrap();
    assert_eq!(res.pad_paths.len(), 1);
    assert!(!res.pad_paths[0].is_empty());
}

#[test]
fn test_get_multiple_paths() {
    let mut store = new_store();
    add(&mut store, "Pad A", None);
    add(&mut store, "Pad B", None);
    let res = paths::run(
        &store,
        Scope::Project,
        &vec![path(&[DisplayIndex::Regular(1)]), path(&[DisplayIndex::Regular(2)])],
    )
    .unwrap();
    assert_eq!(res.pad_paths.len(), 2);
}

#[test]
fn pad_path_names_scope_bucket_and_uuid() {
    let mut store = new_store();
    let pad = Pad::with_identity(0x550e8400e29b41d4a716446655440000, 1, "A".into(), "".into());
    store.save_pad(&pad, Scope::Global, Bucket::Archived).unwrap();
    let p = store.get_pad_path(pad.metadata.id, Scope::Global, Bucket::Archived).unwrap();
    assert_eq!(p, "global/archived/pad-550e8400-e29b-41d4-a716-446655440000.txt");
}

#[test]
fn purge_without_selectors_takes_done_child_of_active_root() {
    let mut store = new_store();
    add(&mut store, "P", None);
    add(&mut store, "C1", Some(path(&[DisplayIndex::Regular(1)])));
    add(&mut store, "C2", Some(path(&[DisplayIndex::Regular(1)])));
    let c1 = store
        .list_pads(Scope::Project, Bucket::Active)
        .unwrap()
        .into_iter()
        .find(|p| p.metadata.title == "C1")
        .unwrap()
        .metadata
        .id;
    status::complete(&mut store, Scope::Project, &vec![PadSelector::Uuid(c1)]).unwrap();

    let res = purge::run(&mut store, Scope::Project, &vec![], true, true, true).unwrap();
    let PurgeOutcome::Purged { selected_pads, total_purged, descendant_count } = res else {
        panic!("expected PurgeOutcome::Purged");
    };
    assert_eq!(selected_pads.len(), 1);
    assert_eq!(selected_pads[0].pad.pad.metadata.id, c1);
    assert_eq!(total_purged, 1);
    assert_eq!(descendant_count, 0);
    let left = store.list_pads(Scope::Project, Bucket::Active).unwrap();
    assert!(left.iter().all(|p| p.metadata.id != c1));
    assert_eq!(left.len(), 2);
}

#[test]
fn purge_refusal_texts_are_exact() {
    let mut store = new_store();
    add(&mut store, "Parent", None);
    add(&mut store, "Child", Some(path(&[DisplayIndex::Regular(1)])));
    let err = purge::run(&mut store, Scope::Project, &vec![path(&[DisplayIndex::Regular(1)])], false, true, false)
        .unwrap_err()
        .message();
    assert_eq!(err, "Cannot purge: 1 pad(s) have children. Use --recursive (-r) to purge entire subtrees.");

    let err = purge::run(&mut store, Scope::Project, &vec![path(&[DisplayIndex::Regular(1)])], true, false, false)
        .unwrap_err()
        .message();
    assert_eq!(err, "Purging 2 pad(s). Aborted, confirm with --yes or -y for hard deletion.");
    assert_eq!(store.list_pads(Scope::Project, Bucket::Active).unwrap().len(), 2);
}

#[test]
fn purge_counts_selected_plus_descendants() {
    let mut store = new_store();
    add(&mut store, "Parent", None);
    add(&mut store, "Child", Some(path(&[DisplayIndex::Regular(1)])));
    add(&mut store, "Grandchild", Some(path(&[DisplayIndex::Regular(1), DisplayIndex::Regular(1)])));
    let res = purge::run(
        &mut store,
        Scope::Project,
        &vec![path(&[DisplayIndex::Regular(1)]), path(&[DisplayIndex::Regular(1), DisplayIndex::Regular(1)])],
        true,
        true,
        false,
    )
    .unwrap();
    let PurgeOutcome::Purged { selected_pads, total_purged, descendant_count } = res else {
        panic!("expected PurgeOutcome::Purged");
    };
    assert_eq!(selected_pads.len(), 2);
    assert_eq!(total_purged, 3);
    assert_eq!(total_purged, selected_pads.len() + descendant_count);
}

#[test]
fn sanitizing_twice_changes_nothing() {
    let once = padz::export::sanitize_filename("  a/b:c?d  ");
    assert_eq!(once, "a_b_c_d");
    assert_eq!(padz::export::sanitize_filename(&once), once);
    assert!(once.len() <= "  a/b:c?d  ".len());
}
