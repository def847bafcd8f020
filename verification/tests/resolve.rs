use padz::commands::{archive, create, delete, pinning};
use padz::index::{DisplayIndex, PadSelector};
use padz::model::{uuid_text, Bucket, Scope};
use padz::resolve::{resolve_selectors, TitleBucket};
use padz::store::Store;

fn new_store() -> Store {
    Store::new()
}

fn add(store: &mut Store, title: &str, content: &str, parent: Option<PadSelector>) -> u128 {
    create::run(store, Scope::Project, title.to_string(), content.to_string(), parent).unwrap().affected_pads[0]
        .pad
        .metadata
        .id
}

fn path(p: &[DisplayIndex]) -> PadSelector {
    PadSelector::Path(p.to_vec())
}

fn protect_first(store: &mut Store) {
    let pads = store.list_pads(Scope::Project, Bucket::Active).unwrap();
    let mut pad = pads[0].duplicate();
    pad.metadata.delete_protected = true;
    store.save_pad(&pad, Scope::Project, Bucket::Active).unwrap();
}

#[test]
fn selector_resolve_test_range_selection_within_siblings() {
    let mut store = new_store();
    add(&mut store, "Parent", "", None);
    add(&mut store, "Child A", "", Some(path(&[DisplayIndex::Regular(1)])));
    add(&mut store, "Child B", "", Some(path(&[DisplayIndex::Regular(1)])));
    add(&mut store, "Child C", "", Some(path(&[DisplayIndex::Regular(1)])));

    let result = resolve_selectors(
        &store,
        Scope::Project,
        &vec![PadSelector::Range(
            vec![DisplayIndex::Regular(1), DisplayIndex::Regular(1)],
            vec![DisplayIndex::Regular(1), DisplayIndex::Regular(3)],
        )],
        false,
        TitleBucket::Any,
    )
    .unwrap();
    assert_eq!(result.len(), 3);
}

#[test]
fn selector_resolve_test_range_selection_cross_parent() {
    let mut store = new_store();
    add(&mut store, "Parent 1", "", None);
    add(&mut store, "Child 1", "", Some(path(&[DisplayIndex::Regular(1)])));
    add(&mut store, "Parent 2", "", None);
    add(&mut store, "Child 2", "", Some(path(&[DisplayIndex::Regular(1)])));

    let result = resolve_selectors(
        &store,
        Scope::Project,
        &vec![PadSelector::Range(
            vec![DisplayIndex::Regular(1), DisplayIndex::Regular(1)],
            vec![DisplayIndex::Regular(2), DisplayIndex::Regular(1)],
        )],
        false,
        TitleBucket::Any,
    )
    .unwrap();
    assert_eq!(result.len(), 3);
}

#[test]
fn selector_resolve_test_range_selection_root_only() {
    let mut store = new_store();
    add(&mut store, "Root 1", "", None);
    add(&mut store, "Child 1", "", Some(path(&[DisplayIndex::Regular(1)])));
    add(&mut store, "Root 2", "", None);

    let result = resolve_selectors(
        &store,
        Scope::Project,
        &vec![PadSelector::Range(vec![DisplayIndex::Regular(1)], vec![DisplayIndex::Regular(2)])],
        false,
        TitleBucket::Any,
    )
    .unwrap();
    assert_eq!(result.len(), 2);
}

#[test]
fn selector_resolve_test_range_includes_children_of_intermediate_nodes() {
    let mut store = new_store();
    add(&mut store, "Root 1", "", None);
    add(&mut store, "Child 1", "", Some(path(&[DisplayIndex::Regular(1)])));
    add(&mut store, "Root 2", "", None);
    add(&mut store, "Root 3", "", None);

    let result = resolve_selectors(
        &store,
        Scope::Project,
        &vec![PadSelector::Range(
            vec![DisplayIndex::Regular(1)],
            vec![DisplayIndex::Regular(3), DisplayIndex::Regular(1)],
        )],
        false,
        TitleBucket::Any,
    )
    .unwrap();
    assert_eq!(result.len(), 4);
}

#[test]
fn selector_resolve_test_pinned_child_addressable_by_path() {
    let mut store = new_store();
    add(&mut store, "Parent", "", None);
    add(&mut store, "Child", "", Some(path(&[DisplayIndex::Regular(1)])));
    pinning::pin(&mut store, Scope::Project, &vec![path(&[DisplayIndex::Regular(1), DisplayIndex::Regular(1)])])
        .unwrap();

    let result = resolve_selectors(
        &store,
        Scope::Project,
        &vec![path(&[DisplayIndex::Regular(1), DisplayIndex::Pinned(1)])],
        false,
        TitleBucket::Any,
    )
    .unwrap();
    assert_eq!(result.len(), 1);
    let pad = store.get_pad(result[0].1, Scope::Project, Bucket::Active).unwrap();
    assert_eq!(pad.metadata.title, "Child");
}

#[test]
fn selector_resolve_test_title_search_single_match_succeeds() {
    let mut store = new_store();
    add(&mut store, "Alpha", "", None);
    add(&mut store, "Beta", "", None);
    add(&mut store, "Gamma", "", None);

    let result = resolve_selectors(
        &store,
        Scope::Project,
        &vec![PadSelector::Title("Beta".to_string())],
        false,
        TitleBucket::Any,
    )
    .unwrap();
    assert_eq!(result.len(), 1);
    let pad = store.get_pad(result[0].1, Scope::Project, Bucket::Active).unwrap();
    assert_eq!(pad.metadata.title, "Beta");
}

#[test]
fn selector_resolve_test_title_search_is_case_insensitive() {
    let mut store = new_store();
    add(&mut store, "UPPERCASE TITLE", "", None);

    let result = resolve_selectors(
        &store,
        Scope::Project,
        &vec![PadSelector::Title("uppercase".to_string())],
        false,
        TitleBucket::Any,
    )
    .unwrap();
    assert_eq!(result.len(), 1);
    let pad = store.get_pad(result[0].1, Scope::Project, Bucket::Active).unwrap();
    assert_eq!(pad.metadata.title, "UPPERCASE TITLE");
}

#[test]
fn selector_resolve_test_title_search_delete_protection_disabled() {
    let mut store = new_store();
    add(&mut store, "ProtectedPad", "", None);
    protect_first(&mut store);

    let result = resolve_selectors(
        &store,
        Scope::Project,
        &vec![PadSelector::Title("ProtectedPad".to_string())],
        false,
        TitleBucket::Any,
    )
    .unwrap();
    assert_eq!(result.len(), 1);
}

#[test]
fn helpers_test_range_selection_within_siblings() {
    let mut store = new_store();
    add(&mut store, "Parent", "", None);
    add(&mut store, "Child A", "", Some(path(&[DisplayIndex::Regular(1)])));
    add(&mut store, "Child B", "", Some(path(&[DisplayIndex::Regular(1)])));
    add(&mut store, "Child C", "", Some(path(&[DisplayIndex::Regular(1)])));

    let result = resolve_selectors(
        &store,
        Scope::Project,
        &vec![PadSelector::Range(
            vec![DisplayIndex::Regular(1), DisplayIndex::Regular(1)],
            vec![DisplayIndex::Regular(1), DisplayIndex::Regular(3)],
        )],
        false,
        TitleBucket::Any,
    )
    .unwrap();
    assert_eq!(result.len(), 3);
}

#[test]
fn helpers_test_range_selection_cross_parent() {
    let mut store = new_store();
    add(&mut store, "Parent 1", "", None);
    add(&mut store, "Child 1", "", Some(path(&[DisplayIndex::Regular(1)])));
    add(&mut store, "Parent 2", "", None);
    add(&mut store, "Child 2", "", Some(path(&[DisplayIndex::Regular(1)])));

    let result = resolve_selectors(
        &store,
        Scope::Project,
        &vec![PadSelector::Range(
            vec![DisplayIndex::Regular(1), DisplayIndex::Regular(1)],
            vec![DisplayIndex::Regular(2), DisplayIndex::Regular(1)],
        )],
        false,
        TitleBucket::Any,
    )
    .unwrap();
    assert_eq!(result.len(), 3);
}

#[test]
fn helpers_test_range_selection_root_only() {
    let mut store = new_store();
    add(&mut store, "Root 1", "", None);
    add(&mut store, "Child 1", "", Some(path(&[DisplayIndex::Regular(1)])));
    add(&mut store, "Root 2", "", None);

    let result = resolve_selectors(
        &store,
        Scope::Project,
        &vec![PadSelector::Range(vec![DisplayIndex::Regular(1)], vec![DisplayIndex::Regular(2)])],
        false,
        TitleBucket::Any,
    )
    .unwrap();
    assert_eq!(result.len(), 2);
}

#[test]
fn helpers_test_range_includes_children_of_intermediate_nodes() {
    let mut store = new_store();
    add(&mut store, "Root 1", "", None);
    add(&mut store, "Child 1", "", Some(path(&[DisplayIndex::Regular(1)])));
    add(&mut store, "Root 2", "", None);
    add(&mut store, "Root 3", "", None);

    let result = resolve_selectors(
        &store,
        Scope::Project,
        &vec![PadSelector::Range(
            vec![DisplayIndex::Regular(1)],
            vec![DisplayIndex::Regular(3), DisplayIndex::Regular(1)],
        )],
        false,
        TitleBucket::Any,
    )
    .unwrap();
    assert_eq!(result.len(), 4);
}

#[test]
fn helpers_test_pinned_child_addressable_by_path() {
    let mut store = new_store();
    add(&mut store, "Parent", "", None);
    add(&mut store, "Child", "", Some(path(&[DisplayIndex::Regular(1)])));
    pinning::pin(&mut store, Scope::Project, &vec![path(&[DisplayIndex::Regular(1), DisplayIndex::Regular(1)])])
        .unwrap();

    let result = resolve_selectors(
        &store,
        Scope::Project,
        &vec![path(&[DisplayIndex::Regular(1), DisplayIndex::Pinned(1)])],
        false,
        TitleBucket::Any,
    )
    .unwrap();
    assert_eq!(result.len(), 1);
    let pad = store.get_pad(result[0].1, Scope::Project, Bucket::Active).unwrap();
    assert_eq!(pad.metadata.title, "Child");
}

#[test]
fn helpers_test_title_search_single_match_succeeds() {
    let mut store = new_store();
    add(&mut store, "Alpha", "", None);
    add(&mut store, "Beta", "", None);
    add(&mut store, "Gamma", "", None);

    let result = resolve_selectors(
        &store,
        Scope::Project,
        &vec![PadSelector::Title("Beta".to_string())],
        false,
        TitleBucket::Any,
    )
    .unwrap();
    assert_eq!(result.len(), 1);
    let pad = store.get_pad(result[0].1, Scope::Project, Bucket::Active).unwrap();
    assert_eq!(pad.metadata.title, "Beta");
}

#[test]
fn helpers_test_title_search_is_case_insensitive() {
    let mut store = new_store();
    add(&mut store, "UPPERCASE TITLE", "", None);

    let result = resolve_selectors(
        &store,
        Scope::Project,
        &vec![PadSelector::Title("uppercase".to_string())],
        false,
        TitleBucket::Any,
    )
    .unwrap();
    assert_eq!(result.len(), 1);
    let pad = store.get_pad(result[0].1, Scope::Project, Bucket::Active).unwrap();
    assert_eq!(pad.metadata.title, "UPPERCASE TITLE");
}

#[test]
fn helpers_test_title_search_delete_protection_disabled() {
    let mut store = new_store();
    add(&mut store, "ProtectedPad", "", None);
    protect_first(&mut store);

    let result = resolve_selectors(
        &store,
        Scope::Project,
        &vec![PadSelector::Title("ProtectedPad".to_string())],
        false,
        TitleBucket::Any,
    )
    .unwrap();
    assert_eq!(result.len(), 1);
}

#[test]
fn test_uuid_resolution() {
    let mut store = new_store();
    let pad_uuid = add(&mut store, "Pad A", "", None);

    let resolved =
        resolve_selectors(&store, Scope::Project, &vec![PadSelector::Uuid(pad_uuid)], false, TitleBucket::Any).unwrap();
    assert_eq!(resolved.len(), 1);
    assert_eq!(resolved[0].1, pad_uuid);
}

#[test]
fn test_short_uuid_resolves_to_pad() {
    let mut store = new_store();
    let pad_uuid = add(&mut store, "Pad A", "", None);

    let hex = uuid_text(pad_uuid).replace('-', "");
    let short = &hex[..8];

    let resolved = resolve_selectors(
        &store,
        Scope::Project,
        &vec![PadSelector::ShortUuid(short.to_string())],
        false,
        TitleBucket::Any,
    )
    .unwrap();
    assert_eq!(resolved.len(), 1);
    assert_eq!(resolved[0].1, pad_uuid);
}

#[test]
fn test_title_bucket_active_ignores_deleted_matches() {
    let mut store = new_store();
    add(&mut store, "Task for Padz", "", None);
    add(&mut store, "Feature Flag for Ids", "", None);
    delete::run(&mut store, Scope::Project, &vec![path(&[DisplayIndex::Regular(1)])]).unwrap();

    let result = resolve_selectors(
        &store,
        Scope::Project,
        &vec![PadSelector::Title("for".to_string())],
        false,
        TitleBucket::Active,
    )
    .unwrap();
    assert_eq!(result.len(), 1);
    let pad = store.get_pad(result[0].1, Scope::Project, Bucket::Active).unwrap();
    assert_eq!(pad.metadata.title, "Task for Padz");

    let any_result = resolve_selectors(
        &store,
        Scope::Project,
        &vec![PadSelector::Title("for".to_string())],
        false,
        TitleBucket::Any,
    );
    assert!(any_result.is_err());
}

#[test]
fn test_title_bucket_deleted_matches_only_deleted() {
    let mut store = new_store();
    add(&mut store, "Active Note", "", None);
    add(&mut store, "Trash Note", "", None);
    delete::run(&mut store, Scope::Project, &vec![path(&[DisplayIndex::Regular(1)])]).unwrap();

    let result = resolve_selectors(
        &store,
        Scope::Project,
        &vec![PadSelector::Title("Note".to_string())],
        false,
        TitleBucket::Deleted,
    )
    .unwrap();
    assert_eq!(result.len(), 1);
    let pad = store.get_pad(result[0].1, Scope::Project, Bucket::Deleted).unwrap();
    assert_eq!(pad.metadata.title, "Trash Note");
}

#[test]
fn test_title_bucket_archived_matches_only_archived() {
    let mut store = new_store();
    add(&mut store, "Active Shared", "", None);
    add(&mut store, "Archive Shared", "", None);
    archive::run(&mut store, Scope::Project, &vec![path(&[DisplayIndex::Regular(1)])]).unwrap();

    let result = resolve_selectors(
        &store,
        Scope::Project,
        &vec![PadSelector::Title("Shared".to_string())],
        false,
        TitleBucket::Archived,
    )
    .unwrap();
    assert_eq!(result.len(), 1);
    let pad = store.get_pad(result[0].1, Scope::Project, Bucket::Archived).unwrap();
    assert_eq!(pad.metadata.title, "Archive Shared");
}

#[test]
fn test_title_bucket_active_excludes_deleted_child_under_active_parent() {
    let mut store = new_store();
    add(&mut store, "Parent Folder", "", None);
    add(&mut store, "Keep Note", "", Some(path(&[DisplayIndex::Regular(1)])));
    add(&mut store, "Trash Note", "", Some(path(&[DisplayIndex::Regular(1)])));
    delete::run(&mut store, Scope::Project, &vec![path(&[DisplayIndex::Regular(1), DisplayIndex::Regular(1)])])
        .unwrap();

    let result = resolve_selectors(
        &store,
        Scope::Project,
        &vec![PadSelector::Title("Note".to_string())],
        false,
        TitleBucket::Active,
    )
    .unwrap();
    assert_eq!(result.len(), 1);
    let pad = store.get_pad(result[0].1, Scope::Project, Bucket::Active).unwrap();
    assert_eq!(pad.metadata.title, "Keep Note");
}

#[test]
fn test_title_search_matches_title_only_not_content() {
    let mut store = new_store();
    add(&mut store, "Shopping List", "Buy apples and oranges", None);
    add(&mut store, "Todo List", "Call dentist", None);

    let result = resolve_selectors(
        &store,
        Scope::Project,
        &vec![PadSelector::Title("apples".to_string())],
        false,
        TitleBucket::Any,
    );
    assert!(result.is_err());
    assert!(result.unwrap_err().message().contains("No pad found"));

    let result = resolve_selectors(
        &store,
        Scope::Project,
        &vec![PadSelector::Title("Shopping".to_string())],
        false,
        TitleBucket::Any,
    )
    .unwrap();
    assert_eq!(result.len(), 1);
    let pad = store.get_pad(result[0].1, Scope::Project, Bucket::Active).unwrap();
    assert_eq!(pad.metadata.title, "Shopping List");
}

#[test]
fn test_title_search_delete_protection_check() {
    let mut store = new_store();
    add(&mut store, "ProtectedPad", "", None);
    protect_first(&mut store);

    let result = resolve_selectors(
        &store,
        Scope::Project,
        &vec![PadSelector::Title("ProtectedPad".to_string())],
        true,
        TitleBucket::Any,
    );
    assert!(result.is_err());
    assert!(result.unwrap_err().message().contains("delete protected"));
}

#[test]
fn test_title_ambiguity_over_threshold_reports_count_only() {
    let mut store = new_store();
    for i in 1..=6 {
        add(&mut store, &format!("Meeting {}", i), "", None);
    }
    let result = resolve_selectors(
        &store,
        Scope::Project,
        &vec![PadSelector::Title("Meeting".to_string())],
        false,
        TitleBucket::Active,
    );
    assert!(result.is_err());
    let err = result.unwrap_err().message();
    assert!(err.contains("6 pads"));
    assert!(!err.contains("Meeting 1"));
}

#[test]
fn test_short_uuid_not_found() {
    let mut store = new_store();
    add(&mut store, "Pad A", "", None);
    let result = resolve_selectors(
        &store,
        Scope::Project,
        &vec![PadSelector::ShortUuid("00000000".to_string())],
        false,
        TitleBucket::Any,
    );
    assert!(result.is_err());
    assert!(result.unwrap_err().message().contains("No pad found with UUID prefix"));
}

fn resolve(store: &Store, sel: PadSelector, check: bool) -> Result<Vec<(Vec<DisplayIndex>, u128)>, padz::error::PadzError> {
    resolve_selectors(store, Scope::Project, &vec![sel], check, TitleBucket::Any)
}

fn short_hex(id: u128) -> String {
    uuid_text(id).replace('-', "")[..8].to_string()
}

#[test]
fn selector_resolve_test_title_search_no_match_returns_error() {
    let mut store = new_store();
    add(&mut store, "Alpha", "", None);
    add(&mut store, "Beta", "", None);
    let result = resolve(&store, PadSelector::Title("Gamma".to_string()), false);
    assert!(result.is_err());
    let err = result.unwrap_err().message();
    assert!(err.contains("No pad found matching"));
    assert!(err.contains("Gamma"));
}

#[test]
fn selector_resolve_test_title_search_multiple_matches_returns_error() {
    let mut store = new_store();
    add(&mut store, "Meeting Monday", "", None);
    add(&mut store, "Meeting Tuesday", "", None);
    add(&mut store, "Meeting Wednesday", "", None);
    let result = resolve(&store, PadSelector::Title("Meeting".to_string()), false);
    assert!(result.is_err());
    let err = result.unwrap_err().message();
    let plain = console::strip_ansi_codes(&err).to_string();
    assert!(plain.contains("multiple pads"));
    assert!(plain.contains("Meeting Monday"));
    assert!(plain.contains("Meeting Tuesday"));
    assert!(plain.contains("Meeting Wednesday"));
}

#[test]
fn selector_resolve_test_title_search_delete_protection_check() {
    let mut store = new_store();
    add(&mut store, "ProtectedPad", "", None);
    protect_first(&mut store);
    let result = resolve(&store, PadSelector::Title("ProtectedPad".to_string()), true);
    assert!(result.is_err());
    assert!(result.unwrap_err().message().contains("delete protected"));
}

#[test]
fn test_uuid_not_found_returns_error() {
    let mut store = new_store();
    add(&mut store, "Pad A", "", None);
    let fake = uuid::Uuid::new_v4().as_u128();
    let result = resolve(&store, PadSelector::Uuid(fake), false);
    assert!(result.is_err());
    assert!(result.unwrap_err().message().contains("No pad found with UUID"));
}

#[test]
fn test_uuid_delete_protection() {
    let mut store = new_store();
    let id = add(&mut store, "Pad A", "", None);
    protect_first(&mut store);
    let result = resolve(&store, PadSelector::Uuid(id), true);
    assert!(result.is_err());
    assert!(result.unwrap_err().message().contains("delete protected"));
}

#[test]
fn test_range_invalid_order_returns_error() {
    let mut store = new_store();
    add(&mut store, "Pad A", "", None);
    add(&mut store, "Pad B", "", None);
    add(&mut store, "Pad C", "", None);
    let result = resolve(
        &store,
        PadSelector::Range(vec![DisplayIndex::Regular(3)], vec![DisplayIndex::Regular(1)]),
        false,
    );
    assert!(result.is_err());
    assert!(result.unwrap_err().message().contains("appears after"));
}

#[test]
fn test_range_start_not_found_returns_error() {
    let mut store = new_store();
    add(&mut store, "Pad A", "", None);
    let result = resolve(
        &store,
        PadSelector::Range(vec![DisplayIndex::Regular(99)], vec![DisplayIndex::Regular(1)]),
        false,
    );
    assert!(result.is_err());
    let err = result.unwrap_err().message();
    assert!(err.contains("Range start"));
    assert!(err.contains("not found"));
}

#[test]
fn test_range_end_not_found_returns_error() {
    let mut store = new_store();
    add(&mut store, "Pad A", "", None);
    let result = resolve(
        &store,
        PadSelector::Range(vec![DisplayIndex::Regular(1)], vec![DisplayIndex::Regular(99)]),
        false,
    );
    assert!(result.is_err());
    let err = result.unwrap_err().message();
    assert!(err.contains("Range end"));
    assert!(err.contains("not found"));
}

#[test]
fn test_range_delete_protection_check() {
    let mut store = new_store();
    add(&mut store, "Pad A", "", None);
    add(&mut store, "Pad B", "", None);
    add(&mut store, "Pad C", "", None);
    let pads = store.list_pads(Scope::Project, Bucket::Active).unwrap();
    let mut pad_b = pads.iter().find(|p| p.metadata.title == "Pad B").unwrap().duplicate();
    pad_b.metadata.delete_protected = true;
    store.save_pad(&pad_b, Scope::Project, Bucket::Active).unwrap();
    let result = resolve(
        &store,
        PadSelector::Range(vec![DisplayIndex::Regular(1)], vec![DisplayIndex::Regular(3)]),
        true,
    );
    assert!(result.is_err());
    assert!(result.unwrap_err().message().contains("delete protected"));
}

#[test]
fn test_path_selector_not_found_returns_error() {
    let mut store = new_store();
    add(&mut store, "Pad A", "", None);
    let result = resolve(&store, PadSelector::Path(vec![DisplayIndex::Regular(99)]), false);
    assert!(result.is_err());
    assert!(result.unwrap_err().message().contains("not found"));
}

#[test]
fn test_path_selector_delete_protection_check() {
    let mut store = new_store();
    add(&mut store, "Pad A", "", None);
    protect_first(&mut store);
    let result = resolve(&store, PadSelector::Path(vec![DisplayIndex::Regular(1)]), true);
    assert!(result.is_err());
    assert!(result.unwrap_err().message().contains("delete protected"));
}

#[test]
fn test_short_uuid_delete_protection() {
    let mut store = new_store();
    let id = add(&mut store, "Pad A", "", None);
    protect_first(&mut store);
    let result = resolve(&store, PadSelector::ShortUuid(short_hex(id)), true);
    assert!(result.is_err());
    assert!(result.unwrap_err().message().contains("delete protected"));
}

#[test]
fn range_order_message_names_both_ends() {
    let mut store = new_store();
    add(&mut store, "Pad A", "", None);
    add(&mut store, "Pad B", "", None);
    let result = resolve(
        &store,
        PadSelector::Range(vec![DisplayIndex::Regular(2)], vec![DisplayIndex::Regular(1)]),
        false,
    );
    assert_eq!(result.unwrap_err().message(), "Invalid range: 2 appears after 1 in the list");
}

#[test]
fn helpers_test_title_search_no_match_returns_error() {
    let mut store = new_store();
    add(&mut store, "Alpha", "", None);
    add(&mut store, "Beta", "", None);
    let result = resolve(&store, PadSelector::Title("Gamma".to_string()), false);
    assert!(result.is_err());
    let err = result.unwrap_err().message();
    assert!(err.contains("No pad found matching"));
    assert!(err.contains("Gamma"));
}

#[test]
fn helpers_test_title_search_multiple_matches_returns_error() {
    let mut store = new_store();
    add(&mut store, "Meeting Monday", "", None);
    add(&mut store, "Meeting Tuesday", "", None);
    add(&mut store, "Meeting Wednesday", "", None);
    let result = resolve(&store, PadSelector::Title("Meeting".to_string()), false);
    assert!(result.is_err());
    let err = result.unwrap_err().message();
    assert!(err.contains("multiple"));
    assert!(err.contains("3"));
}
