use padz::commands::{create, delete};
use padz::helpers::{collect_nested_pads, pads_by_selectors};
use padz::index::{DisplayIndex, PadSelector};
use padz::model::Scope;
use padz::resolve::TitleBucket;
use padz::store::Store;

fn add(store: &mut Store, title: &str, content: &str, parent: Option<PadSelector>) {
    create::run(store, Scope::Project, title.to_string(), content.to_string(), parent).unwrap();
}

fn path(p: &[DisplayIndex]) -> PadSelector {
    PadSelector::Path(p.to_vec())
}

#[test]
fn collect_nested_returns_parent_then_children_with_depths() {
    let mut store = Store::new();
    add(&mut store, "Parent", "", None);
    add(&mut store, "Child A", "", Some(path(&[DisplayIndex::Regular(1)])));
    add(&mut store, "Child B", "", Some(path(&[DisplayIndex::Regular(1)])));

    let flat =
        pads_by_selectors(&store, Scope::Project, &vec![path(&[DisplayIndex::Regular(1)])], false, TitleBucket::Active)
            .unwrap();
    assert_eq!(flat.len(), 1);

    let nested = collect_nested_pads(&store, Scope::Project, &flat).unwrap();
    assert_eq!(nested.len(), 3);
    assert_eq!(nested[0].pad.pad.metadata.title, "Parent");
    assert_eq!(nested[0].depth, 0);
    assert_eq!(nested[1].depth, 1);
    assert_eq!(nested[2].depth, 1);
}

#[test]
fn collect_nested_deep_tree_tracks_depth() {
    let mut store = Store::new();
    add(&mut store, "Root", "", None);
    add(&mut store, "Level 1", "", Some(path(&[DisplayIndex::Regular(1)])));
    add(&mut store, "Level 2", "", Some(path(&[DisplayIndex::Regular(1), DisplayIndex::Regular(1)])));

    let flat =
        pads_by_selectors(&store, Scope::Project, &vec![path(&[DisplayIndex::Regular(1)])], false, TitleBucket::Active)
            .unwrap();
    let nested = collect_nested_pads(&store, Scope::Project, &flat).unwrap();

    let depths: Vec<usize> = nested.iter().map(|np| np.depth).collect();
    assert_eq!(depths, vec![0, 1, 2]);
}

#[test]
fn collect_nested_skips_deleted_children() {
    let mut store = Store::new();
    add(&mut store, "Parent", "", None);
    add(&mut store, "Keep", "", Some(path(&[DisplayIndex::Regular(1)])));
    add(&mut store, "Delete Me", "", Some(path(&[DisplayIndex::Regular(1)])));
    delete::run(&mut store, Scope::Project, &vec![path(&[DisplayIndex::Regular(1), DisplayIndex::Regular(1)])])
        .unwrap();

    let flat =
        pads_by_selectors(&store, Scope::Project, &vec![path(&[DisplayIndex::Regular(1)])], false, TitleBucket::Active)
            .unwrap();
    let nested = collect_nested_pads(&store, Scope::Project, &flat).unwrap();

    assert_eq!(nested.len(), 2);
    assert_eq!(nested[0].pad.pad.metadata.title, "Parent");
    assert_eq!(nested[1].pad.pad.metadata.title, "Keep");
}

#[test]
fn collect_nested_leaf_pad_returns_single() {
    let mut store = Store::new();
    add(&mut store, "Leaf", "body", None);

    let flat =
        pads_by_selectors(&store, Scope::Project, &vec![path(&[DisplayIndex::Regular(1)])], false, TitleBucket::Active)
            .unwrap();
    let nested = collect_nested_pads(&store, Scope::Project, &flat).unwrap();

    assert_eq!(nested.len(), 1);
    assert_eq!(nested[0].depth, 0);
    assert_eq!(nested[0].pad.pad.metadata.title, "Leaf");
}

#[test]
fn collect_nested_multiple_roots_each_expand() {
    let mut store = Store::new();
    add(&mut store, "Root A", "", None);
    add(&mut store, "Root B", "", None);
    add(&mut store, "Child of A", "", Some(path(&[DisplayIndex::Regular(2)])));

    let flat = pads_by_selectors(
        &store,
        Scope::Project,
        &vec![path(&[DisplayIndex::Regular(1)]), path(&[DisplayIndex::Regular(2)])],
        false,
        TitleBucket::Active,
    )
    .unwrap();
    let nested = collect_nested_pads(&store, Scope::Project, &flat).unwrap();

    assert_eq!(nested.len(), 3);
    assert_eq!(nested[0].pad.pad.metadata.title, "Root B");
    assert_eq!(nested[0].depth, 0);
    assert_eq!(nested[1].pad.pad.metadata.title, "Root A");
    assert_eq!(nested[1].depth, 0);
    assert_eq!(nested[2].pad.pad.metadata.title, "Child of A");
    assert_eq!(nested[2].depth, 1);
}

#[test]
fn descendants_of_a_parent_are_found() {
    let mut store = Store::new();
    add(&mut store, "Root", "", None);
    add(&mut store, "Child", "", Some(path(&[DisplayIndex::Regular(1)])));
    let pads = store.list_pads(Scope::Project, padz::model::Bucket::Active).unwrap();
    let root = pads.iter().find(|p| p.metadata.title == "Root").unwrap().metadata.id;
    let child = pads.iter().find(|p| p.metadata.title == "Child").unwrap().metadata.id;
    let d = padz::helpers::get_descendant_ids(&store, Scope::Project, &vec![root]).unwrap();
    assert_eq!(d, vec![child]);
}

#[test]
fn uuid_lookup_takes_first_match_in_pre_order() {
    let mut store = Store::new();
    add(&mut store, "Alpha", "", None);
    add(&mut store, "Beta", "", None);
    add(&mut store, "Child", "", Some(path(&[DisplayIndex::Regular(1)])));
    padz::commands::pinning::pin(&mut store, Scope::Project, &vec![path(&[DisplayIndex::Regular(1)])]).unwrap();
    let forest = padz::store::indexed_pads(&store, Scope::Project).unwrap();
    let pinned = forest.iter().find(|d| matches!(d.index, DisplayIndex::Pinned(_))).unwrap();
    let id = pinned.pad.metadata.id;

    let any = padz::helpers::find_pad_by_uuid(&forest, id, padz::helpers::IndexFilter::Any).unwrap();
    assert!(matches!(any.index, DisplayIndex::Pinned(_)));
    let regular = padz::helpers::find_pad_by_uuid(&forest, id, padz::helpers::IndexFilter::Regular).unwrap();
    assert!(matches!(regular.index, DisplayIndex::Regular(_)));
    assert_eq!(regular.children.len(), 1);
    assert!(padz::helpers::find_pad_by_uuid(&forest, id.wrapping_add(1), padz::helpers::IndexFilter::Any).is_none());
}
