use padz::commands::get::search::{extract_context, highlight_matches};
use padz::commands::get::{run, PadFilter, PadStatusFilter};
use padz::commands::{create, delete};
use padz::index::{DisplayIndex, PadSelector};
use padz::model::{Bucket, Scope, TodoStatus};
use padz::store::Store;
use padz::tree::MatchSegment;

fn new_store() -> Store {
    Store::new()
}

fn add(store: &mut Store, title: &str, content: &str, parent: Option<PadSelector>) {
    create::run(store, Scope::Project, title.to_string(), content.to_string(), parent).unwrap();
}

fn path(p: &[DisplayIndex]) -> PadSelector {
    PadSelector::Path(p.to_vec())
}

fn filter(status: PadStatusFilter, todo: Option<TodoStatus>) -> PadFilter {
    PadFilter { status, search_term: None, todo_status: todo, tags: None }
}

fn set_status(store: &mut Store, title: &str, status: TodoStatus) {
    let pads = store.list_pads(Scope::Project, Bucket::Active).unwrap();
    let mut pad = pads.iter().find(|p| p.metadata.title == title).unwrap().duplicate();
    pad.metadata.status = status;
    store.save_pad(&pad, Scope::Project, Bucket::Active).unwrap();
}

#[test]
fn get_test_filters() {
    let mut store = new_store();
    add(&mut store, "Active", "", None);
    add(&mut store, "Deleted", "", None);
    delete::run(&mut store, Scope::Project, &vec![path(&[DisplayIndex::Regular(1)])]).unwrap();

    let res = run(&store, Scope::Project, filter(PadStatusFilter::Active, None), &vec![]).unwrap();
    assert_eq!(res.listed_pads.len(), 1);
    assert_eq!(res.listed_pads[0].pad.metadata.title, "Active");

    let res = run(&store, Scope::Project, filter(PadStatusFilter::Deleted, None), &vec![]).unwrap();
    assert_eq!(res.listed_pads.len(), 1);
    assert_eq!(res.listed_pads[0].pad.metadata.title, "Deleted");

    let res = run(&store, Scope::Project, filter(PadStatusFilter::All, None), &vec![]).unwrap();
    assert_eq!(res.listed_pads.len(), 2);
}

#[test]
fn get_test_highlight_matches() {
    let text = "Hello World";
    let segments = highlight_matches(text, "world");
    assert_eq!(segments.len(), 2);
    assert_eq!(segments[0], MatchSegment::Plain("Hello ".to_string()));
    assert_eq!(segments[1], MatchSegment::Match("World".to_string()));
}

#[test]
fn get_test_active_filter_shows_nested_children() {
    let mut store = new_store();
    add(&mut store, "Parent", "", None);
    add(&mut store, "Child", "", Some(path(&[DisplayIndex::Regular(1)])));

    let res = run(&store, Scope::Project, PadFilter::default(), &vec![]).unwrap();
    assert_eq!(res.listed_pads.len(), 1);
    assert_eq!(res.listed_pads[0].pad.metadata.title, "Parent");
    assert_eq!(res.listed_pads[0].children.len(), 1);
    assert_eq!(res.listed_pads[0].children[0].pad.metadata.title, "Child");
}

#[test]
fn get_test_active_filter_hides_deleted_child() {
    let mut store = new_store();
    add(&mut store, "Parent", "", None);
    add(&mut store, "Child1", "", Some(path(&[DisplayIndex::Regular(1)])));
    add(&mut store, "Child2", "", Some(path(&[DisplayIndex::Regular(1)])));

    delete::run(&mut store, Scope::Project, &vec![path(&[DisplayIndex::Regular(1), DisplayIndex::Regular(1)])])
        .unwrap();

    let res = run(&store, Scope::Project, PadFilter::default(), &vec![]).unwrap();
    assert_eq!(res.listed_pads.len(), 1);
    assert_eq!(res.listed_pads[0].children.len(), 1);
    assert_eq!(res.listed_pads[0].children[0].pad.metadata.title, "Child1");
}

#[test]
fn get_test_deleted_filter_shows_parent_with_children() {
    let mut store = new_store();
    add(&mut store, "Parent", "", None);
    add(&mut store, "Child", "", Some(path(&[DisplayIndex::Regular(1)])));
    delete::run(&mut store, Scope::Project, &vec![path(&[DisplayIndex::Regular(1)])]).unwrap();

    let res = run(&store, Scope::Project, filter(PadStatusFilter::Deleted, None), &vec![]).unwrap();
    assert_eq!(res.listed_pads.len(), 1);
    assert_eq!(res.listed_pads[0].pad.metadata.title, "Parent");
    assert_eq!(res.listed_pads[0].children.len(), 1);
    assert_eq!(res.listed_pads[0].children[0].pad.metadata.title, "Child");
}

#[test]
fn get_test_active_filter_hides_children_of_deleted_parent() {
    let mut store = new_store();
    add(&mut store, "Parent", "", None);
    add(&mut store, "Child", "", Some(path(&[DisplayIndex::Regular(1)])));
    delete::run(&mut store, Scope::Project, &vec![path(&[DisplayIndex::Regular(1)])]).unwrap();

    let res = run(&store, Scope::Project, PadFilter::default(), &vec![]).unwrap();
    assert_eq!(res.listed_pads.len(), 0);
}

#[test]
fn get_test_todo_status_filter_planned() {
    let mut store = new_store();
    add(&mut store, "Planned1", "", None);
    add(&mut store, "Planned2", "", None);
    set_status(&mut store, "Planned1", TodoStatus::Done);

    let res = run(&store, Scope::Project, filter(PadStatusFilter::Active, Some(TodoStatus::Planned)), &vec![]).unwrap();
    assert_eq!(res.listed_pads.len(), 1);
    assert_eq!(res.listed_pads[0].pad.metadata.title, "Planned2");
}

#[test]
fn get_test_todo_status_filter_in_progress() {
    let mut store = new_store();
    add(&mut store, "Task1", "", None);
    add(&mut store, "Task2", "", None);
    set_status(&mut store, "Task1", TodoStatus::InProgress);

    let res =
        run(&store, Scope::Project, filter(PadStatusFilter::Active, Some(TodoStatus::InProgress)), &vec![]).unwrap();
    assert_eq!(res.listed_pads.len(), 1);
    assert_eq!(res.listed_pads[0].pad.metadata.title, "Task1");
}

#[test]
fn get_test_todo_status_filter_none_shows_all() {
    let mut store = new_store();
    add(&mut store, "Planned", "", None);
    add(&mut store, "Done", "", None);
    add(&mut store, "InProgress", "", None);
    set_status(&mut store, "Done", TodoStatus::Done);
    set_status(&mut store, "InProgress", TodoStatus::InProgress);

    let res = run(&store, Scope::Project, filter(PadStatusFilter::Active, None), &vec![]).unwrap();
    assert_eq!(res.listed_pads.len(), 3);
}

#[test]
fn get_test_todo_status_filter_preserves_index() {
    let mut store = new_store();
    add(&mut store, "First", "", None);
    add(&mut store, "Second", "", None);
    add(&mut store, "Third", "", None);
    set_status(&mut store, "Second", TodoStatus::Done);

    let res = run(&store, Scope::Project, filter(PadStatusFilter::Active, Some(TodoStatus::Planned)), &vec![]).unwrap();
    assert_eq!(res.listed_pads.len(), 2);
    let third = res.listed_pads.iter().find(|dp| dp.pad.metadata.title == "Third").unwrap();
    assert!(matches!(third.index, DisplayIndex::Regular(1)));
    let first = res.listed_pads.iter().find(|dp| dp.pad.metadata.title == "First").unwrap();
    assert!(matches!(first.index, DisplayIndex::Regular(3)));
}

#[test]
fn get_test_todo_status_filter_with_nested_pads() {
    let mut store = new_store();
    add(&mut store, "Parent", "", None);
    add(&mut store, "Child1", "", Some(path(&[DisplayIndex::Regular(1)])));
    add(&mut store, "Child2", "", Some(path(&[DisplayIndex::Regular(1)])));
    set_status(&mut store, "Child1", TodoStatus::Done);

    let res = run(&store, Scope::Project, filter(PadStatusFilter::Active, Some(TodoStatus::Planned)), &vec![]).unwrap();
    assert_eq!(res.listed_pads.len(), 1);
    assert_eq!(res.listed_pads[0].pad.metadata.title, "Parent");
    assert_eq!(res.listed_pads[0].children.len(), 1);
    assert_eq!(res.listed_pads[0].children[0].pad.metadata.title, "Child2");
}

#[test]
fn get_test_tag_filter_empty_tags_shows_all() {
    let mut store = new_store();
    add(&mut store, "Pad1", "", None);
    add(&mut store, "Pad2", "", None);

    let res = run(
        &store,
        Scope::Project,
        PadFilter { status: PadStatusFilter::Active, search_term: None, todo_status: None, tags: Some(vec![]) },
        &vec![],
    )
    .unwrap();
    assert_eq!(res.listed_pads.len(), 2);
}

#[test]
fn get_test_id_selector_single_pad() {
    let mut store = new_store();
    add(&mut store, "First", "", None);
    add(&mut store, "Second", "", None);
    add(&mut store, "Third", "", None);

    let res = run(&store, Scope::Project, PadFilter::default(), &vec![path(&[DisplayIndex::Regular(2)])]).unwrap();
    assert_eq!(res.listed_pads.len(), 1);
    assert_eq!(res.listed_pads[0].pad.metadata.title, "Second");
}

#[test]
fn get_test_id_selector_with_children() {
    let mut store = new_store();
    add(&mut store, "Parent1", "", None);
    add(&mut store, "Parent2", "", None);
    add(&mut store, "Child1", "", Some(path(&[DisplayIndex::Regular(2)])));
    add(&mut store, "Child2", "", Some(path(&[DisplayIndex::Regular(2)])));

    let res = run(&store, Scope::Project, PadFilter::default(), &vec![path(&[DisplayIndex::Regular(2)])]).unwrap();
    assert_eq!(res.listed_pads.len(), 1);
    assert_eq!(res.listed_pads[0].pad.metadata.title, "Parent1");
    assert_eq!(res.listed_pads[0].children.len(), 2);
}

#[test]
fn get_test_id_selector_range() {
    let mut store = new_store();
    add(&mut store, "First", "", None);
    add(&mut store, "Second", "", None);
    add(&mut store, "Third", "", None);
    add(&mut store, "Fourth", "", None);

    let res = run(
        &store,
        Scope::Project,
        PadFilter::default(),
        &vec![PadSelector::Range(vec![DisplayIndex::Regular(2)], vec![DisplayIndex::Regular(3)])],
    )
    .unwrap();
    assert_eq!(res.listed_pads.len(), 2);
}

#[test]
fn get_test_id_selector_not_found() {
    let mut store = new_store();
    add(&mut store, "Only", "", None);

    let res = run(&store, Scope::Project, PadFilter::default(), &vec![path(&[DisplayIndex::Regular(5)])]);
    assert!(res.is_err());
}

#[test]
fn get_test_id_selector_preserves_index() {
    let mut store = new_store();
    add(&mut store, "First", "", None);
    add(&mut store, "Second", "", None);
    add(&mut store, "Third", "", None);

    let res = run(&store, Scope::Project, PadFilter::default(), &vec![path(&[DisplayIndex::Regular(3)])]).unwrap();
    assert_eq!(res.listed_pads.len(), 1);
    assert!(matches!(res.listed_pads[0].index, DisplayIndex::Regular(3)));
}

#[test]
fn mod_test_filters() {
    let mut store = new_store();
    add(&mut store, "Active", "", None);
    add(&mut store, "Deleted", "", None);
    delete::run(&mut store, Scope::Project, &vec![path(&[DisplayIndex::Regular(1)])]).unwrap();

    let res = run(&store, Scope::Project, filter(PadStatusFilter::Active, None), &vec![]).unwrap();
    assert_eq!(res.listed_pads.len(), 1);
    assert_eq!(res.listed_pads[0].pad.metadata.title, "Active");

    let res = run(&store, Scope::Project, filter(PadStatusFilter::Deleted, None), &vec![]).unwrap();
    assert_eq!(res.listed_pads.len(), 1);
    assert_eq!(res.listed_pads[0].pad.metadata.title, "Deleted");

    let res = run(&store, Scope::Project, filter(PadStatusFilter::All, None), &vec![]).unwrap();
    assert_eq!(res.listed_pads.len(), 2);
}

#[test]
fn search_test_highlight_matches() {
    let text = "Hello World";
    let segments = highlight_matches(text, "world");
    assert_eq!(segments.len(), 2);
    assert_eq!(segments[0], MatchSegment::Plain("Hello ".to_string()));
    assert_eq!(segments[1], MatchSegment::Match("World".to_string()));
}

#[test]
fn status_filter_test_active_filter_shows_nested_children() {
    let mut store = new_store();
    add(&mut store, "Parent", "", None);
    add(&mut store, "Child", "", Some(path(&[DisplayIndex::Regular(1)])));

    let res = run(&store, Scope::Project, PadFilter::default(), &vec![]).unwrap();
    assert_eq!(res.listed_pads.len(), 1);
    assert_eq!(res.listed_pads[0].pad.metadata.title, "Parent");
    assert_eq!(res.listed_pads[0].children.len(), 1);
    assert_eq!(res.listed_pads[0].children[0].pad.metadata.title, "Child");
}

#[test]
fn status_filter_test_active_filter_hides_deleted_child() {
    let mut store = new_store();
    add(&mut store, "Parent", "", None);
    add(&mut store, "Child1", "", Some(path(&[DisplayIndex::Regular(1)])));
    add(&mut store, "Child2", "", Some(path(&[DisplayIndex::Regular(1)])));

    delete::run(&mut store, Scope::Project, &vec![path(&[DisplayIndex::Regular(1), DisplayIndex::Regular(1)])])
        .unwrap();

    let res = run(&store, Scope::Project, PadFilter::default(), &vec![]).unwrap();
    assert_eq!(res.listed_pads.len(), 1);
    assert_eq!(res.listed_pads[0].children.len(), 1);
    assert_eq!(res.listed_pads[0].children[0].pad.metadata.title, "Child1");
}

#[test]
fn status_filter_test_deleted_filter_shows_parent_with_children() {
    let mut store = new_store();
    add(&mut store, "Parent", "", None);
    add(&mut store, "Child", "", Some(path(&[DisplayIndex::Regular(1)])));
    delete::run(&mut store, Scope::Project, &vec![path(&[DisplayIndex::Regular(1)])]).unwrap();

    let res = run(&store, Scope::Project, filter(PadStatusFilter::Deleted, None), &vec![]).unwrap();
    assert_eq!(res.listed_pads.len(), 1);
    assert_eq!(res.listed_pads[0].pad.metadata.title, "Parent");
    assert_eq!(res.listed_pads[0].children.len(), 1);
    assert_eq!(res.listed_pads[0].children[0].pad.metadata.title, "Child");
}

#[test]
fn status_filter_test_active_filter_hides_children_of_deleted_parent() {
    let mut store = new_store();
    add(&mut store, "Parent", "", None);
    add(&mut store, "Child", "", Some(path(&[DisplayIndex::Regular(1)])));
    delete::run(&mut store, Scope::Project, &vec![path(&[DisplayIndex::Regular(1)])]).unwrap();

    let res = run(&store, Scope::Project, PadFilter::default(), &vec![]).unwrap();
    assert_eq!(res.listed_pads.len(), 0);
}

#[test]
fn attr_filter_test_todo_status_filter_planned() {
    let mut store = new_store();
    add(&mut store, "Planned1", "", None);
    add(&mut store, "Planned2", "", None);
    set_status(&mut store, "Planned1", TodoStatus::Done);

    let res = run(&store, Scope::Project, filter(PadStatusFilter::Active, Some(TodoStatus::Planned)), &vec![]).unwrap();
    assert_eq!(res.listed_pads.len(), 1);
    assert_eq!(res.listed_pads[0].pad.metadata.title, "Planned2");
}

#[test]
fn attr_filter_test_todo_status_filter_in_progress() {
    let mut store = new_store();
    add(&mut store, "Task1", "", None);
    add(&mut store, "Task2", "", None);
    set_status(&mut store, "Task1", TodoStatus::InProgress);

    let res =
        run(&store, Scope::Project, filter(PadStatusFilter::Active, Some(TodoStatus::InProgress)), &vec![]).unwrap();
    assert_eq!(res.listed_pads.len(), 1);
    assert_eq!(res.listed_pads[0].pad.metadata.title, "Task1");
}

#[test]
fn attr_filter_test_todo_status_filter_none_shows_all() {
    let mut store = new_store();
    add(&mut store, "Planned", "", None);
    add(&mut store, "Done", "", None);
    add(&mut store, "InProgress", "", None);
    set_status(&mut store, "Done", TodoStatus::Done);
    set_status(&mut store, "InProgress", TodoStatus::InProgress);

    let res = run(&store, Scope::Project, filter(PadStatusFilter::Active, None), &vec![]).unwrap();
    assert_eq!(res.listed_pads.len(), 3);
}

#[test]
fn attr_filter_test_todo_status_filter_preserves_index() {
    let mut store = new_store();
    add(&mut store, "First", "", None);
    add(&mut store, "Second", "", None);
    add(&mut store, "Third", "", None);
    set_status(&mut store, "Second", TodoStatus::Done);

    let res = run(&store, Scope::Project, filter(PadStatusFilter::Active, Some(TodoStatus::Planned)), &vec![]).unwrap();
    assert_eq!(res.listed_pads.len(), 2);
    let third = res.listed_pads.iter().find(|dp| dp.pad.metadata.title == "Third").unwrap();
    assert!(matches!(third.index, DisplayIndex::Regular(1)));
    let first = res.listed_pads.iter().find(|dp| dp.pad.metadata.title == "First").unwrap();
    assert!(matches!(first.index, DisplayIndex::Regular(3)));
}

#[test]
fn attr_filter_test_todo_status_filter_with_nested_pads() {
    let mut store = new_store();
    add(&mut store, "Parent", "", None);
    add(&mut store, "Child1", "", Some(path(&[DisplayIndex::Regular(1)])));
    add(&mut store, "Child2", "", Some(path(&[DisplayIndex::Regular(1)])));
    set_status(&mut store, "Child1", TodoStatus::Done);

    let res = run(&store, Scope::Project, filter(PadStatusFilter::Active, Some(TodoStatus::Planned)), &vec![]).unwrap();
    assert_eq!(res.listed_pads.len(), 1);
    assert_eq!(res.listed_pads[0].pad.metadata.title, "Parent");
    assert_eq!(res.listed_pads[0].children.len(), 1);
    assert_eq!(res.listed_pads[0].children[0].pad.metadata.title, "Child2");
}

#[test]
fn attr_filter_test_tag_filter_empty_tags_shows_all() {
    let mut store = new_store();
    add(&mut store, "Pad1", "", None);
    add(&mut store, "Pad2", "", None);

    let res = run(
        &store,
        Scope::Project,
        PadFilter { status: PadStatusFilter::Active, search_term: None, todo_status: None, tags: Some(vec![]) },
        &vec![],
    )
    .unwrap();
    assert_eq!(res.listed_pads.len(), 2);
}

#[test]
fn selector_filter_test_id_selector_single_pad() {
    let mut store = new_store();
    add(&mut store, "First", "", None);
    add(&mut store, "Second", "", None);
    add(&mut store, "Third", "", None);

    let res = run(&store, Scope::Project, PadFilter::default(), &vec![path(&[DisplayIndex::Regular(2)])]).unwrap();
    assert_eq!(res.listed_pads.len(), 1);
    assert_eq!(res.listed_pads[0].pad.metadata.title, "Second");
}

#[test]
fn selector_filter_test_id_selector_with_children() {
    let mut store = new_store();
    add(&mut store, "Parent1", "", None);
    add(&mut store, "Parent2", "", None);
    add(&mut store, "Child1", "", Some(path(&[DisplayIndex::Regular(2)])));
    add(&mut store, "Child2", "", Some(path(&[DisplayIndex::Regular(2)])));

    let res = run(&store, Scope::Project, PadFilter::default(), &vec![path(&[DisplayIndex::Regular(2)])]).unwrap();
    assert_eq!(res.listed_pads.len(), 1);
    assert_eq!(res.listed_pads[0].pad.metadata.title, "Parent1");
    assert_eq!(res.listed_pads[0].children.len(), 2);
}

#[test]
fn selector_filter_test_id_selector_range() {
    let mut store = new_store();
    add(&mut store, "First", "", None);
    add(&mut store, "Second", "", None);
    add(&mut store, "Third", "", None);
    add(&mut store, "Fourth", "", None);

    let res = run(
        &store,
        Scope::Project,
        PadFilter::default(),
        &vec![PadSelector::Range(vec![DisplayIndex::Regular(2)], vec![DisplayIndex::Regular(3)])],
    )
    .unwrap();
    assert_eq!(res.listed_pads.len(), 2);
}

#[test]
fn selector_filter_test_id_selector_not_found() {
    let mut store = new_store();
    add(&mut store, "Only", "", None);

    let res = run(&store, Scope::Project, PadFilter::default(), &vec![path(&[DisplayIndex::Regular(5)])]);
    assert!(res.is_err());
}

#[test]
fn selector_filter_test_id_selector_preserves_index() {
    let mut store = new_store();
    add(&mut store, "First", "", None);
    add(&mut store, "Second", "", None);
    add(&mut store, "Third", "", None);

    let res = run(&store, Scope::Project, PadFilter::default(), &vec![path(&[DisplayIndex::Regular(3)])]).unwrap();
    assert_eq!(res.listed_pads.len(), 1);
    assert!(matches!(res.listed_pads[0].index, DisplayIndex::Regular(3)));
}

#[test]
fn test_search() {
    let mut store = new_store();
    add(&mut store, "Foo", "", None);
    add(&mut store, "Bar", "contains foo", None);

    let res = run(
        &store,
        Scope::Project,
        PadFilter { status: PadStatusFilter::Active, search_term: Some("foo".into()), todo_status: None, tags: None },
        &vec![],
    )
    .unwrap();
    assert_eq!(res.listed_pads.len(), 2);
    assert_eq!(res.listed_pads[0].pad.metadata.title, "Foo");
    let matches_0 = res.listed_pads[0].matches.as_ref().unwrap();
    assert!(matches_0.iter().any(|m| m.line_number == 0));
    let matches_1 = res.listed_pads[1].matches.as_ref().unwrap();
    assert!(matches_1.iter().any(|m| m.line_number == 3));
}

#[test]
fn test_extract_context() {
    let line = "One two three four match five six seven eight";
    let segments = extract_context(line, "match", 3);
    assert!(segments.len() >= 3);
    let joined: String = segments
        .iter()
        .map(|s| match s {
            MatchSegment::Plain(t) => t.as_str(),
            MatchSegment::Match(t) => t.as_str(),
        })
        .collect();
    assert!(joined.contains("match"));
    assert!(joined.contains("two three four"));
    assert!(joined.contains("five six seven"));
    assert!(!joined.contains("One"));
    assert!(!joined.contains("eight"));
    assert_eq!(segments[0], MatchSegment::Plain("\u{2026}".to_string()));
    assert_eq!(segments[segments.len() - 1], MatchSegment::Plain("\u{2026}".to_string()));
}

#[test]
fn highlight_marks_every_occurrence() {
    let segments = highlight_matches("abcabc", "b");
    assert_eq!(
        segments,
        vec![
            MatchSegment::Plain("a".to_string()),
            MatchSegment::Match("b".to_string()),
            MatchSegment::Plain("ca".to_string()),
            MatchSegment::Match("b".to_string()),
            MatchSegment::Plain("c".to_string()),
        ]
    );
}

#[test]
fn search_ranks_shorter_titles_first_on_equal_scores() {
    let mut store = new_store();
    add(&mut store, "rust notes long", "", None);
    add(&mut store, "rust", "", None);
    let res = run(
        &store,
        Scope::Project,
        PadFilter { status: PadStatusFilter::Active, search_term: Some("RUST".into()), todo_status: None, tags: None },
        &vec![],
    )
    .unwrap();
    assert_eq!(res.listed_pads.len(), 2);
    assert_eq!(res.listed_pads[0].pad.metadata.title, "rust");
}

#[test]
fn tag_filter_requires_all_tags() {
    let mut store = new_store();
    add(&mut store, "Pad1", "", None);
    add(&mut store, "Pad2", "", None);
    let pads = store.list_pads(Scope::Project, Bucket::Active).unwrap();
    let mut p1 = pads.iter().find(|p| p.metadata.title == "Pad1").unwrap().duplicate();
    p1.metadata.tags = vec!["work".to_string(), "rust".to_string()];
    store.save_pad(&p1, Scope::Project, Bucket::Active).unwrap();
    let mut p2 = pads.iter().find(|p| p.metadata.title == "Pad2").unwrap().duplicate();
    p2.metadata.tags = vec!["work".to_string()];
    store.save_pad(&p2, Scope::Project, Bucket::Active).unwrap();

    let res = run(
        &store,
        Scope::Project,
        PadFilter {
            status: PadStatusFilter::Active,
            search_term: None,
            todo_status: None,
            tags: Some(vec!["work".to_string(), "rust".to_string()]),
        },
        &vec![],
    )
    .unwrap();
    assert_eq!(res.listed_pads.len(), 1);
    assert_eq!(res.listed_pads[0].pad.metadata.title, "Pad1");
}

#[test]
fn unknown_title_selector_is_an_error() {
    let mut store = new_store();
    add(&mut store, "Only", "", None);
    let res = run(&store, Scope::Project, PadFilter::default(), &vec![PadSelector::Title("zzz".to_string())]);
    assert!(res.is_err());
}

fn set_tags(store: &mut Store, title: &str, tags: &[&str]) {
    let pads = store.list_pads(Scope::Project, Bucket::Active).unwrap();
    let mut pad = pads.iter().find(|p| p.metadata.title == title).unwrap().duplicate();
    pad.metadata.tags = tags.iter().map(|t| t.to_string()).collect();
    store.save_pad(&pad, Scope::Project, Bucket::Active).unwrap();
}

fn tag_filter(tags: &[&str], search: Option<&str>) -> PadFilter {
    PadFilter {
        status: PadStatusFilter::Active,
        search_term: search.map(|s| s.to_string()),
        todo_status: None,
        tags: Some(tags.iter().map(|t| t.to_string()).collect()),
    }
}

fn listed_titles(res: &padz::commands::CmdResult) -> Vec<String> {
    res.listed_pads.iter().map(|dp| dp.pad.metadata.title.clone()).collect()
}

fn todo_status_filter_done() {
    let mut store = new_store();
    add(&mut store, "Todo1", "", None);
    add(&mut store, "Todo2", "", None);
    add(&mut store, "Todo3", "", None);
    set_status(&mut store, "Todo1", TodoStatus::Done);
    set_status(&mut store, "Todo2", TodoStatus::Done);
    let res = run(&store, Scope::Project, filter(PadStatusFilter::Active, Some(TodoStatus::Done)), &vec![]).unwrap();
    assert_eq!(res.listed_pads.len(), 2);
    let titles = listed_titles(&res);
    assert!(titles.contains(&"Todo1".to_string()));
    assert!(titles.contains(&"Todo2".to_string()));
}

fn tag_filter_single_tag() {
    let mut store = new_store();
    add(&mut store, "Pad1", "", None);
    add(&mut store, "Pad2", "", None);
    add(&mut store, "Pad3", "", None);
    set_tags(&mut store, "Pad1", &["work"]);
    set_tags(&mut store, "Pad2", &["rust"]);
    let res = run(&store, Scope::Project, tag_filter(&["work"], None), &vec![]).unwrap();
    assert_eq!(res.listed_pads.len(), 1);
    assert_eq!(res.listed_pads[0].pad.metadata.title, "Pad1");
}

fn tag_filter_multiple_tags_and_logic() {
    let mut store = new_store();
    add(&mut store, "Pad1", "", None);
    add(&mut store, "Pad2", "", None);
    set_tags(&mut store, "Pad1", &["work", "rust"]);
    set_tags(&mut store, "Pad2", &["work"]);
    let res = run(&store, Scope::Project, tag_filter(&["work", "rust"], None), &vec![]).unwrap();
    assert_eq!(res.listed_pads.len(), 1);
    assert_eq!(res.listed_pads[0].pad.metadata.title, "Pad1");
}

fn tag_filter_no_matches() {
    let mut store = new_store();
    add(&mut store, "Pad1", "", None);
    let res = run(&store, Scope::Project, tag_filter(&["work"], None), &vec![]).unwrap();
    assert_eq!(res.listed_pads.len(), 0);
}

fn tag_filter_preserves_index() {
    let mut store = new_store();
    add(&mut store, "First", "", None);
    add(&mut store, "Second", "", None);
    add(&mut store, "Third", "", None);
    set_tags(&mut store, "First", &["work"]);
    set_tags(&mut store, "Third", &["work"]);
    let res = run(&store, Scope::Project, tag_filter(&["work"], None), &vec![]).unwrap();
    assert_eq!(res.listed_pads.len(), 2);
    let third = res.listed_pads.iter().find(|dp| dp.pad.metadata.title == "Third").unwrap();
    assert!(matches!(third.index, DisplayIndex::Regular(1)));
    let first = res.listed_pads.iter().find(|dp| dp.pad.metadata.title == "First").unwrap();
    assert!(matches!(first.index, DisplayIndex::Regular(3)));
}

fn tag_filter_with_nested_pads() {
    let mut store = new_store();
    add(&mut store, "Parent", "", None);
    add(&mut store, "Child1", "", Some(path(&[DisplayIndex::Regular(1)])));
    add(&mut store, "Child2", "", Some(path(&[DisplayIndex::Regular(1)])));
    set_tags(&mut store, "Parent", &["work"]);
    set_tags(&mut store, "Child1", &["work"]);
    let res = run(&store, Scope::Project, tag_filter(&["work"], None), &vec![]).unwrap();
    assert_eq!(res.listed_pads.len(), 1);
    assert_eq!(res.listed_pads[0].pad.metadata.title, "Parent");
    assert_eq!(res.listed_pads[0].children.len(), 1);
    assert_eq!(res.listed_pads[0].children[0].pad.metadata.title, "Child1");
}

fn tag_filter_combined_with_search() {
    let mut store = new_store();
    add(&mut store, "Rust Guide", "", None);
    add(&mut store, "Python Guide", "", None);
    add(&mut store, "Rust Notes", "", None);
    set_tags(&mut store, "Rust Guide", &["work"]);
    let res = run(&store, Scope::Project, tag_filter(&["work"], Some("rust")), &vec![]).unwrap();
    assert_eq!(res.listed_pads.len(), 1);
    assert_eq!(res.listed_pads[0].pad.metadata.title, "Rust Guide");
}

fn id_selector_multiple_pads() {
    let mut store = new_store();
    add(&mut store, "First", "", None);
    add(&mut store, "Second", "", None);
    add(&mut store, "Third", "", None);
    let res = run(
        &store,
        Scope::Project,
        PadFilter::default(),
        &vec![path(&[DisplayIndex::Regular(1)]), path(&[DisplayIndex::Regular(3)])],
    )
    .unwrap();
    assert_eq!(res.listed_pads.len(), 2);
    let titles = listed_titles(&res);
    assert!(titles.contains(&"Third".to_string()));
    assert!(titles.contains(&"First".to_string()));
}

#[test]
fn get_test_todo_status_filter_done() {
    todo_status_filter_done();
}

#[test]
fn attr_filter_test_todo_status_filter_done() {
    todo_status_filter_done();
}

#[test]
fn get_test_tag_filter_single_tag() {
    tag_filter_single_tag();
}

#[test]
fn attr_filter_test_tag_filter_single_tag() {
    tag_filter_single_tag();
}

#[test]
fn get_test_tag_filter_multiple_tags_and_logic() {
    tag_filter_multiple_tags_and_logic();
}

#[test]
fn attr_filter_test_tag_filter_multiple_tags_and_logic() {
    tag_filter_multiple_tags_and_logic();
}

#[test]
fn get_test_tag_filter_no_matches() {
    tag_filter_no_matches();
}

#[test]
fn attr_filter_test_tag_filter_no_matches() {
    tag_filter_no_matches();
}

#[test]
fn get_test_tag_filter_preserves_index() {
    tag_filter_preserves_index();
}

#[test]
fn attr_filter_test_tag_filter_preserves_index() {
    tag_filter_preserves_index();
}

#[test]
fn get_test_tag_filter_with_nested_pads() {
    tag_filter_with_nested_pads();
}

#[test]
fn attr_filter_test_tag_filter_with_nested_pads() {
    tag_filter_with_nested_pads();
}

#[test]
fn get_test_tag_filter_combined_with_search() {
    tag_filter_combined_with_search();
}

#[test]
fn attr_filter_test_tag_filter_combined_with_search() {
    tag_filter_combined_with_search();
}

#[test]
fn get_test_id_selector_multiple_pads() {
    id_selector_multiple_pads();
}

#[test]
fn selector_filter_test_id_selector_multiple_pads() {
    id_selector_multiple_pads();
}

#[test]
fn repeated_selectors_list_each_pad_once() {
    let mut store = new_store();
    add(&mut store, "A", "", None);
    add(&mut store, "B", "", None);
    let sels = vec![
        path(&[DisplayIndex::Regular(2)]),
        path(&[DisplayIndex::Regular(1)]),
        path(&[DisplayIndex::Regular(2)]),
    ];
    let res = run(&store, Scope::Project, filter(PadStatusFilter::Active, None), &sels).unwrap();
    let titles: Vec<String> = res.listed_pads.iter().map(|d| d.pad.metadata.title.clone()).collect();
    assert_eq!(titles.len(), 2);
    let distinct: std::collections::HashSet<&String> = titles.iter().collect();
    assert_eq!(distinct.len(), 2);
}
