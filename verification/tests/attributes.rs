use padz::attributes::{filterable_attrs, get_spec, AttrFilter, AttrValue, AttributeKind};
use padz::model::{Pad, TodoStatus};

#[test]
fn attributes_registry_has_expected_entries() {
    assert!(get_spec("pinned").is_some());
    assert!(get_spec("protected").is_some());
    assert!(get_spec("status").is_some());
    assert!(get_spec("tags").is_some());
    assert!(get_spec("parent").is_some());
}

#[test]
fn unknown_attribute_returns_none() {
    assert!(get_spec("nonexistent").is_none());
}

#[test]
fn pinned_spec_is_correct() {
    let spec = get_spec("pinned").unwrap();
    assert_eq!(spec.name, "pinned");
    assert_eq!(spec.kind, AttributeKind::BoolWithTimestamp);
    assert!(spec.filterable);
    assert!(spec.has_coupling);
    assert!(!spec.propagates_up);
    assert!(!spec.cascades_on_delete);
}

#[test]
fn status_spec_is_correct() {
    let spec = get_spec("status").unwrap();
    assert_eq!(spec.name, "status");
    assert_eq!(spec.kind, AttributeKind::Enum);
    assert!(spec.filterable);
    assert!(spec.propagates_up);
}

#[test]
fn tags_spec_is_correct() {
    let spec = get_spec("tags").unwrap();
    assert_eq!(spec.name, "tags");
    assert_eq!(spec.kind, AttributeKind::List);
    assert!(spec.filterable);
    assert!(spec.cascades_on_delete);
}

#[test]
fn protected_spec_is_correct() {
    let spec = get_spec("protected").unwrap();
    assert_eq!(spec.name, "protected");
    assert_eq!(spec.kind, AttributeKind::Bool);
    assert!(!spec.filterable);
}

#[test]
fn parent_spec_is_correct() {
    let spec = get_spec("parent").unwrap();
    assert_eq!(spec.name, "parent");
    assert_eq!(spec.kind, AttributeKind::Ref);
    assert!(!spec.filterable);
}

#[test]
fn filterable_attrs_returns_expected() {
    let filterable = filterable_attrs();
    assert_eq!(filterable, vec!["pinned".to_string(), "status".to_string(), "tags".to_string()]);
}

fn pad_with(status: TodoStatus, tags: &[&str], pinned: bool) -> Pad {
    let mut p = Pad::with_identity(1, 10, "Test".into(), "".into());
    p.metadata.status = status;
    p.metadata.tags = tags.iter().map(|s| s.to_string()).collect();
    p.metadata.is_pinned = pinned;
    p
}

#[test]
fn filter_eq_bool_and_status() {
    let pinned = AttrFilter::eq("pinned", AttrValue::Bool(true));
    assert!(pinned.matches(&pad_with(TodoStatus::Planned, &[], true).metadata));
    assert!(!pinned.matches(&pad_with(TodoStatus::Planned, &[], false).metadata));
    let done = AttrFilter::ne("status", AttrValue::Enum("Done".into()));
    assert!(!done.matches(&pad_with(TodoStatus::Done, &[], false).metadata));
    assert!(done.matches(&pad_with(TodoStatus::Planned, &[], false).metadata));
}

#[test]
fn filter_contains_tags() {
    let any = AttrFilter::contains("tags", "rust".into());
    assert!(any.matches(&pad_with(TodoStatus::Planned, &["rust", "work"], false).metadata));
    assert!(!any.matches(&pad_with(TodoStatus::Planned, &["python"], false).metadata));
    let all = AttrFilter::contains_all("tags", vec!["rust".into(), "work".into()]);
    assert!(all.matches(&pad_with(TodoStatus::Planned, &["rust", "work", "urgent"], false).metadata));
    assert!(!all.matches(&pad_with(TodoStatus::Planned, &["rust"], false).metadata));
}

#[test]
fn filter_unknown_attr_and_type_mismatch_are_false() {
    let unknown = AttrFilter::eq("unknown", AttrValue::Bool(true));
    assert!(!unknown.matches(&pad_with(TodoStatus::Done, &[], false).metadata));
    let mismatch = AttrFilter::eq("status", AttrValue::Bool(true));
    assert!(!mismatch.matches(&pad_with(TodoStatus::Done, &[], false).metadata));
}

#[test]
fn attr_value_accessors() {
    assert!(AttrValue::bool_with_timestamp_at(true, 5).is_truthy());
    assert!(!AttrValue::bool_with_timestamp_at(false, 5).is_truthy());
    assert_eq!(AttrValue::bool_with_timestamp_at(true, 5).as_bool(), Some(true));
    assert!(!AttrValue::List(vec![]).is_truthy());
    assert_eq!(AttrValue::Ref(Some(3)).as_ref(), Some(Some(3)));
    assert_eq!(AttrValue::Enum("Done".into()).as_enum(), Some("Done"));
}

// --- attribute values ---

fn test_meta() -> padz::model::Metadata {
    Pad::new("Test".to_string(), "".to_string()).metadata
}

fn meta_with_status(status: TodoStatus) -> padz::model::Metadata {
    let mut meta = test_meta();
    meta.status = status;
    meta
}

fn meta_with_tags(tags: Vec<&str>) -> padz::model::Metadata {
    let mut meta = test_meta();
    meta.tags = tags.into_iter().map(|s| s.to_string()).collect();
    meta
}

fn meta_pinned() -> padz::model::Metadata {
    let mut meta = test_meta();
    meta.is_pinned = true;
    meta.pinned_at = Some(1_700_000_000_000);
    meta
}

#[test]
fn bool_with_timestamp_true_has_timestamp() {
    match AttrValue::bool_with_timestamp(true) {
        AttrValue::BoolWithTimestamp { value, timestamp } => {
            assert!(value);
            assert!(timestamp.is_some());
        }
        _ => panic!("Expected BoolWithTimestamp"),
    }
}

#[test]
fn bool_with_timestamp_false_has_no_timestamp() {
    match AttrValue::bool_with_timestamp(false) {
        AttrValue::BoolWithTimestamp { value, timestamp } => {
            assert!(!value);
            assert!(timestamp.is_none());
        }
        _ => panic!("Expected BoolWithTimestamp"),
    }
}

#[test]
fn is_truthy_for_bool() {
    assert!(AttrValue::Bool(true).is_truthy());
    assert!(!AttrValue::Bool(false).is_truthy());
}

#[test]
fn is_truthy_for_bool_with_timestamp() {
    assert!(AttrValue::bool_with_timestamp(true).is_truthy());
    assert!(!AttrValue::bool_with_timestamp(false).is_truthy());
}

#[test]
fn is_truthy_for_list() {
    assert!(AttrValue::List(vec!["a".into()]).is_truthy());
    assert!(!AttrValue::List(vec![]).is_truthy());
}

#[test]
fn is_truthy_for_ref() {
    assert!(AttrValue::Ref(Some(uuid::Uuid::new_v4().as_u128())).is_truthy());
    assert!(!AttrValue::Ref(None).is_truthy());
}

#[test]
fn is_truthy_for_enum() {
    assert!(AttrValue::Enum("Done".into()).is_truthy());
    assert!(AttrValue::Enum("".into()).is_truthy());
}

#[test]
fn as_bool_extracts_boolean() {
    assert_eq!(AttrValue::Bool(true).as_bool(), Some(true));
    assert_eq!(AttrValue::Bool(false).as_bool(), Some(false));
    assert_eq!(AttrValue::bool_with_timestamp(true).as_bool(), Some(true));
    assert_eq!(AttrValue::Enum("x".into()).as_bool(), None);
}

#[test]
fn as_enum_extracts_string() {
    assert_eq!(AttrValue::Enum("Done".into()).as_enum(), Some("Done"));
    assert_eq!(AttrValue::Bool(true).as_enum(), None);
}

#[test]
fn as_list_extracts_vec() {
    let list = vec!["a".to_string(), "b".to_string()];
    assert_eq!(AttrValue::List(list.clone()).as_list().map(|v| v.as_slice()), Some(list.as_slice()));
    assert_eq!(AttrValue::Bool(true).as_list(), None);
}

#[test]
fn as_ref_extracts_uuid() {
    let id = uuid::Uuid::new_v4().as_u128();
    assert_eq!(AttrValue::Ref(Some(id)).as_ref(), Some(Some(id)));
    assert_eq!(AttrValue::Ref(None).as_ref(), Some(None));
    assert_eq!(AttrValue::Bool(true).as_ref(), None);
}

// --- attribute filters ---

#[test]
fn filter_eq_bool() {
    let filter = AttrFilter::eq("pinned", AttrValue::Bool(true));
    assert!(filter.matches(&meta_pinned()));
    assert!(!filter.matches(&test_meta()));
}

#[test]
fn filter_ne_bool() {
    let filter = AttrFilter::ne("pinned", AttrValue::Bool(true));
    assert!(!filter.matches(&meta_pinned()));
    assert!(filter.matches(&test_meta()));
}

#[test]
fn filter_eq_status() {
    let filter = AttrFilter::eq("status", AttrValue::Enum("Done".into()));
    assert!(filter.matches(&meta_with_status(TodoStatus::Done)));
    assert!(!filter.matches(&meta_with_status(TodoStatus::Planned)));
    assert!(!filter.matches(&meta_with_status(TodoStatus::InProgress)));
}

#[test]
fn filter_ne_status() {
    let filter = AttrFilter::ne("status", AttrValue::Enum("Done".into()));
    assert!(!filter.matches(&meta_with_status(TodoStatus::Done)));
    assert!(filter.matches(&meta_with_status(TodoStatus::Planned)));
    assert!(filter.matches(&meta_with_status(TodoStatus::InProgress)));
}

#[test]
fn filter_contains_single_tag() {
    let filter = AttrFilter::contains("tags", "rust".into());
    assert!(filter.matches(&meta_with_tags(vec!["rust"])));
    assert!(filter.matches(&meta_with_tags(vec!["rust", "work"])));
    assert!(!filter.matches(&meta_with_tags(vec!["python"])));
    assert!(!filter.matches(&meta_with_tags(vec![])));
}

#[test]
fn filter_contains_all_tags() {
    let filter = AttrFilter::contains_all("tags", vec!["rust".into(), "work".into()]);
    assert!(filter.matches(&meta_with_tags(vec!["rust", "work"])));
    assert!(filter.matches(&meta_with_tags(vec!["rust", "work", "urgent"])));
    assert!(!filter.matches(&meta_with_tags(vec!["rust"])));
    assert!(!filter.matches(&meta_with_tags(vec!["work"])));
    assert!(!filter.matches(&meta_with_tags(vec![])));
}

#[test]
fn filter_unknown_attr_returns_false() {
    let filter = AttrFilter::eq("unknown", AttrValue::Bool(true));
    assert!(!filter.matches(&test_meta()));
}

#[test]
fn filter_type_mismatch_returns_false() {
    let filter = AttrFilter::eq("status", AttrValue::Bool(true));
    assert!(!filter.matches(&meta_with_status(TodoStatus::Done)));
}
