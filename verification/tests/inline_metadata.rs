use padz::commands::inline_metadata::{parse_lex_metadata, serialize_lex_metadata};
use padz::index::parse_uuid;
use padz::json::{get_member, JsonValue};
use padz::model::{uuid_text, Bucket, Metadata, Pad, TodoStatus};

fn sample_meta() -> Metadata {
    let mut m = Pad::new("Example Title".to_string(), String::new()).metadata;
    m.id = parse_uuid("11111111-2222-3333-4444-555555555555").unwrap();
    m.created_at = 1_776_853_800_000; // 2026-04-22T10:30:00Z
    m.updated_at = 1_776_855_600_000; // 2026-04-22T11:00:00Z
    m.is_pinned = true;
    m.pinned_at = Some(1_776_855_900_000); // 2026-04-22T11:05:00Z
    m.delete_protected = true;
    m.status = TodoStatus::Done;
    m.tags = vec!["work".to_string(), "rust".to_string()];
    m
}

fn field<'a>(v: &'a JsonValue, key: &str) -> Option<&'a JsonValue> {
    match v {
        JsonValue::Object(members) => get_member(members, key),
        _ => None,
    }
}

fn text(s: &str) -> JsonValue {
    JsonValue::String(s.to_string())
}

fn texts(items: &[&str]) -> JsonValue {
    JsonValue::Array(items.iter().map(|s| text(s)).collect())
}

#[test]
fn test_serialize_lex_metadata_roundtrip() {
    let meta = sample_meta();
    let block = serialize_lex_metadata(&meta, Bucket::Active);
    let full = format!("{}Example Title\n\n    Body", block);
    let (parsed, body) = parse_lex_metadata(&full).expect("lex metadata should parse");
    assert_eq!(body, "Example Title\n\n    Body");
    assert_eq!(field(&parsed, "id"), Some(&text(&uuid_text(meta.id))));
    assert_eq!(field(&parsed, "status"), Some(&text("Done")));
    assert_eq!(field(&parsed, "is_pinned"), Some(&JsonValue::Bool(true)));
    assert_eq!(field(&parsed, "tags"), Some(&texts(&["work", "rust"])));
    assert_eq!(field(&parsed, "created_at"), Some(&text("2026-04-22T10:30:00Z")));
    assert_eq!(field(&parsed, "schema_version"), Some(&JsonValue::Number("1".to_string())));
}

#[test]
fn test_parse_lex_metadata_no_prefix_returns_none() {
    assert!(parse_lex_metadata("Regular lex doc\n\n    body\n").is_none());
}

#[test]
fn test_parse_lex_metadata_empty_tags() {
    let (parsed, _) = parse_lex_metadata(":: padz.id :: abc\n:: padz.tags :: \n\nTitle\n").unwrap();
    assert_eq!(field(&parsed, "tags"), Some(&JsonValue::Array(vec![])));
}

#[test]
fn serialize_lex_metadata_writes_archived_bucket_label() {
    let block = serialize_lex_metadata(&sample_meta(), Bucket::Archived);
    assert!(block.contains(":: padz.bucket :: Archived\n"));
}

#[test]
fn serialize_lex_metadata_writes_deleted_bucket_label() {
    let block = serialize_lex_metadata(&sample_meta(), Bucket::Deleted);
    assert!(block.contains(":: padz.bucket :: Deleted\n"));
}

#[test]
fn lex_metadata_roundtrips_all_status_variants() {
    for (status, label) in [(TodoStatus::Planned, "Planned"), (TodoStatus::InProgress, "InProgress"), (TodoStatus::Done, "Done")] {
        let mut meta = sample_meta();
        meta.status = status;
        let block = serialize_lex_metadata(&meta, Bucket::Active);
        let full = format!("{}Body\n", block);
        let (parsed, _) = parse_lex_metadata(&full).unwrap_or_else(|| panic!("lex metadata for {} did not parse", label));
        assert_eq!(field(&parsed, "status"), Some(&text(label)));
    }
}

#[test]
fn lex_metadata_serializes_literal_null_for_pinned_at_and_parent_id() {
    let mut meta = sample_meta();
    meta.is_pinned = false;
    meta.pinned_at = None;
    meta.parent_id = None;
    let block = serialize_lex_metadata(&meta, Bucket::Active);
    assert!(block.contains(":: padz.pinned_at :: null"));
    assert!(block.contains(":: padz.parent_id :: null"));
    let (parsed, _) = parse_lex_metadata(&format!("{}Body\n", block)).unwrap();
    assert_eq!(field(&parsed, "pinned_at"), Some(&JsonValue::Null));
    assert_eq!(field(&parsed, "parent_id"), Some(&JsonValue::Null));
}

#[test]
fn lex_metadata_roundtrips_parent_id_value() {
    let mut meta = sample_meta();
    let parent = parse_uuid("99999999-aaaa-bbbb-cccc-dddddddddddd").unwrap();
    meta.parent_id = Some(parent);
    let block = serialize_lex_metadata(&meta, Bucket::Active);
    let (parsed, _) = parse_lex_metadata(&format!("{}Body\n", block)).unwrap();
    assert_eq!(field(&parsed, "parent_id"), Some(&text(&uuid_text(parent))));
}

#[test]
fn parse_lex_metadata_strips_leading_bom() {
    let (parsed, body) = parse_lex_metadata("\u{feff}:: padz.id :: abc\n\nBody\n").expect("BOM should be transparent");
    assert_eq!(field(&parsed, "id"), Some(&text("abc")));
    assert_eq!(body, "Body\n");
}

#[test]
fn serialize_lex_metadata_ends_with_blank_separator_line() {
    let block = serialize_lex_metadata(&sample_meta(), Bucket::Active);
    assert!(block.ends_with("\n\n"));
}

#[test]
fn parse_lex_metadata_stops_at_first_non_annotation_line() {
    let raw = ":: padz.id :: abc\nplain text line\n:: padz.status :: Done\n";
    let (parsed, body) = parse_lex_metadata(raw).unwrap();
    assert_eq!(field(&parsed, "id"), Some(&text("abc")));
    assert!(field(&parsed, "status").is_none(), "annotation after a plain line should not be parsed as metadata");
    assert!(body.starts_with("plain text line"));
}

#[test]
fn parse_lex_metadata_empty_pinned_at_value_coerces_to_null() {
    let (parsed, _) = parse_lex_metadata(":: padz.id :: abc\n:: padz.pinned_at :: \n\nBody").unwrap();
    assert_eq!(field(&parsed, "pinned_at"), Some(&JsonValue::Null));
}

#[test]
fn parse_lex_metadata_coerces_known_bool_keys() {
    let raw = ":: padz.id :: abc\n:: padz.is_pinned :: true\n:: padz.delete_protected :: false\n\nBody";
    let (parsed, _) = parse_lex_metadata(raw).unwrap();
    assert_eq!(field(&parsed, "is_pinned"), Some(&JsonValue::Bool(true)));
    assert_eq!(field(&parsed, "delete_protected"), Some(&JsonValue::Bool(false)));
}

#[test]
fn parse_lex_metadata_unknown_bool_value_falls_back_to_string() {
    let (parsed, _) = parse_lex_metadata(":: padz.id :: abc\n:: padz.is_pinned :: maybe\n\nBody").unwrap();
    assert_eq!(field(&parsed, "is_pinned"), Some(&text("maybe")));
}

#[test]
fn parse_lex_metadata_non_numeric_schema_version_falls_back_to_string() {
    let (parsed, _) = parse_lex_metadata(":: padz.id :: abc\n:: padz.schema_version :: abc\n\nBody").unwrap();
    assert_eq!(field(&parsed, "schema_version"), Some(&text("abc")));
}

#[test]
fn parse_lex_metadata_tags_trim_whitespace_around_each_entry() {
    let (parsed, _) = parse_lex_metadata(":: padz.id :: abc\n:: padz.tags :: work , rust , golang\n\nBody").unwrap();
    assert_eq!(field(&parsed, "tags"), Some(&texts(&["work", "rust", "golang"])));
}

#[test]
fn parse_lex_metadata_tags_drop_empty_segments_from_double_commas() {
    let (parsed, _) = parse_lex_metadata(":: padz.id :: abc\n:: padz.tags :: work,,rust,,\n\nBody").unwrap();
    assert_eq!(field(&parsed, "tags"), Some(&texts(&["work", "rust"])));
}

#[test]
fn parse_lex_metadata_with_no_padz_prefix_on_first_line_returns_none() {
    assert!(parse_lex_metadata(":: author :: alice\n:: padz.id :: abc\n").is_none());
}

#[test]
fn parse_lex_metadata_unknown_padz_key_kept_as_string() {
    let (parsed, _) = parse_lex_metadata(":: padz.id :: abc\n:: padz.future_field :: hello\n\nBody").unwrap();
    assert_eq!(field(&parsed, "future_field"), Some(&text("hello")));
}

#[test]
fn parse_lex_annotation_shorthand_strips_trailing_colons_from_value() {
    let (parsed, _) = parse_lex_metadata(":: padz.id :: abc ::\n\nBody").unwrap();
    assert_eq!(field(&parsed, "id"), Some(&text("abc")));
}

#[test]
fn parse_lex_metadata_empty_body_supported() {
    let (parsed, body) = parse_lex_metadata(":: padz.id :: abc\n").unwrap();
    assert_eq!(field(&parsed, "id"), Some(&text("abc")));
    assert!(body.is_empty(), "expected empty body, got {:?}", body);
}

#[test]
fn lex_metadata_roundtrips_empty_tags() {
    let mut meta = sample_meta();
    meta.tags = vec![];
    let block = serialize_lex_metadata(&meta, Bucket::Active);
    let (parsed, _) = parse_lex_metadata(&format!("{}Body\n", block)).unwrap();
    assert_eq!(field(&parsed, "tags"), Some(&JsonValue::Array(vec![])));
}
