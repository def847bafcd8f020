use padz::commands::inline_metadata::{md_frontmatter_parts, parse_md_frontmatter, serialize_md_frontmatter};
use padz::index::parse_uuid;
use padz::json::{get_member, JsonValue};
use padz::model::{uuid_text, Bucket, Metadata, Pad, TodoStatus};
use padz::yaml::YamlValue;

fn sample_meta() -> Metadata {
    let mut m = Pad::new("Example Title".to_string(), String::new()).metadata;
    m.id = parse_uuid("11111111-2222-3333-4444-555555555555").unwrap();
    m.created_at = 1_776_853_800_000; // 2026-04-22T10:30:00Z
    m.updated_at = 1_776_855_600_000; // 2026-04-22T11:00:00Z
    m.is_pinned = true;
    m.pinned_at = Some(1_776_855_900_000); // 2026-04-22T11:05:00Z
    m.delete_protected = true;
    m.status = TodoStatus::Done;
    m.tags = vec!["work".to_string(), "rust".to_string()];
    m
}

fn from_yaml(v: serde_yaml::Value) -> YamlValue {
    match v {
        serde_yaml::Value::Null => YamlValue::Null,
        serde_yaml::Value::Bool(b) => YamlValue::Bool(b),
        serde_yaml::Value::Number(n) => {
            if let Some(i) = n.as_i64() {
                YamlValue::Number(i.to_string())
            } else if let Some(u) = n.as_u64() {
                YamlValue::Number(u.to_string())
            } else {
                match n.as_f64().and_then(serde_json::Number::from_f64) {
                    Some(f) => YamlValue::Number(f.to_string()),
                    None => YamlValue::Null,
                }
            }
        }
        serde_yaml::Value::String(s) => YamlValue::String(s),
        serde_yaml::Value::Sequence(items) => YamlValue::Sequence(items.into_iter().map(from_yaml).collect()),
        serde_yaml::Value::Mapping(m) => {
            YamlValue::Mapping(m.into_iter().map(|(k, v)| (from_yaml(k), from_yaml(v))).collect())
        }
        serde_yaml::Value::Tagged(t) => YamlValue::Tagged(t.tag.to_string(), Box::new(from_yaml(t.value))),
    }
}

/// Reads a Markdown document's frontmatter, parsing its YAML text here.
fn parse_md(raw: &str) -> Option<(JsonValue, String)> {
    let yaml = md_frontmatter_parts(raw)
        .and_then(|(text, _)| serde_yaml::from_str::<serde_yaml::Value>(&text).ok())
        .map(from_yaml);
    parse_md_frontmatter(raw, &yaml)
}

fn field<'a>(v: &'a JsonValue, key: &str) -> Option<&'a JsonValue> {
    match v {
        JsonValue::Object(members) => get_member(members, key),
        _ => None,
    }
}

fn text(s: &str) -> JsonValue {
    JsonValue::String(s.to_string())
}

fn texts(items: &[&str]) -> JsonValue {
    JsonValue::Array(items.iter().map(|s| text(s)).collect())
}

#[test]
fn test_serialize_md_frontmatter_roundtrip() {
    let meta = sample_meta();
    let block = serialize_md_frontmatter(&meta, Bucket::Active).unwrap();
    assert!(block.starts_with("---\n"));
    assert!(block.ends_with("---\n\n"));
    let full = format!("{}Example Title\n\nBody text", block);
    let (parsed, body) = parse_md(&full).expect("frontmatter should parse");
    assert_eq!(body, "Example Title\n\nBody text");
    assert_eq!(field(&parsed, "id"), Some(&text(&uuid_text(meta.id))));
    assert_eq!(field(&parsed, "is_pinned"), Some(&JsonValue::Bool(true)));
    assert_eq!(field(&parsed, "status"), Some(&text("Done")));
    assert_eq!(field(&parsed, "tags"), Some(&texts(&["work", "rust"])));
    assert_eq!(field(&parsed, "created_at"), Some(&text("2026-04-22T10:30:00Z")));
    assert_eq!(field(&parsed, "schema_version"), Some(&JsonValue::Number("1".to_string())));
}

#[test]
fn test_parse_md_frontmatter_no_fence_returns_none() {
    assert!(parse_md("No frontmatter here\n\nBody").is_none());
    assert!(md_frontmatter_parts("No frontmatter here\n\nBody").is_none());
}

#[test]
fn test_parse_md_frontmatter_unterminated_returns_none() {
    assert!(parse_md("---\npadz.id: \"abc\"\nno closing fence").is_none());
}

#[test]
fn test_parse_md_frontmatter_ignores_non_padz_keys() {
    let (parsed, body) = parse_md("---\nauthor: Alice\npadz.status: Done\n---\n\nTitle\n\nBody").unwrap();
    assert_eq!(body, "Title\n\nBody");
    assert_eq!(field(&parsed, "status"), Some(&text("Done")));
    assert!(field(&parsed, "author").is_none(), "non-padz keys stripped");
}

#[test]
fn serialize_md_frontmatter_writes_archived_bucket_label() {
    let block = serialize_md_frontmatter(&sample_meta(), Bucket::Archived).unwrap();
    assert!(block.contains("padz.bucket: Archived"), "block did not include archived bucket label: {}", block);
}

#[test]
fn serialize_md_frontmatter_writes_deleted_bucket_label() {
    let block = serialize_md_frontmatter(&sample_meta(), Bucket::Deleted).unwrap();
    assert!(block.contains("padz.bucket: Deleted"), "block did not include deleted bucket label: {}", block);
}

#[test]
fn md_frontmatter_roundtrips_all_status_variants() {
    for (status, label) in [
        (TodoStatus::Planned, "Planned"),
        (TodoStatus::InProgress, "InProgress"),
        (TodoStatus::Done, "Done"),
    ] {
        let mut meta = sample_meta();
        meta.status = status;
        let block = serialize_md_frontmatter(&meta, Bucket::Active).unwrap();
        let full = format!("{}Body\n", block);
        let (parsed, _) = parse_md(&full).unwrap_or_else(|| panic!("frontmatter for {} did not parse", label));
        assert_eq!(field(&parsed, "status"), Some(&text(label)));
    }
}

#[test]
fn md_frontmatter_serializes_and_parses_null_pinned_at_and_parent_id() {
    let mut meta = sample_meta();
    meta.is_pinned = false;
    meta.pinned_at = None;
    meta.parent_id = None;
    let block = serialize_md_frontmatter(&meta, Bucket::Active).unwrap();
    assert!(block.contains("padz.pinned_at: null"));
    assert!(block.contains("padz.parent_id: null"));
    let (parsed, _) = parse_md(&format!("{}Body\n", block)).unwrap();
    assert_eq!(field(&parsed, "pinned_at"), Some(&JsonValue::Null));
    assert_eq!(field(&parsed, "parent_id"), Some(&JsonValue::Null));
}

#[test]
fn md_frontmatter_roundtrips_parent_id_value() {
    let mut meta = sample_meta();
    meta.parent_id = Some(parse_uuid("99999999-aaaa-bbbb-cccc-dddddddddddd").unwrap());
    let block = serialize_md_frontmatter(&meta, Bucket::Active).unwrap();
    let (parsed, _) = parse_md(&format!("{}Body\n", block)).unwrap();
    assert_eq!(field(&parsed, "parent_id"), Some(&text("99999999-aaaa-bbbb-cccc-dddddddddddd")));
}

#[test]
fn parse_md_frontmatter_strips_leading_bom() {
    let (parsed, body) = parse_md("\u{feff}---\npadz.id: abc\n---\n\nBody\n").expect("BOM should be transparent");
    assert_eq!(field(&parsed, "id"), Some(&text("abc")));
    assert_eq!(body, "Body\n");
}

#[test]
fn serialize_md_frontmatter_ends_with_fence_and_blank_separator() {
    let block = serialize_md_frontmatter(&sample_meta(), Bucket::Active).unwrap();
    assert!(block.starts_with("---\n"));
    assert!(block.ends_with("---\n\n"));
}

#[test]
fn parse_md_frontmatter_first_line_with_extra_chars_is_not_a_fence() {
    assert!(parse_md("---x\npadz.id: abc\n---\n\nBody").is_none());
}

#[test]
fn parse_md_frontmatter_tolerates_trailing_whitespace_on_opening_fence() {
    let (parsed, _) = parse_md("---   \npadz.id: abc\n---\n\nBody").expect("fence with trailing whitespace");
    assert_eq!(field(&parsed, "id"), Some(&text("abc")));
}

#[test]
fn parse_md_frontmatter_malformed_yaml_returns_none() {
    assert!(parse_md("---\npadz.id: \"unterminated\n---\n\nBody").is_none());
}

#[test]
fn parse_md_frontmatter_non_mapping_yaml_returns_none() {
    assert!(parse_md("---\njust-a-scalar\n---\n\nBody").is_none());
}

#[test]
fn parse_md_frontmatter_with_only_non_padz_keys_returns_none() {
    assert!(parse_md("---\nauthor: Alice\nproject: padz\n---\n\nBody").is_none());
}

#[test]
fn parse_md_frontmatter_drops_non_string_yaml_map_keys() {
    let (parsed, _) = parse_md("---\n1: ignored\npadz.id: abc\n---\n\nBody").unwrap();
    assert!(field(&parsed, "ignored").is_none());
    assert!(field(&parsed, "1").is_none());
    assert_eq!(field(&parsed, "id"), Some(&text("abc")));
}

#[test]
fn parse_md_frontmatter_empty_body_supported() {
    let (parsed, body) = parse_md("---\npadz.id: abc\n---\n").unwrap();
    assert_eq!(field(&parsed, "id"), Some(&text("abc")));
    assert!(body.is_empty(), "expected empty body, got {:?}", body);
}

#[test]
fn parse_md_frontmatter_preserves_internal_blank_lines_in_body() {
    let (_, body) = parse_md("---\npadz.id: abc\n---\n\nLine1\n\nLine2\n").unwrap();
    assert_eq!(body, "Line1\n\nLine2\n");
}

#[test]
fn parse_md_frontmatter_yaml_numeric_value_becomes_json_number() {
    let (parsed, _) = parse_md("---\npadz.schema_version: 7\n---\n\nBody").unwrap();
    assert_eq!(field(&parsed, "schema_version"), Some(&JsonValue::Number("7".to_string())));
}

#[test]
fn parse_md_frontmatter_yaml_negative_int_becomes_signed_json_number() {
    let (parsed, _) = parse_md("---\npadz.schema_version: -3\n---\n\nBody").unwrap();
    assert_eq!(field(&parsed, "schema_version"), Some(&JsonValue::Number("-3".to_string())));
}

#[test]
fn parse_md_frontmatter_yaml_bool_value_preserved() {
    let (parsed, _) = parse_md("---\npadz.is_pinned: true\n---\n\nBody").unwrap();
    assert_eq!(field(&parsed, "is_pinned"), Some(&JsonValue::Bool(true)));
}

#[test]
fn parse_md_frontmatter_yaml_null_value_preserved() {
    let (parsed, _) = parse_md("---\npadz.pinned_at: null\n---\n\nBody").unwrap();
    assert_eq!(field(&parsed, "pinned_at"), Some(&JsonValue::Null));
}

#[test]
fn parse_md_frontmatter_yaml_sequence_becomes_json_array() {
    let (parsed, _) = parse_md("---\npadz.tags:\n  - work\n  - rust\n---\n\nBody").unwrap();
    assert_eq!(field(&parsed, "tags"), Some(&texts(&["work", "rust"])));
}

#[test]
fn parse_md_frontmatter_yaml_empty_sequence_becomes_empty_json_array() {
    let (parsed, _) = parse_md("---\npadz.tags: []\n---\n\nBody").unwrap();
    assert_eq!(field(&parsed, "tags"), Some(&JsonValue::Array(vec![])));
}

#[test]
fn md_frontmatter_parts_splits_yaml_text_and_body() {
    let (yaml, body) = md_frontmatter_parts("---\npadz.id: abc\nauthor: x\n---\n\n\nTitle\n").unwrap();
    assert_eq!(yaml, "padz.id: abc\nauthor: x\n");
    assert_eq!(body, "Title\n");
}

#[test]
fn parse_md_frontmatter_later_key_replaces_earlier_and_tags_are_dropped() {
    let yaml = YamlValue::Mapping(vec![
        (YamlValue::String("padz.id".to_string()), YamlValue::String("a".to_string())),
        (
            YamlValue::String("padz.status".to_string()),
            YamlValue::Tagged("!x".to_string(), Box::new(YamlValue::String("Done".to_string()))),
        ),
        (YamlValue::String("padz.id".to_string()), YamlValue::String("b".to_string())),
    ]);
    let (parsed, _) = parse_md_frontmatter("---\nx\n---\nBody", &Some(yaml)).unwrap();
    assert_eq!(
        parsed,
        JsonValue::Object(vec![("id".to_string(), text("b")), ("status".to_string(), text("Done"))])
    );
}
