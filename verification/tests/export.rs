use padz::commands::{create, NestingMode};
use padz::export::{
    bump_level, bump_markdown_headers, bump_markdown_headers_by, merge_as_markdown, merge_as_text,
    merge_pads_to_single_file, resolve_nested, resolve_pads, run, run_single_file, sanitize_filename,
    sanitize_output_filename, ExportFormat, ExportOutcome, ExportWarning, SingleFileFormat,
};
use padz::helpers::NestedPad;
use padz::index::{DisplayIndex, PadSelector};
use padz::model::{Bucket, Pad, Scope};
use padz::store::Store;
use padz::tree::DisplayPad;

fn nested(title: &str, content: &str, depth: usize) -> NestedPad {
    NestedPad {
        pad: DisplayPad {
            pad: Pad::new(title.to_string(), content.to_string()),
            index: DisplayIndex::Regular(1),
            matches: None,
            children: vec![],
        },
        depth,
    }
}

fn add(store: &mut Store, title: &str, content: &str, parent: Option<PadSelector>) {
    create::run(store, Scope::Project, title.to_string(), content.to_string(), parent).unwrap();
}

fn parent_sel() -> Option<PadSelector> {
    Some(PadSelector::Path(vec![DisplayIndex::Regular(1)]))
}

#[test]
fn export_test_resolve_pads_exports_active_by_default() {
    let mut store = Store::new();
    add(&mut store, "Active", "", None);
    let del_pad = Pad::new("Deleted".to_string(), "".to_string());
    store.save_pad(&del_pad, Scope::Project, Bucket::Deleted).unwrap();

    let pads = resolve_pads(&store, Scope::Project, &vec![]).unwrap();
    assert_eq!(pads.len(), 1);
    assert_eq!(pads[0].pad.metadata.title, "Active");
}

#[test]
fn export_test_write_archive_produces_content() {
    let mut store = Store::new();
    add(&mut store, "Test", "Content", None);
    let outcome = run(&store, Scope::Project, &vec![], NestingMode::Flat, false).unwrap();
    let ExportOutcome::Artifact(artifact) = outcome else {
        panic!("expected an export artifact");
    };
    let buf = artifact.bytes;
    assert!(!buf.is_empty());
    assert_eq!(buf[0], 0x1f);
    assert_eq!(buf[1], 0x8b);
}

#[test]
fn export_test_sanitize() {
    assert_eq!(sanitize_filename("Hello World"), "Hello World");
    assert_eq!(sanitize_filename("foo/bar"), "foo_bar");
    assert_eq!(sanitize_filename("baz\\qux"), "baz_qux");
}

#[test]
fn export_test_format_detection() {
    assert_eq!(SingleFileFormat::from_filename("notes.md"), SingleFileFormat::Markdown);
    assert_eq!(SingleFileFormat::from_filename("notes.MD"), SingleFileFormat::Markdown);
    assert_eq!(SingleFileFormat::from_filename("notes.markdown"), SingleFileFormat::Markdown);
    assert_eq!(SingleFileFormat::from_filename("notes.txt"), SingleFileFormat::Text);
    assert_eq!(SingleFileFormat::from_filename("notes"), SingleFileFormat::Text);
    assert_eq!(SingleFileFormat::from_filename("My Notes"), SingleFileFormat::Text);
}

#[test]
fn export_test_bump_markdown_headers_basic() {
    let input = "# Heading 1\n\nSome text\n\n## Heading 2\n\nMore text";
    let output = bump_markdown_headers(input).unwrap();
    assert!(output.contains("### Heading 1"), "H1 should become H3");
    assert!(output.contains("#### Heading 2"), "H2 should become H4");
    assert!(output.contains("Some text"));
    assert!(output.contains("More text"));
}

#[test]
fn export_test_bump_markdown_headers_caps_at_h6() {
    let input = "##### H5\n\n###### H6\n\nText";
    let output = bump_markdown_headers(input).unwrap();
    assert!(output.contains("###### H5"), "H5 should become H6");
    let h6_count = output.matches("######").count();
    assert_eq!(h6_count, 2, "Both headers should be H6");
}

#[test]
fn export_test_bump_markdown_headers_h3_h4() {
    let input = "### H3 Header\n\nText\n\n#### H4 Header\n\nMore text";
    let output = bump_markdown_headers(input).unwrap();
    assert!(output.contains("##### H3 Header"), "H3 should become H5");
    assert!(output.contains("###### H4 Header"), "H4 should become H6");
}

#[test]
fn export_test_bump_markdown_headers_preserves_non_headers() {
    let input = "Regular paragraph\n\n- List item\n- Another item\n\n```rust\ncode\n```";
    let output = bump_markdown_headers(input).unwrap();
    assert!(output.contains("Regular paragraph"));
    assert!(output.contains("List item"));
    assert!(output.contains("code"));
}

#[test]
fn export_test_merge_as_text() {
    let pads = vec![nested("First Pad", "Content one", 0), nested("Second Pad", "Content two", 0)];
    let output = merge_as_text(&pads);
    assert!(output.contains("First Pad"));
    assert!(output.contains("Second Pad"));
    assert!(output.contains("========================================"));
    assert!(output.contains("Content one"));
    assert!(output.contains("Content two"));
}

#[test]
fn export_test_merge_as_markdown() {
    let pads = vec![
        nested("First Pad", "# Internal H1\n\nBody text", 0),
        nested("Second Pad", "## Internal H2\n\nMore body", 0),
    ];
    let output = merge_as_markdown(&pads, "My Export");
    assert!(output.starts_with("# My Export"));
    assert!(output.contains("## First Pad"));
    assert!(output.contains("## Second Pad"));
    assert!(output.contains("### Internal H1"));
    assert!(output.contains("#### Internal H2"));
    assert!(output.contains("Body text"));
    assert!(output.contains("More body"));
    assert!(output.contains("---"));
}

#[test]
fn export_test_sanitize_output_filename() {
    assert_eq!(sanitize_output_filename("notes", SingleFileFormat::Markdown), "notes.md");
    assert_eq!(sanitize_output_filename("notes.md", SingleFileFormat::Markdown), "notes.md");
    assert_eq!(sanitize_output_filename("notes", SingleFileFormat::Text), "notes.txt");
    assert_eq!(sanitize_output_filename("notes.txt", SingleFileFormat::Text), "notes.txt");
    assert_eq!(sanitize_output_filename("my/notes", SingleFileFormat::Markdown), "my_notes.md");
    assert_eq!(sanitize_output_filename("notes.markdown", SingleFileFormat::Markdown), "notes.md");
}

#[test]
fn export_test_export_empty_does_nothing() {
    let store = Store::new();
    let res = run(&store, Scope::Project, &vec![], NestingMode::Flat, false).unwrap();
    assert!(matches!(res, ExportOutcome::Empty { format: ExportFormat::Archive }));

    let res_single = run_single_file(&store, Scope::Project, &vec![], "out.md", NestingMode::Flat).unwrap();
    assert!(matches!(res_single, ExportOutcome::Empty { format: ExportFormat::SingleFile }));
}

#[test]
fn test_export_single_file_returns_owned_artifact_without_writing() {
    let mut store = Store::new();
    add(&mut store, "A", "", None);

    let unique_title = format!("Export_Test_{}", uuid::Uuid::new_v4());
    let expected_filename = format!("{}.md", unique_title);
    let expected_path = std::path::Path::new(&expected_filename);
    let input_title = format!("{}.md", unique_title);

    let outcome = run_single_file(&store, Scope::Project, &vec![], &input_title, NestingMode::Flat).unwrap();
    let ExportOutcome::Artifact(artifact) = outcome else {
        panic!("expected an export artifact");
    };

    assert_eq!(artifact.suggested_filename, expected_filename);
    assert_eq!(artifact.report.exported, 1);
    assert_eq!(artifact.report.format, ExportFormat::SingleFile);
    assert!(!expected_path.exists(), "the reusable core must not write");

    let content = String::from_utf8(artifact.bytes).unwrap();
    assert!(content.contains(&format!("# {}", input_title)));
    assert!(content.contains("## A"));
}

#[test]
fn test_merge_as_text_nested() {
    let pads = vec![nested("Parent", "Parent body", 0), nested("Child", "Child body", 1)];
    let output = merge_as_text(&pads);
    assert!(output.contains("Parent"));
    assert!(output.contains("Parent body"));
    assert!(output.contains("    Child"));
    assert!(output.contains("    Child body"));
}

#[test]
fn test_merge_as_markdown_nested() {
    let pads = vec![nested("Parent", "Parent body", 0), nested("Child", "# H1 in child", 1)];
    let output = merge_as_markdown(&pads, "Export");
    assert!(output.starts_with("# Export"));
    assert!(output.contains("## Parent"));
    assert!(output.contains("### Child"));
    assert!(output.contains("#### H1 in child"));
}

#[test]
fn test_merge_as_text_nested_from_store() {
    let mut store = Store::new();
    add(&mut store, "Groceries", "Weekly shopping", None);
    add(&mut store, "Bread", "Whole wheat", parent_sel());

    let pads = resolve_pads(&store, Scope::Project, &vec![]).unwrap();
    let nested = resolve_nested(&store, Scope::Project, &pads, NestingMode::Tree).unwrap();
    let output = merge_as_text(&nested);

    assert!(output.contains("Groceries"), "should contain parent title");
    assert!(output.contains("Weekly shopping"), "should contain parent body");
    assert!(output.contains("    Bread"), "child title should be indented");
    assert!(output.contains("    Whole wheat"), "child body should be indented");
}

#[test]
fn test_merge_as_markdown_nested_from_store() {
    let mut store = Store::new();
    add(&mut store, "Project", "# Overview\n\nProject description", None);
    add(&mut store, "Module A", "## API\n\nEndpoints here", parent_sel());

    let pads = resolve_pads(&store, Scope::Project, &vec![]).unwrap();
    let nested = resolve_nested(&store, Scope::Project, &pads, NestingMode::Tree).unwrap();
    let output = merge_as_markdown(&nested, "Docs");

    assert!(output.starts_with("# Docs"));
    assert!(output.contains("## Project"), "parent should be H2");
    assert!(output.contains("### Module A"), "child should be H3");
    assert!(output.contains("### Overview"), "parent body H1 should become H3");
    assert!(output.contains("##### API"), "child body H2 should become H5");
}

#[test]
fn test_flat_nesting_produces_no_children_in_export() {
    let mut store = Store::new();
    add(&mut store, "Parent", "Parent content", None);
    add(&mut store, "Child", "Child content", parent_sel());

    let pads = resolve_pads(&store, Scope::Project, &vec![]).unwrap();
    let nested = resolve_nested(&store, Scope::Project, &pads, NestingMode::Flat).unwrap();

    assert_eq!(nested.len(), 1);
    assert_eq!(nested[0].pad.pad.metadata.title, "Parent");
    assert_eq!(nested[0].depth, 0);
}

#[test]
fn test_merge_as_markdown_deep_nesting_caps_at_h6() {
    let pads = vec![nested("Deep", "# Heading", 5)];
    let output = merge_as_markdown(&pads, "Export");
    assert!(output.contains("###### Deep"));
}

// --- further cases ---

#[test]
fn bump_level_caps_at_six() {
    assert_eq!(bump_level(1, 2), 3);
    assert_eq!(bump_level(5, 1), 6);
    assert_eq!(bump_level(6, 3), 6);
    assert_eq!(bump_level(2, 0), 2);
}

#[test]
fn bump_headers_by_zero_keeps_level() {
    let output = bump_markdown_headers_by("## Title\n\nBody", 0).unwrap();
    assert!(output.contains("## Title"));
    assert!(!output.contains("### Title"));
}

#[test]
fn merge_to_single_file_picks_format() {
    let pads = vec![nested("One", "Body", 0)];
    let md = merge_pads_to_single_file(&pads, "Title", SingleFileFormat::Markdown);
    assert_eq!(md.format, SingleFileFormat::Markdown);
    assert!(md.content.starts_with("# Title"));
    let txt = merge_pads_to_single_file(&pads, "Title", SingleFileFormat::Text);
    assert_eq!(txt.format, SingleFileFormat::Text);
    assert!(txt.content.contains("One"));
    assert!(!txt.content.starts_with("# Title"));
}

#[test]
fn sanitize_trims_and_keeps_word_characters() {
    assert_eq!(sanitize_filename("  a:b  "), "a_b");
    assert_eq!(sanitize_filename("naïve-file_1"), "naïve-file_1");
}

#[test]
fn metadata_archive_lists_text_pads_in_warning() {
    let mut store = Store::new();
    add(&mut store, "Alpha", "Body", None);
    let outcome = run(&store, Scope::Project, &vec![], NestingMode::Flat, true).unwrap();
    let ExportOutcome::Artifact(artifact) = outcome else {
        panic!("expected an export artifact");
    };
    assert_eq!(artifact.report.format, ExportFormat::MetadataArchive);
    assert_eq!(artifact.report.exported, 1);
    assert_eq!(
        artifact.report.warnings,
        vec![ExportWarning::MetadataUnavailable { titles: vec!["Alpha".to_string()] }]
    );
    assert!(artifact.suggested_filename.starts_with("padz-"));
    assert!(artifact.suggested_filename.ends_with(".meta.gz"));
}

#[test]
fn archive_name_and_selection_errors() {
    let mut store = Store::new();
    add(&mut store, "Alpha", "Body", None);
    let outcome = run(&store, Scope::Project, &vec![], NestingMode::Flat, false).unwrap();
    let ExportOutcome::Artifact(artifact) = outcome else {
        panic!("expected an export artifact");
    };
    assert!(artifact.suggested_filename.ends_with(".tar.gz"));
    assert!(artifact.report.warnings.is_empty());

    let missing = vec![PadSelector::Path(vec![DisplayIndex::Regular(9)])];
    assert!(run(&store, Scope::Project, &missing, NestingMode::Flat, false).is_err());
}

fn archive_files(bytes: &[u8]) -> Vec<(String, String)> {
    let mut ar = tar::Archive::new(flate2::read::GzDecoder::new(bytes));
    let mut out = Vec::new();
    for entry in ar.entries().unwrap() {
        let mut entry = entry.unwrap();
        let path = entry.path().unwrap().to_string_lossy().to_string();
        let mut text = String::new();
        std::io::Read::read_to_string(&mut entry, &mut text).unwrap();
        out.push((path, text));
    }
    out
}

#[test]
fn metadata_archive_heads_md_and_lex_pads_with_their_metadata() {
    let mut store = Store::new();
    add(&mut store, "Alpha", "Body A", None);
    add(&mut store, "Beta", "Body B", None);
    add(&mut store, "Gamma", "Body C", None);
    let pads = store.list_pads(Scope::Project, Bucket::Active).unwrap();
    let id_of = |t: &str| pads.iter().find(|p| p.metadata.title == t).unwrap().metadata.id;
    store.set_extension(id_of("Alpha"), Scope::Project, "MD").unwrap();
    store.set_extension(id_of("Beta"), Scope::Project, "lex").unwrap();

    let outcome = run(&store, Scope::Project, &vec![], NestingMode::Flat, true).unwrap();
    let ExportOutcome::Artifact(artifact) = outcome else {
        panic!("expected an export artifact");
    };
    assert_eq!(
        artifact.report.warnings,
        vec![ExportWarning::MetadataUnavailable { titles: vec!["Gamma".to_string()] }]
    );
    let files = archive_files(&artifact.bytes);
    assert_eq!(files.len(), 3);
    let alpha = files.iter().find(|(p, _)| p.starts_with("padz/Alpha-")).unwrap();
    assert!(alpha.0.ends_with(".md"));
    assert!(alpha.1.starts_with("---\n"));
    assert!(alpha.1.contains("padz.bucket: Active"));
    assert!(alpha.1.ends_with("---\n\nAlpha\n\nBody A"));
    let beta = files.iter().find(|(p, _)| p.starts_with("padz/Beta-")).unwrap();
    assert!(beta.0.ends_with(".lex"));
    assert!(beta.1.starts_with(":: padz.schema_version :: 1\n"));
    assert!(beta.1.ends_with(":: padz.bucket :: Active\n\nBeta\n\nBody B"));
    let gamma = files.iter().find(|(p, _)| p.starts_with("padz/Gamma-")).unwrap();
    assert!(gamma.0.ends_with(".txt"));
    assert_eq!(gamma.1, "Gamma\n\nBody C");
}

#[test]
fn store_refuses_bad_extensions_and_paths_carry_extension() {
    let mut store = Store::new();
    add(&mut store, "Alpha", "", None);
    let id = store.list_pads(Scope::Project, Bucket::Active).unwrap()[0].metadata.id;
    assert!(store.set_extension(id, Scope::Project, "").is_err());
    assert!(store.set_extension(id, Scope::Project, "tar.gz").is_err());
    assert!(store.set_extension(id, Scope::Global, "md").is_err());
    assert!(store.get_pad_path(id, Scope::Project, Bucket::Active).unwrap().ends_with(".txt"));
    store.set_extension(id, Scope::Project, "md").unwrap();
    assert!(store.get_pad_path(id, Scope::Project, Bucket::Active).unwrap().ends_with(".md"));
}
