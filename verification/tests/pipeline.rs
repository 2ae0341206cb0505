use blog::compile::{compile_collection, RawDocument, SkipReason};
use blog::highlight::Highlighter;
use blog::registry::ContentRegistry;

fn doc(name: &str, body: &str) -> RawDocument {
    RawDocument { name: name.to_string(), body: body.to_string() }
}

fn hl() -> Highlighter {
    Highlighter::try_new().expect("the fixed theme is compiled into syntect")
}

#[test]
fn compiles_basic_record() {
    let docs = vec![doc("12-20240105-hello.md", "# My Title\nSome body text.\n")];
    let (table, skips) = compile_collection(&docs, &hl());
    assert_eq!(skips.len(), 0);
    let md = table.get_content_metadata_list();
    assert_eq!(md.len(), 1);
    assert_eq!(md[0].id, "12");
    assert_eq!(md[0].date, "05-Jan-2024");
    assert_eq!(md[0].title, "My Title");
}

#[test]
fn invalid_names_are_skipped_with_reasons() {
    let docs = vec![
        doc("12-20240105.md", "# A\n"),
        doc("ab-20240105-x.md", "# B\n"),
        doc("12-20241332-x.md", "# C\n"),
        doc("3-20240214-ok.md", "# Kept\n"),
    ];
    let (table, skips) = compile_collection(&docs, &hl());
    assert_eq!(table.len(), 1);
    let md = table.get_content_metadata_list();
    assert_eq!(md[0].id, "3");
    assert_eq!(md[0].title, "Kept");
    assert_eq!(skips.len(), 3);
    assert_eq!(skips[0].name, "12-20240105.md");
    assert!(skips[0].reason == SkipReason::NotThreeParts);
    assert_eq!(skips[1].name, "ab-20240105-x.md");
    assert!(skips[1].reason == SkipReason::InvalidId);
    assert_eq!(skips[2].name, "12-20241332-x.md");
    assert!(skips[2].reason == SkipReason::InvalidDate);
}

#[test]
fn document_without_title_marker_is_skipped() {
    let docs = vec![
        doc("1-20240101-x.md", "No marker here\n"),
        doc("2-20240101-y.md", "#missing-space\n"),
        doc("3-20240101-z.md", ""),
    ];
    let (table, skips) = compile_collection(&docs, &hl());
    assert_eq!(table.len(), 0);
    assert_eq!(skips.len(), 3);
    for s in &skips {
        assert!(s.reason == SkipReason::MissingTitle);
    }
}

#[test]
fn table_is_sorted_ascending_by_id() {
    let docs = vec![
        doc("5-20240105-five.md", "# Five\n"),
        doc("2-20240105-two.md", "# Two\n"),
    ];
    let (table, _) = compile_collection(&docs, &hl());
    let md = table.get_content_metadata_list();
    assert_eq!(md.len(), 2);
    assert_eq!(md[0].id, "2");
    assert_eq!(md[1].id, "5");
}

#[test]
fn sort_is_numeric_not_lexicographic() {
    let docs = vec![
        doc("10-20240101-ten.md", "# Ten\n"),
        doc("9-20240101-nine.md", "# Nine\n"),
    ];
    let (table, _) = compile_collection(&docs, &hl());
    let md = table.get_content_metadata_list();
    assert_eq!(md[0].id, "9");
    assert_eq!(md[1].id, "10");
}

#[test]
fn duplicate_id_keeps_first_and_reports_second() {
    let docs = vec![
        doc("7-20240101-first.md", "# First\n"),
        doc("7-20240202-second.md", "# Second\n"),
    ];
    let (table, skips) = compile_collection(&docs, &hl());
    assert_eq!(table.len(), 1);
    let md = table.get_content_metadata_list();
    assert_eq!(md[0].title, "First");
    assert_eq!(skips.len(), 1);
    assert_eq!(skips[0].name, "7-20240202-second.md");
    assert!(skips[0].reason == SkipReason::DuplicateId);
}

#[test]
fn recompiling_unchanged_input_is_byte_identical() {
    let docs = vec![
        doc("2-20240105-code.md", "# Code\n\n```text\nhello\n```\n"),
        doc("1-20231231-plain.md", "# Plain\nJust words.\n"),
        doc("3-20240301-rust.md", "# Rust\n\n```rs\nlet x = 1;\n```\n"),
    ];
    let h = hl();
    let (t1, s1) = compile_collection(&docs, &h);
    let (t2, s2) = compile_collection(&docs, &h);
    assert_eq!(s1.len(), s2.len());
    assert_eq!(t1.render_source("POSTS"), t2.render_source("POSTS"));
}

#[test]
fn get_nonexistent_id_returns_nothing() {
    let docs = vec![doc("1-20240101-a.md", "# A\n")];
    let (table, _) = compile_collection(&docs, &hl());
    assert!(table.get_content("999").is_none());
}

#[test]
fn get_compares_the_emitted_id_text() {
    let docs = vec![doc("7-20240101-a.md", "# A\n")];
    let (table, _) = compile_collection(&docs, &hl());
    assert!(table.get_content("7").is_some());
    assert!(table.get_content("007").is_none());
    assert!(table.get_content("+7").is_none());
}

#[test]
fn empty_collection_lists_nothing() {
    let docs: Vec<RawDocument> = vec![];
    let (table, skips) = compile_collection(&docs, &hl());
    assert_eq!(table.len(), 0);
    assert_eq!(skips.len(), 0);
    assert_eq!(table.get_content_metadata_list().len(), 0);
}

#[test]
fn get_returns_full_record() {
    let docs = vec![doc("4-20250905-post.md", "# The Post\nBody here.\n")];
    let (table, _) = compile_collection(&docs, &hl());
    let (meta, body) = table.get_content("4").expect("record exists");
    assert_eq!(meta.id, "4");
    assert_eq!(meta.date, "05-Sep-2025");
    assert_eq!(meta.title, "The Post");
    assert!(body.contains("Body here."));
}

#[test]
fn title_is_kept_verbatim() {
    let docs = vec![doc("1-20240101-a.md", "# <b>Bold</b> & \"quoted\"\n")];
    let (table, _) = compile_collection(&docs, &hl());
    let md = table.get_content_metadata_list();
    assert_eq!(md[0].title, "<b>Bold</b> & \"quoted\"");
}

#[test]
fn registry_keeps_collections_apart() {
    let h = hl();
    let (posts, _) = compile_collection(&vec![doc("1-20240101-p.md", "# Post One\n")], &h);
    let (poems, _) = compile_collection(&vec![doc("2-20240202-q.md", "# Poem Two\n")], &h);
    let mut reg = ContentRegistry::new();
    reg.add_collection("posts".to_string(), posts);
    reg.add_collection("poems".to_string(), poems);
    let post_md = reg.list_metadata("posts").expect("posts exist");
    assert_eq!(post_md.len(), 1);
    assert_eq!(post_md[0].title, "Post One");
    let poem = reg.get("poems", "2").expect("poem exists");
    assert_eq!(poem.0.title, "Poem Two");
    assert!(reg.get("poems", "1").is_none());
    assert!(reg.get("essays", "1").is_none());
    assert!(reg.list_metadata("essays").is_none());
}

#[test]
fn rendered_source_has_expected_shape() {
    let docs = vec![doc("1-20240101-a.md", "# A\n")];
    let (table, _) = compile_collection(&docs, &hl());
    let src = table.render_source("POSTS");
    assert!(src.starts_with("static POSTS: &[(&str, &str, &str, &str)] = &[\n"));
    assert!(src.ends_with("\n];"));
    assert!(src.contains("    (\"1\", \"01-Jan-2024\", \"A\", r###\""));
}

#[test]
fn rendered_source_of_empty_table() {
    let docs: Vec<RawDocument> = vec![];
    let (table, _) = compile_collection(&docs, &hl());
    assert_eq!(
        table.render_source("POSTS"),
        "static POSTS: &[(&str, &str, &str, &str)] = &[\n\n];"
    );
}
