use blog::date::{format_date, parse_date, Date};
use blog::filename::{parse_filename, parse_u32, NameError};
use blog::highlight::Highlighter;
use blog::meta::extract_title;
use blog::rewrite::markdown_to_html;
use blog::text::{str_eq, u32_to_dec};

fn hl() -> Highlighter {
    Highlighter::try_new().expect("the fixed theme is compiled into syntect")
}

#[test]
fn filename_decodes_id_date_slug() {
    let p = parse_filename("12-20240105-hello.md").expect("valid name");
    assert_eq!(p.id, 12);
    assert_eq!(p.date, Date { year: 2024, month: 1, day: 5 });
    assert_eq!(p.slug, "hello");
}

#[test]
fn filename_slug_may_contain_dashes() {
    let p = parse_filename("3-20240105-a-b-c.md").expect("valid name");
    assert_eq!(p.id, 3);
    assert_eq!(p.slug, "a-b-c");
}

#[test]
fn filename_strips_every_trailing_extension() {
    let p = parse_filename("1-20240102-a.md.md").expect("valid name");
    assert_eq!(p.slug, "a");
}

#[test]
fn filename_without_extension_still_decodes() {
    let p = parse_filename("1-20240102-a.txt").expect("three parts");
    assert_eq!(p.slug, "a.txt");
}

#[test]
fn filename_with_too_few_parts_is_refused() {
    assert!(matches!(parse_filename("12-20240105.md"), Err(NameError::NotThreeParts)));
    assert!(matches!(parse_filename("hello.md"), Err(NameError::NotThreeParts)));
    assert!(matches!(parse_filename(""), Err(NameError::NotThreeParts)));
}

#[test]
fn filename_id_must_be_a_u32() {
    assert!(matches!(parse_filename("ab-20240105-x.md"), Err(NameError::InvalidId)));
    assert!(matches!(parse_filename("-20240105-x.md"), Err(NameError::InvalidId)));
    assert!(matches!(parse_filename("4294967296-20240105-x.md"), Err(NameError::InvalidId)));
    let p = parse_filename("4294967295-20240105-x.md").expect("fits in u32");
    assert_eq!(p.id, u32::MAX);
}

#[test]
fn filename_id_accepts_a_leading_plus() {
    let p = parse_filename("+12-20240105-x.md").expect("rust accepts a plus");
    assert_eq!(p.id, 12);
}

#[test]
fn filename_date_must_be_valid() {
    assert!(matches!(parse_filename("12-20241332-x.md"), Err(NameError::InvalidDate)));
    assert!(matches!(parse_filename("12-2024010-x.md"), Err(NameError::InvalidDate)));
    assert!(matches!(parse_filename("12-20240100-x.md"), Err(NameError::InvalidDate)));
    assert!(matches!(parse_filename("12-19000229-x.md"), Err(NameError::InvalidDate)));
    let p = parse_filename("12-20000229-x.md").expect("2000 is a leap year");
    assert_eq!(p.date, Date { year: 2000, month: 2, day: 29 });
}

#[test]
fn parse_u32_matches_rust_semantics() {
    assert_eq!(parse_u32("0"), Some(0));
    assert_eq!(parse_u32("042"), Some(42));
    assert_eq!(parse_u32("+7"), Some(7));
    assert_eq!(parse_u32(""), None);
    assert_eq!(parse_u32("+"), None);
    assert_eq!(parse_u32("12a"), None);
    assert_eq!(parse_u32(" 12"), None);
    assert_eq!(parse_u32("-1"), None);
    assert_eq!(parse_u32("4294967295"), Some(u32::MAX));
    assert_eq!(parse_u32("4294967296"), None);
    assert_eq!(parse_u32("99999999999999999999"), None);
}

#[test]
fn date_formats_as_day_month_year() {
    assert_eq!(format_date(&Date { year: 2025, month: 9, day: 5 }), "05-Sep-2025");
    assert_eq!(format_date(&Date { year: 2024, month: 1, day: 31 }), "31-Jan-2024");
    assert_eq!(format_date(&Date { year: 987, month: 12, day: 1 }), "01-Dec-0987");
}

#[test]
fn date_parse_rejects_non_digits_and_wrong_length() {
    assert_eq!(parse_date("2024010a"), None);
    assert_eq!(parse_date("202401051"), None);
    assert_eq!(parse_date("20240105"), Some(Date { year: 2024, month: 1, day: 5 }));
}

#[test]
fn title_comes_from_the_first_line() {
    assert_eq!(extract_title("# My Title\nrest"), Some("My Title".to_string()));
    assert_eq!(extract_title("# My Title"), Some("My Title".to_string()));
    assert_eq!(extract_title("# Windows\r\nrest"), Some("Windows".to_string()));
    assert_eq!(extract_title("# "), Some("".to_string()));
    assert_eq!(extract_title("## Not a title\n"), None);
    assert_eq!(extract_title("#no-space\n"), None);
    assert_eq!(extract_title("body\n# Later\n"), None);
    assert_eq!(extract_title(""), None);
}

#[test]
fn markdown_renders_paragraphs() {
    assert_eq!(markdown_to_html("hello", &hl()), "<p>hello</p>\n");
}

#[test]
fn markdown_extensions_are_enabled() {
    let h = hl();
    assert!(markdown_to_html("~~gone~~", &h).contains("<del>"));
    let table = markdown_to_html("| a | b |\n|---|---|\n| 1 | 2 |\n", &h);
    assert!(table.contains("<table>"));
    let tasks = markdown_to_html("- [x] done\n- [ ] open\n", &h);
    assert!(tasks.contains("checkbox"));
}

#[test]
fn fenced_block_is_wrapped_and_fence_markers_are_gone() {
    let out = markdown_to_html("```text\nhello\n```\n", &hl());
    assert!(out.contains("<pre style=\"background-color:#"));
    assert!(out.contains("<code>"));
    assert!(out.contains("</code></pre>"));
    assert!(out.contains("hello"));
    assert!(!out.contains("```"));
}

#[test]
fn unknown_language_token_degrades_to_plain_text() {
    let out = markdown_to_html("```qux\nhello\n```\n", &hl());
    assert!(out.contains("<code>"));
    assert!(out.contains("hello"));
    assert!(!out.contains("```"));
}

#[test]
fn known_language_gets_colored_spans() {
    let out = markdown_to_html("```rs\nlet x = 1;\n```\n", &hl());
    assert!(out.contains("<span style=\""));
    assert!(out.contains("</span>"));
}

#[test]
fn text_outside_code_blocks_passes_through() {
    let out = markdown_to_html("before\n\n```text\ninside\n```\n\nafter\n", &hl());
    assert!(out.contains("<p>before</p>"));
    assert!(out.contains("<p>after</p>"));
    assert!(out.contains("inside"));
}

#[test]
fn decimal_rendering_matches() {
    assert_eq!(u32_to_dec(0), "0");
    assert_eq!(u32_to_dec(7), "7");
    assert_eq!(u32_to_dec(10), "10");
    assert_eq!(u32_to_dec(4294967295), "4294967295");
}

#[test]
fn string_equality_is_character_wise() {
    assert!(str_eq("", ""));
    assert!(str_eq("abc", "abc"));
    assert!(!str_eq("abc", "abd"));
    assert!(!str_eq("abc", "ab"));
    assert!(str_eq("naïve", "naïve"));
}
