use wikilinks::{
    front_matter_block, front_matter_is_closed, get_slug_from_yaml_frontmatter,
    parse_yaml_frontmatter, FrontMatter,
};

#[test]
fn block_is_empty_without_a_delimiter() {
    assert_eq!(front_matter_block("title: x\nslug: y\n"), "");
    assert_eq!(front_matter_block(""), "");
}

#[test]
fn block_lies_between_two_delimiters() {
    let content = "---\ntitle: Hello\nslug: my-post\n---\n# Body\nslug: other\n";
    assert_eq!(front_matter_block(content), "title: Hello\nslug: my-post");
}

#[test]
fn block_runs_to_the_end_without_a_closing_delimiter() {
    assert_eq!(front_matter_block("---\na: 1\nb: 2"), "a: 1\nb: 2");
    assert_eq!(front_matter_block("---\na: 1\nb: 2\n"), "a: 1\nb: 2");
}

#[test]
fn lines_before_the_opening_delimiter_are_skipped() {
    assert_eq!(front_matter_block("intro\n\n---\nslug: s\n---\nrest"), "slug: s");
}

#[test]
fn nothing_after_the_closing_delimiter_is_taken() {
    assert_eq!(front_matter_block("---\na\n---\nb\n---\nc\n---\n"), "a");
}

#[test]
fn empty_block_between_adjacent_delimiters() {
    assert_eq!(front_matter_block("---\n---\nslug: s\n"), "");
}

#[test]
fn empty_lines_inside_the_block_are_kept() {
    assert_eq!(front_matter_block("---\n\na\n\n---\n"), "\na\n");
}

#[test]
fn carriage_returns_of_line_endings_are_dropped() {
    assert_eq!(front_matter_block("---\r\nslug: s\r\ntitle: t\r\n---\r\nbody"), "slug: s\ntitle: t");
}

#[test]
fn carriage_return_inside_a_line_is_kept() {
    assert_eq!(front_matter_block("---\na\rb\r\r\nc\r"), "a\rb\r\nc\r");
}

#[test]
fn delimiter_must_be_the_whole_line() {
    assert_eq!(front_matter_block("--- \na\n---\n"), "");
    assert_eq!(front_matter_block("---\na\n----\nb\n ---\n---\nc"), "a\n----\nb\n ---");
}

#[test]
fn last_line_without_ending_may_close_the_block() {
    assert_eq!(front_matter_block("---\na\n---"), "a");
    assert_eq!(front_matter_block("---"), "");
}

#[test]
fn block_keeps_characters_outside_ascii() {
    assert_eq!(front_matter_block("---\nslug: caf\u{e9}\n---\n"), "slug: caf\u{e9}");
}

#[test]
fn slug_is_read_from_front_matter() {
    let front_matter = parse_yaml_frontmatter("---\ntitle: Hello\nslug: my-post\n---\nBody\n");
    assert_eq!(front_matter, FrontMatter { slug: Some("my-post".to_string()) });
}

#[test]
fn quoted_slug_is_read_as_its_text() {
    let front_matter = parse_yaml_frontmatter("---\nslug: \"two words\"\n---\n");
    assert_eq!(front_matter.slug, Some("two words".to_string()));
}

#[test]
fn slug_that_is_not_a_string_is_ignored() {
    assert_eq!(parse_yaml_frontmatter("---\nslug: 42\n---\n").slug, None);
    assert_eq!(parse_yaml_frontmatter("---\nslug: [a, b]\n---\n").slug, None);
    assert_eq!(parse_yaml_frontmatter("---\nslug: true\n---\n").slug, None);
}

#[test]
fn front_matter_without_slug_has_none() {
    assert_eq!(parse_yaml_frontmatter("---\ntitle: Hello\n---\n").slug, None);
    assert_eq!(parse_yaml_frontmatter("no front matter here").slug, None);
    assert_eq!(parse_yaml_frontmatter("").slug, None);
}

#[test]
fn malformed_front_matter_counts_as_empty() {
    assert_eq!(parse_yaml_frontmatter("---\nslug: [unclosed\n---\n").slug, None);
    assert_eq!(parse_yaml_frontmatter("---\n: : :\n\t- x\n---\n").slug, None);
}

#[test]
fn front_matter_that_is_no_mapping_has_no_slug() {
    assert_eq!(parse_yaml_frontmatter("---\n- slug\n- other\n---\n").slug, None);
    assert_eq!(parse_yaml_frontmatter("---\nslug\n---\n").slug, None);
}

#[test]
fn slug_outside_the_block_is_not_read() {
    assert_eq!(parse_yaml_frontmatter("slug: early\n---\ntitle: t\n---\nslug: late\n").slug, None);
}

#[test]
fn empty_slug_is_read_as_empty() {
    assert_eq!(parse_yaml_frontmatter("---\nslug: \"\"\n---\n").slug, Some(String::new()));
}

#[test]
fn slug_of_a_document_or_empty() {
    let with = FrontMatter { slug: Some("my-post".to_string()) };
    assert_eq!(get_slug_from_yaml_frontmatter(with), "my-post");
    assert_eq!(get_slug_from_yaml_frontmatter(FrontMatter { slug: None }), "");
}

#[test]
fn block_is_closed_by_a_second_delimiter() {
    assert!(front_matter_is_closed("---\na\n---\nb"));
    assert!(front_matter_is_closed("---\n---\n"));
    assert!(front_matter_is_closed("x\n---\r\na\n---"));
    assert!(front_matter_is_closed("---\na\n---\n---\n"));
}

#[test]
fn block_without_a_second_delimiter_is_open() {
    assert!(!front_matter_is_closed(""));
    assert!(!front_matter_is_closed("a\nb\n"));
    assert!(!front_matter_is_closed("---"));
    assert!(!front_matter_is_closed("---\na\n--- \n"));
    assert!(!front_matter_is_closed("---\na\n--"));
}
