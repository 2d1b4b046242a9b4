use wikilinks::{
    find_entry, find_reference, first_answering, format_link, link_for, percent_encode_spaces,
    relative_path, Entry,
};

fn bare(path: &str) -> Entry {
    Entry { path: path.to_string(), content: None }
}

fn with_content(path: &str, content: &str) -> Entry {
    Entry { path: path.to_string(), content: Some(content.to_string()) }
}

#[test]
fn spaces_become_percent_twenty() {
    assert_eq!(percent_encode_spaces("my file name"), "my%20file%20name");
    assert_eq!(percent_encode_spaces(" "), "%20");
    assert_eq!(percent_encode_spaces("  a  "), "%20%20a%20%20");
}

#[test]
fn nothing_but_spaces_is_encoded() {
    assert_eq!(percent_encode_spaces(""), "");
    assert_eq!(percent_encode_spaces("hello-world"), "hello-world");
    assert_eq!(percent_encode_spaces("a%b/c?d#e&f\tg"), "a%b/c?d#e&f\tg");
    assert_eq!(percent_encode_spaces("caf\u{e9} \u{4e16}\u{754c}"), "caf\u{e9}%20\u{4e16}\u{754c}");
}

#[test]
fn relative_path_between_siblings_drops_the_ascent() {
    assert_eq!(
        relative_path("posts/other.md", "posts/hello-world.md"),
        Some("hello-world.md".to_string())
    );
}

#[test]
fn relative_path_starts_at_the_directory_of_the_source() {
    assert_eq!(relative_path("posts/other.md", "posts/other.md"), Some("other.md".to_string()));
    assert_eq!(relative_path("source.md", "notes/target.md"), Some("notes/target.md".to_string()));
    assert_eq!(relative_path("a/b/source.md", "a/b/c/target.md"), Some("c/target.md".to_string()));
}

#[test]
fn relative_path_elides_one_level_only() {
    assert_eq!(relative_path("posts/source.md", "notes/target.md"), Some("notes/target.md".to_string()));
    assert_eq!(relative_path("a/b/source.md", "a/target.md"), Some("target.md".to_string()));
    assert_eq!(
        relative_path("a/b/source.md", "c/target.md"),
        Some("../c/target.md".to_string())
    );
}

#[test]
fn relative_path_to_an_absolute_target_is_the_target() {
    assert_eq!(relative_path("posts/other.md", "/srv/a.md"), Some("/srv/a.md".to_string()));
}

#[test]
fn no_relative_path_from_an_absolute_source_to_a_relative_target() {
    assert_eq!(relative_path("/srv/other.md", "posts/a.md"), None);
}

#[test]
fn no_relative_path_from_a_source_that_ascends() {
    assert_eq!(relative_path("../other.md", "posts/a.md"), None);
}

#[test]
fn link_uses_the_stem_and_the_current_directory() {
    let target = bare("posts/hello-world.md");
    assert_eq!(
        format_link(&target, "hello-world", "posts/other.md", ""),
        "[hello-world](.//hello-world)"
    );
}

#[test]
fn link_begins_with_the_path_prefix() {
    let target = bare("posts/hello-world.md");
    assert_eq!(
        format_link(&target, "hello-world", "posts/other.md", "/blog"),
        "[hello-world](/blog/hello-world)"
    );
    assert_eq!(
        format_link(&target, "hello-world", "posts/other.md", "../notes/"),
        "[hello-world](../notes//hello-world)"
    );
}

#[test]
fn link_encodes_spaces_of_the_stem_only() {
    let target = bare("posts/my great post.v2.md");
    assert_eq!(
        format_link(&target, "my great post.v2", "posts/other.md", "/blog"),
        "[my great post.v2](/blog/my%20great%20post.v2)"
    );
}

#[test]
fn slug_replaces_the_stem() {
    let target = with_content("posts/hello-world.md", "---\nslug: my-post\n---\nBody\n");
    assert_eq!(
        format_link(&target, "hello-world", "posts/other.md", ""),
        "[hello-world](.//my-post)"
    );
    assert_eq!(
        format_link(&target, "hello-world", "posts/other.md", "/blog"),
        "[hello-world](/blog/my-post)"
    );
}

#[test]
fn slug_is_not_encoded() {
    let target = with_content("posts/a b.md", "---\nslug: my post\n---\n");
    assert_eq!(format_link(&target, "a b", "posts/other.md", "/blog"), "[a b](/blog/my post)");
}

#[test]
fn empty_or_missing_slug_leaves_the_stem() {
    let empty = with_content("posts/a b.md", "---\nslug: \"\"\n---\n");
    assert_eq!(format_link(&empty, "a b", "posts/other.md", "/blog"), "[a b](/blog/a%20b)");
    let none = with_content("posts/a b.md", "---\ntitle: t\n---\n");
    assert_eq!(format_link(&none, "a b", "posts/other.md", "/blog"), "[a b](/blog/a%20b)");
    let malformed = with_content("posts/a b.md", "---\nslug: [x\n---\n");
    assert_eq!(format_link(&malformed, "a b", "posts/other.md", "/blog"), "[a b](/blog/a%20b)");
}

#[test]
fn display_text_is_the_reference_as_given() {
    let target = bare("posts/Hello.md");
    assert_eq!(
        format_link(&target, "Any *Text* [here]", "posts/other.md", "/p"),
        "[Any *Text* [here]](/p/Hello)"
    );
}

#[test]
fn link_is_empty_without_a_relative_path() {
    let target = bare("posts/a.md");
    assert_eq!(format_link(&target, "a", "/srv/other.md", "/blog"), "");
}

#[test]
fn entry_links_to_itself_by_its_own_stem() {
    let target = bare("posts/other.md");
    assert_eq!(format_link(&target, "other", "posts/other.md", "/blog"), "[other](/blog/other)");
    assert_eq!(format_link(&bare("a.md"), "a", "a.md", ""), "[a](.//a)");
}

#[test]
fn link_is_empty_where_the_relative_path_names_no_file() {
    assert_eq!(format_link(&bare("posts"), "posts", "posts/a.md", "/blog"), "");
    assert_eq!(format_link(&bare("posts/.."), "x", "a.md", "/blog"), "");
}

#[test]
fn reference_resolves_to_the_entry_with_that_stem() {
    let corpus = vec![bare("posts/first.md"), bare("posts/hello-world.md"), bare("notes/last.md")];
    assert_eq!(
        find_reference("hello-world", &corpus, "posts/other.md", "/blog"),
        "[hello-world](/blog/hello-world)"
    );
    assert_eq!(
        find_reference("last", &corpus, "posts/other.md", "/blog"),
        "[last](/blog/last)"
    );
}

#[test]
fn unknown_reference_resolves_to_the_fallback() {
    let corpus = vec![bare("posts/hello-world.md")];
    assert_eq!(find_reference("missing", &corpus, "posts/other.md", "/blog"), "[missing](/blog/)");
    assert_eq!(find_reference("missing", &[], "posts/other.md", ""), "[missing](/blog/)");
}

#[test]
fn matching_is_exact() {
    let corpus = vec![bare("posts/Hello World.md")];
    assert_eq!(find_reference("hello world", &corpus, "x.md", ""), "[hello world](/blog/)");
    assert_eq!(find_reference("Hello", &corpus, "x.md", ""), "[Hello](/blog/)");
    assert_eq!(find_reference("Hello World.md", &corpus, "x.md", ""), "[Hello World.md](/blog/)");
    assert_eq!(find_reference("Hello World ", &corpus, "x.md", ""), "[Hello World ](/blog/)");
    assert_eq!(
        find_reference("Hello World", &corpus, "x.md", ""),
        "[Hello World](.//Hello%20World)"
    );
}

#[test]
fn first_listed_entry_wins() {
    let corpus = vec![
        with_content("a/page.md", "---\nslug: first\n---\n"),
        with_content("b/page.md", "---\nslug: second\n---\n"),
    ];
    assert_eq!(find_reference("page", &corpus, "index.md", "/p"), "[page](/p/first)");
}

#[test]
fn entry_without_a_stem_answers_to_nothing() {
    let corpus = vec![bare(""), bare(".."), bare("/"), bare("posts/a.md")];
    assert_eq!(find_reference("a", &corpus, "posts/b.md", "/p"), "[a](/p/a)");
    assert_eq!(find_reference("..", &corpus, "posts/b.md", "/p"), "[..](/blog/)");
    assert_eq!(find_reference("", &corpus, "posts/b.md", "/p"), "[](/blog/)");
}

#[test]
fn resolving_twice_gives_the_same_link() {
    let corpus = vec![with_content("posts/a b.md", "---\ntitle: t\n---\n"), bare("posts/c.md")];
    let first = find_reference("a b", &corpus, "posts/other.md", "/blog");
    let second = find_reference("a b", &corpus, "posts/other.md", "/blog");
    assert_eq!(first, second);
    assert_eq!(first, "[a b](/blog/a%20b)");
}

#[test]
fn link_is_assembled_from_its_parts() {
    assert_eq!(link_for("Ref", "", "", "a b"), "[Ref](.//a%20b)");
    assert_eq!(link_for("Ref", "/blog", "", "a b"), "[Ref](/blog/a%20b)");
    assert_eq!(link_for("Ref", "/blog", "my slug", "a b"), "[Ref](/blog/my slug)");
    assert_eq!(link_for("", "p", "", ""), "[](p/)");
}

#[test]
fn first_equal_stem_answers() {
    let stems = vec![
        None,
        Some("b".to_string()),
        Some("a".to_string()),
        Some("a".to_string()),
        Some("A".to_string()),
    ];
    assert_eq!(first_answering(&stems, "a"), Some(2));
    assert_eq!(first_answering(&stems, "b"), Some(1));
    assert_eq!(first_answering(&stems, "A"), Some(4));
    assert_eq!(first_answering(&stems, "c"), None);
    assert_eq!(first_answering(&stems, ""), None);
    assert_eq!(first_answering(&[], "a"), None);
}

#[test]
fn entry_is_found_by_its_stem() {
    let corpus = vec![bare("x/.."), bare("posts/a.md"), bare("notes/b.txt"), bare("other/a.md")];
    assert_eq!(find_entry("a", &corpus), Some(1));
    assert_eq!(find_entry("b", &corpus), Some(2));
    assert_eq!(find_entry("a.md", &corpus), None);
    assert_eq!(find_entry("c", &corpus), None);
}
