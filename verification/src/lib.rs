//! Resolution of `[[wikilink]]` cross-references in the markdown text of an
//! entry into relative markdown links to the entries of a corpus.

pub mod front_matter;
pub mod laws;
pub mod links;
pub mod paths;
pub mod rewrite;
pub mod text;

pub use front_matter::{
    front_matter_block, front_matter_is_closed, get_slug_from_yaml_frontmatter,
    parse_yaml_frontmatter, FrontMatter,
};
pub use links::{
    find_entry, find_reference, first_answering, format_link, link_for, percent_encode_spaces,
    Entry,
};
pub use paths::relative_path;
pub use rewrite::{find_wikilinks, linked_by_tokens, linked_entries, rewrite_tokens, Token};
