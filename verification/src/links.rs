//! Entries, the matching of a reference against them, and the markdown
//! link that a reference resolves to.

use crate::front_matter::{
    declared_slug, get_slug_from_yaml_frontmatter, parse_yaml_frontmatter, slug_text,
};
use crate::laws::{first_listed_entry_wins, matching_entry_answers};
use crate::paths::{file_stem, path_file_stem, relative_path, relative_stem};
use crate::text::push_char;
use vstd::prelude::*;
use vstd::string::StringExecFns;

verus! {

/// One content item of the corpus: its path, and its text as far as it could
/// be read.
#[derive(Clone, Debug, PartialEq, Eq)]
pub struct Entry {
    /// The path that identifies the entry; its stem is the key that
    /// references are matched against.
    pub path: String,
    /// The text of the entry, or `None` where its front matter is not
    /// available.
    pub content: Option<String>,
}

/// An entry as contracts see it.
pub struct EntryView {
    pub path: Seq<char>,
    pub content: Option<Seq<char>>,
}

impl View for Entry {
    type V = EntryView;

    open spec fn view(&self) -> EntryView {
        EntryView { path: self.path@, content: self.content.deep_view() }
    }
}

impl DeepView for Entry {
    type V = EntryView;

    open spec fn deep_view(&self) -> EntryView {
        self@
    }
}

/// The entry answers to `reference`: the stem of its path is the reference,
/// character for character.
pub open spec fn answers_to(entry: EntryView, reference: Seq<char>) -> bool {
    path_file_stem(entry.path) == Some(reference)
}

/// The index of the first entry of the corpus that answers to `reference`.
pub open spec fn matching_index(corpus: Seq<EntryView>, reference: Seq<char>) -> Option<int>
    decreases corpus.len(),
{
    if corpus.len() == 0 {
        None
    } else if answers_to(corpus[0], reference) {
        Some(0)
    } else {
        match matching_index(corpus.drop_first(), reference) {
            Some(i) => Some(i + 1),
            None => None,
        }
    }
}

/// The first entry of the corpus that answers to `reference`.
pub open spec fn matching_entry(corpus: Seq<EntryView>, reference: Seq<char>) -> Option<
    EntryView,
> {
    match matching_index(corpus, reference) {
        Some(i) => Some(corpus[i]),
        None => None,
    }
}

/// A character as it stands in a link target: a space becomes `%20`, any
/// other character stays.
pub open spec fn encoded_char(c: char) -> Seq<char> {
    if c == ' ' {
        seq!['%', '2', '0']
    } else {
        seq![c]
    }
}

/// The text with each of its characters encoded for a link target.
pub open spec fn encode_spaces(text: Seq<char>) -> Seq<char>
    decreases text.len(),
{
    if text.len() == 0 {
        Seq::empty()
    } else {
        encode_spaces(text.drop_last()) + encoded_char(text.last())
    }
}

/// The directory part of a link target: the prefix, or `./` where the prefix
/// is empty.
pub open spec fn directory(path_prefix: Seq<char>) -> Seq<char> {
    if path_prefix.len() > 0 {
        path_prefix
    } else {
        seq!['.', '/']
    }
}

/// The last part of a link target: the slug, or the encoded file stem where
/// the slug is empty.
pub open spec fn final_component(slug: Seq<char>, stem: Seq<char>) -> Seq<char> {
    if slug.len() > 0 {
        slug
    } else {
        encode_spaces(stem)
    }
}

/// The target of a link: the directory, a slash and the last part.
pub open spec fn link_target(directory: Seq<char>, leaf: Seq<char>) -> Seq<char> {
    directory + seq!['/'] + leaf
}

/// The markdown link `[display](target)`.
pub open spec fn link_text(display: Seq<char>, target: Seq<char>) -> Seq<char> {
    seq!['['] + display + seq![']', '('] + target + seq![')']
}

/// Where the link for a reference leads that no entry answers to.
pub open spec fn fallback_target() -> Seq<char> {
    seq!['/', 'b', 'l', 'o', 'g', '/']
}

/// The link for a reference that no entry answers to: `[reference](/blog/)`.
pub open spec fn fallback_link(reference: Seq<char>) -> Seq<char> {
    link_text(reference, fallback_target())
}

/// The slug that an entry with the given content declares; empty where the
/// content is not available or declares none.
pub open spec fn slug_of(content: Option<Seq<char>>) -> Seq<char> {
    match content {
        Some(text) => slug_text(declared_slug(text)),
        None => Seq::empty(),
    }
}

/// The link from the entry at `source` to `target`, shown as `reference`.
/// Empty where no relative path leads from the one to the other, or where
/// that path names no file.
pub open spec fn formatted_link(
    target: EntryView,
    reference: Seq<char>,
    source: Seq<char>,
    path_prefix: Seq<char>,
) -> Seq<char> {
    match relative_stem(source, target.path) {
        Some(stem) => link_text(
            reference,
            link_target(directory(path_prefix), final_component(slug_of(target.content), stem)),
        ),
        None => Seq::empty(),
    }
}

/// What `reference` resolves to: the link to the first entry that answers
/// to it, or the fallback link where none does.
pub open spec fn resolved(
    reference: Seq<char>,
    corpus: Seq<EntryView>,
    source: Seq<char>,
    path_prefix: Seq<char>,
) -> Seq<char> {
    match matching_entry(corpus, reference) {
        Some(target) => formatted_link(target, reference, source, path_prefix),
        None => fallback_link(reference),
    }
}

/// Encodes `text` for a link target: `%20` for each space, every other
/// character as it is.
pub fn percent_encode_spaces(text: &str) -> (encoded: String)
    ensures
        encoded@ == encode_spaces(text@),
{
    let mut encoded = String::new();
    for c in it: text.chars()
        invariant
            it.seq() == text@,
            encoded@ == encode_spaces(text@.take(it.index())),
    {
        proof {
            assert(text@.take(it.index() + 1).drop_last() =~= text@.take(it.index()));
            reveal_strlit("%20");
        }
        if c == ' ' {
            encoded.append("%20");
        } else {
            push_char(&mut encoded, c);
        }
    }
    proof {
        assert(text@.take(text@.len() as int) =~= text@);
    }
    encoded
}

/// Assembles the markdown link to an entry with the given slug and file
/// stem, shown as `reference`: `[reference](directory/leaf)`, where the
/// directory is `path_prefix`, or `./` where that is empty, and the leaf is
/// the slug, or the stem with its spaces encoded where the slug is empty.
pub fn link_for(reference: &str, path_prefix: &str, slug: &str, stem: &str) -> (link: String)
    ensures
        link@ == link_text(
            reference@,
            link_target(directory(path_prefix@), final_component(slug@, stem@)),
        ),
{
    proof {
        reveal_strlit("[");
        reveal_strlit("](");
        reveal_strlit("./");
        reveal_strlit("/");
        reveal_strlit(")");
    }
    let mut link = String::new();
    link.append("[");
    link.append(reference);
    link.append("](");
    if !path_prefix.is_empty() {
        link.append(path_prefix);
    } else {
        link.append("./");
    }
    link.append("/");
    if !slug.is_empty() {
        link.append(slug);
    } else {
        let encoded = percent_encode_spaces(stem);
        link.append(encoded.as_str());
    }
    link.append(")");
    proof {
        assert(link@ =~= link_text(
            reference@,
            link_target(directory(path_prefix@), final_component(slug@, stem@)),
        ));
    }
    link
}

/// Builds the markdown link from the entry at `entry_path` to `entry`, shown
/// as `reference`: `[reference](directory/leaf)`, where the directory is
/// `path_prefix`, or `./` where that is empty, and the leaf is the slug that
/// the front matter of `entry` declares, or else the stem of the relative
/// path with its spaces encoded. Returns the empty string where there is no
/// relative path with a file stem.
pub fn format_link(entry: &Entry, reference: &str, entry_path: &str, path_prefix: &str) -> (link:
    String)
    ensures
        link@ == formatted_link(entry@, reference@, entry_path@, path_prefix@),
{
    let relative = match relative_path(entry_path, entry.path.as_str()) {
        Some(relative) => relative,
        None => {
            return String::new();
        },
    };
    let stem = match file_stem(relative.as_str()) {
        Some(stem) => stem,
        None => {
            return String::new();
        },
    };
    let slug = match &entry.content {
        Some(content) => get_slug_from_yaml_frontmatter(parse_yaml_frontmatter(content.as_str())),
        None => String::new(),
    };
    link_for(reference, path_prefix, slug.as_str(), stem.as_str())
}

/// The file stems of the entries, one for each in the order of the corpus;
/// `None` for an entry whose path names no file.
fn entry_stems(entries: &[Entry]) -> (stems: Vec<Option<String>>)
    ensures
        stems.len() == entries.len(),
        forall|i: int|
            0 <= i < stems.len() ==> (#[trigger] stems[i]).deep_view() == path_file_stem(
                entries[i].path@,
            ),
{
    let mut stems: Vec<Option<String>> = Vec::new();
    let mut i: usize = 0;
    while i < entries.len()
        invariant
            i <= entries.len(),
            stems.len() == i,
            forall|j: int|
                0 <= j < i ==> (#[trigger] stems[j]).deep_view() == path_file_stem(
                    entries[j].path@,
                ),
        decreases entries.len() - i,
    {
        stems.push(file_stem(entries[i].path.as_str()));
        i += 1;
    }
    stems
}

/// Finds the first of the stems that is the reference, character for
/// character. A missing stem is no match.
pub fn first_answering(stems: &[Option<String>], reference: &str) -> (found: Option<usize>)
    ensures
        match found {
            Some(i) => i < stems.len() && stems[i as int].deep_view() == Some(reference@)
                && forall|j: int| 0 <= j < i ==> stems[j].deep_view() != Some(reference@),
            None => forall|j: int|
                0 <= j < stems.len() ==> stems[j].deep_view() != Some(reference@),
        },
{
    let wanted = reference.to_owned();
    let mut i: usize = 0;
    while i < stems.len()
        invariant
            i <= stems.len(),
            wanted@ == reference@,
            forall|j: int| 0 <= j < i ==> stems[j].deep_view() != Some(reference@),
        decreases stems.len() - i,
    {
        match &stems[i] {
            Some(stem) => {
                if *stem == wanted {
                    return Some(i);
                }
            },
            None => {},
        }
        i += 1;
    }
    None
}

/// Finds the entry that a reference leads to: the index of the first entry
/// of the corpus whose path stem is the reference, or `None` where no entry
/// has that stem. The content of the entries is not read.
pub fn find_entry(reference: &str, entries: &[Entry]) -> (found: Option<usize>)
    ensures
        match found {
            Some(i) => i < entries.len() && matching_index(entries.deep_view(), reference@)
                == Some(i as int),
            None => matching_index(entries.deep_view(), reference@) is None,
        },
{
    let stems = entry_stems(entries);
    let found = first_answering(stems.as_slice(), reference);
    proof {
        let corpus = entries.deep_view();
        assert forall|j: int| 0 <= j < corpus.len() implies (#[trigger] answers_to(
            corpus[j],
            reference@,
        ) <==> stems[j].deep_view() == Some(reference@)) by {}
        match found {
            Some(i) => {
                first_listed_entry_wins(corpus, reference@, i as int);
            },
            None => {
                matching_entry_answers(corpus, reference@);
            },
        }
    }
    found
}

/// Resolves `reference` against the corpus: the link to the first entry
/// whose path stem is the reference, or `[reference](/blog/)` where no entry
/// has that stem.
pub fn find_reference(
    reference: &str,
    entries: &[Entry],
    entry_path: &str,
    path_prefix: &str,
) -> (link: String)
    ensures
        link@ == resolved(reference@, entries.deep_view(), entry_path@, path_prefix@),
{
    match find_entry(reference, entries) {
        Some(i) => format_link(&entries[i], reference, entry_path, path_prefix),
        None => {
            proof {
                reveal_strlit("[");
                reveal_strlit("](/blog/)");
            }
            let mut link = String::new();
            link.append("[");
            link.append(reference);
            link.append("](/blog/)");
            link
        },
    }
}

} // verus!
