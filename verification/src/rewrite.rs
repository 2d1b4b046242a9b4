//! Wikilink tokens in the text of an entry and their replacement by links.

use crate::links::{find_entry, find_reference, matching_index, resolved, Entry, EntryView};
use crate::text::{bytes_of, check_span, cut, cut_from, is_span, span_text};
use vstd::prelude::*;
use vstd::string::StringExecFns;

verus! {

/// One match of a pattern in a text, by byte offsets into the text.
#[derive(Clone, Copy, Debug, PartialEq, Eq)]
pub struct Token {
    /// Where the match begins.
    pub start: usize,
    /// Where the match ends: the offset just past its last byte.
    pub end: usize,
    /// The byte range that the first group of the pattern matched, where it
    /// took part in the match.
    pub group: Option<(usize, usize)>,
}

/// The matches that `regex` finds for `pattern` in `haystack`, from left to
/// right, each with the range of its first group; `None` where `regex` does
/// not accept the pattern.
pub uninterp spec fn regex_captures(pattern: Seq<char>, haystack: Seq<char>) -> Option<Seq<Token>>;

/// The offsets of the token, and of its group, cut `text` between
/// characters.
pub open spec fn token_lies_in(text: Seq<char>, token: Token) -> bool {
    &&& is_span(text, token.start as int, token.end as int)
    &&& match token.group {
        Some((first, last)) => is_span(text, first as int, last as int),
        None => true,
    }
}

/// The tokens lie in `text` from left to right, none beginning before the
/// one before it has ended.
pub open spec fn in_order(text: Seq<char>, tokens: Seq<Token>) -> bool {
    &&& forall|k: int| 0 <= k < tokens.len() ==> token_lies_in(text, #[trigger] tokens[k])
    &&& forall|k: int|
        0 < k < tokens.len() ==> tokens[k - 1].end <= (#[trigger] tokens[k]).start
}

/// Compiles `pattern` with `regex::Regex::new` and walks the matches in
/// `haystack` with `Regex::captures_iter`, reading the offsets of each match
/// and of its first group from `Captures::get`. The contract names the
/// outcome and states of it what `regex` documents of every match: its
/// offsets fall between characters of the haystack, its start is not after
/// its end, and successive matches do not overlap.
#[verifier::external_body]
fn captures(pattern: &str, haystack: &str) -> (found: Option<Vec<Token>>)
    ensures
        regex_captures(pattern@, haystack@) == match found {
            Some(tokens) => Some(tokens@),
            None => None,
        },
        found matches Some(tokens) ==> in_order(haystack@, tokens@),
{
    let re = regex::Regex::new(pattern).ok()?;
    let token = |c: regex::Captures| Token {
        start: c.get(0).unwrap().start(),
        end: c.get(0).unwrap().end(),
        group: c.get(1).map(|g| (g.start(), g.end())),
    };
    Some(re.captures_iter(haystack).map(token).collect())
}

/// The pattern of a wikilink token, `\[\[(\]|(?:[^\]]|\][^\]])+?)\]\]`: the
/// brackets `[[`, a reference, and the brackets `]]`. The reference is the
/// first group. It is one character or more, of any kind, line feeds too;
/// it holds no `]]` and is as short as can be. So it is either a single
/// `]`, or a run in which every `]` is followed by a character that is not
/// `]`.
pub open spec fn wikilink_pattern() -> Seq<char> {
    seq![
        '\\', '[', '\\', '[',
        '(', '\\', ']', '|',
        '(', '?', ':', '[', '^', '\\', ']', ']', '|', '\\', ']', '[', '^', '\\', ']', ']', ')', '+', '?',
        ')',
        '\\', ']', '\\', ']',
    ]
}

/// The token can be replaced in `text` once everything before `from` is
/// done: it begins at or after `from`, and its offsets and those of its
/// group cut `text` between characters.
pub open spec fn token_fits(text: Seq<char>, from: int, token: Token) -> bool {
    &&& is_span(text, from, token.start as int)
    &&& token_lies_in(text, token)
}

/// What stands in place of a token: the link that its reference resolves
/// to, the reference being the text of its group. A token without a group
/// stays as it is.
pub open spec fn replacement(
    text: Seq<char>,
    token: Token,
    corpus: Seq<EntryView>,
    source: Seq<char>,
    path_prefix: Seq<char>,
) -> Seq<char> {
    match token.group {
        Some((first, last)) => resolved(
            span_text(text, first as int, last as int),
            corpus,
            source,
            path_prefix,
        ),
        None => span_text(text, token.start as int, token.end as int),
    }
}

/// The text from the byte offset `from` on, with each of the tokens
/// replaced, from left to right. The text between tokens stays as it is. A
/// token that does not fit where the one before it ended is passed over.
pub open spec fn rewritten(
    text: Seq<char>,
    tokens: Seq<Token>,
    from: int,
    corpus: Seq<EntryView>,
    source: Seq<char>,
    path_prefix: Seq<char>,
) -> Seq<char>
    decreases tokens.len(),
{
    if tokens.len() == 0 {
        span_text(text, from, bytes_of(text).len() as int)
    } else if token_fits(text, from, tokens[0]) {
        span_text(text, from, tokens[0].start as int) + replacement(
            text,
            tokens[0],
            corpus,
            source,
            path_prefix,
        ) + rewritten(text, tokens.drop_first(), tokens[0].end as int, corpus, source, path_prefix)
    } else {
        rewritten(text, tokens.drop_first(), from, corpus, source, path_prefix)
    }
}

/// Where the text is done once the tokens have been passed from left to
/// right, starting at `from`: the end of the last token that fitted, or
/// `from` where none did.
pub open spec fn done_to(text: Seq<char>, tokens: Seq<Token>, from: int) -> int
    decreases tokens.len(),
{
    if tokens.len() == 0 {
        from
    } else {
        let before = done_to(text, tokens.drop_last(), from);
        if token_fits(text, before, tokens.last()) {
            tokens.last().end as int
        } else {
            before
        }
    }
}

/// What the text between `from` and the end of the last fitting token
/// becomes: each token that fits replaced, the text before it as it is.
pub open spec fn replaced(
    text: Seq<char>,
    tokens: Seq<Token>,
    from: int,
    corpus: Seq<EntryView>,
    source: Seq<char>,
    path_prefix: Seq<char>,
) -> Seq<char>
    decreases tokens.len(),
{
    if tokens.len() == 0 {
        Seq::empty()
    } else {
        let before = done_to(text, tokens.drop_last(), from);
        let head = replaced(text, tokens.drop_last(), from, corpus, source, path_prefix);
        if token_fits(text, before, tokens.last()) {
            head + span_text(text, before, tokens.last().start as int) + replacement(
                text,
                tokens.last(),
                corpus,
                source,
                path_prefix,
            )
        } else {
            head
        }
    }
}

/// The text from the byte offset `from` on, with every one of the tokens
/// replaced, from left to right, and the text between them as it is.
pub open spec fn all_replaced(
    text: Seq<char>,
    tokens: Seq<Token>,
    from: int,
    corpus: Seq<EntryView>,
    source: Seq<char>,
    path_prefix: Seq<char>,
) -> Seq<char>
    decreases tokens.len(),
{
    if tokens.len() == 0 {
        span_text(text, from, bytes_of(text).len() as int)
    } else {
        span_text(text, from, tokens[0].start as int) + replacement(
            text,
            tokens[0],
            corpus,
            source,
            path_prefix,
        ) + all_replaced(
            text,
            tokens.drop_first(),
            tokens[0].end as int,
            corpus,
            source,
            path_prefix,
        )
    }
}

/// The text of an entry with its wikilinks resolved: every match of the
/// wikilink pattern replaced by the link that its reference resolves to.
/// The text itself where `regex` does not accept the pattern.
pub open spec fn with_links(
    text: Seq<char>,
    corpus: Seq<EntryView>,
    source: Seq<char>,
    path_prefix: Seq<char>,
) -> Seq<char> {
    match regex_captures(wikilink_pattern(), text) {
        Some(tokens) => all_replaced(text, tokens, 0, corpus, source, path_prefix),
        None => text,
    }
}

/// Tokens that lie in the text in order all fit, so none is passed over.
pub proof fn tokens_in_order_are_all_replaced(
    text: Seq<char>,
    tokens: Seq<Token>,
    from: int,
    corpus: Seq<EntryView>,
    source: Seq<char>,
    path_prefix: Seq<char>,
)
    requires
        in_order(text, tokens),
        is_span(text, from, from),
        tokens.len() > 0 ==> from <= tokens[0].start,
    ensures
        rewritten(text, tokens, from, corpus, source, path_prefix) == all_replaced(
            text,
            tokens,
            from,
            corpus,
            source,
            path_prefix,
        ),
    decreases tokens.len(),
{
    if tokens.len() > 0 {
        let rest = tokens.drop_first();
        assert(in_order(text, rest)) by {
            assert forall|k: int| 0 <= k < rest.len() implies rest[k] == tokens[k + 1] by {}
        }
        assert(token_lies_in(text, tokens[0]));
        tokens_in_order_are_all_replaced(
            text,
            rest,
            tokens[0].end as int,
            corpus,
            source,
            path_prefix,
        );
    }
}

/// The entry that a token leads to: the index of the entry that matches
/// its reference, if there is one.
pub open spec fn target_of(text: Seq<char>, token: Token, corpus: Seq<EntryView>) -> Option<int> {
    match token.group {
        Some((first, last)) => matching_index(corpus, span_text(text, first as int, last as int)),
        None => None,
    }
}

/// The entries that the tokens lead to, one index for each token that fits
/// and whose reference has a matching entry, in the order of the tokens.
pub open spec fn linked(text: Seq<char>, tokens: Seq<Token>, from: int, corpus: Seq<EntryView>) -> Seq<
    int,
>
    decreases tokens.len(),
{
    if tokens.len() == 0 {
        Seq::empty()
    } else if token_fits(text, from, tokens[0]) {
        let rest = linked(text, tokens.drop_first(), tokens[0].end as int, corpus);
        match target_of(text, tokens[0], corpus) {
            Some(i) => seq![i] + rest,
            None => rest,
        }
    } else {
        linked(text, tokens.drop_first(), from, corpus)
    }
}

/// The entries that the wikilinks of a text lead to; none where `regex` does
/// not accept the pattern.
pub open spec fn linked_from(text: Seq<char>, corpus: Seq<EntryView>) -> Seq<int> {
    match regex_captures(wikilink_pattern(), text) {
        Some(tokens) => linked(text, tokens, 0, corpus),
        None => Seq::empty(),
    }
}

/// The indices are those of `wanted`, one for one, and each is the index of
/// one of `count` entries.
pub open spec fn are_indices(found: Seq<usize>, wanted: Seq<int>, count: int) -> bool {
    &&& found.len() == wanted.len()
    &&& forall|k: int| 0 <= k < found.len() ==> found[k] == wanted[k] && found[k] < count
}

/// The wikilink pattern as it is handed to `regex`.
fn pattern() -> (pattern: &'static str)
    ensures
        pattern@ == wikilink_pattern(),
{
    proof {
        reveal_strlit("\\[\\[(\\]|(?:[^\\]]|\\][^\\]])+?)\\]\\]");
    }
    "\\[\\[(\\]|(?:[^\\]]|\\][^\\]])+?)\\]\\]"
}

/// Whether the token can be replaced in `text` once everything before
/// `from` is done.
fn fits(text: &str, from: usize, token: &Token) -> (ok: bool)
    ensures
        ok == token_fits(text@, from as int, *token),
{
    check_span(text, from, token.start) && check_span(text, token.start, token.end) && match token.group {
        Some((first, last)) => check_span(text, first, last),
        None => true,
    }
}

/// Replaces each of `tokens` in `text` by the link that its reference
/// resolves to, from left to right, and leaves the text between them as it
/// is.
pub fn rewrite_tokens(
    text: &str,
    tokens: &[Token],
    entries: &[Entry],
    entry: &str,
    path_prefix: &str,
) -> (out: String)
    ensures
        out@ == rewritten(text@, tokens@, 0, entries.deep_view(), entry@, path_prefix@),
{
    broadcast use vstd::utf8::group_utf8_lib;
    let ghost corpus = entries.deep_view();
    let ghost wanted = rewritten(text@, tokens@, 0, corpus, entry@, path_prefix@);
    let mut out = String::new();
    let mut from: usize = 0;
    let mut i: usize = 0;
    proof {
        assert(tokens@.skip(0) =~= tokens@);
    }
    while i < tokens.len()
        invariant
            i <= tokens.len(),
            corpus == entries.deep_view(),
            is_span(text@, from as int, from as int),
            wanted == out@ + rewritten(
                text@,
                tokens@.skip(i as int),
                from as int,
                corpus,
                entry@,
                path_prefix@,
            ),
        decreases tokens.len() - i,
    {
        let token = &tokens[i];
        let ghost before = out@;
        let ghost rest = tokens@.skip(i as int);
        proof {
            assert(rest.drop_first() =~= tokens@.skip(i + 1));
        }
        if fits(text, from, token) {
            out.append(cut(text, from, token.start));
            match token.group {
                Some((first, last)) => {
                    let link = find_reference(cut(text, first, last), entries, entry, path_prefix);
                    out.append(link.as_str());
                },
                None => {
                    out.append(cut(text, token.start, token.end));
                },
            }
            proof {
                let tail = rewritten(
                    text@,
                    rest.drop_first(),
                    token.end as int,
                    corpus,
                    entry@,
                    path_prefix@,
                );
                assert(out@ + tail =~= before + (span_text(text@, from as int, token.start as int)
                    + replacement(text@, *token, corpus, entry@, path_prefix@) + tail));
            }
            from = token.end;
        }
        i += 1;
    }
    out.append(cut_from(text, from));
    out
}

/// Lists the entries that the tokens lead to: for each token that fits and
/// whose reference has a matching entry, the index of that entry, in the
/// order of the tokens. The content of the entries is not read.
pub fn linked_by_tokens(text: &str, tokens: &[Token], entries: &[Entry]) -> (found: Vec<usize>)
    ensures
        are_indices(
            found@,
            linked(text@, tokens@, 0, entries.deep_view()),
            entries.len() as int,
        ),
{
    broadcast use vstd::utf8::group_utf8_lib;
    let ghost corpus = entries.deep_view();
    let ghost wanted = linked(text@, tokens@, 0, corpus);
    let ghost mut done: Seq<int> = Seq::empty();
    let mut found: Vec<usize> = Vec::new();
    let mut from: usize = 0;
    let mut i: usize = 0;
    proof {
        assert(tokens@.skip(0) =~= tokens@);
    }
    while i < tokens.len()
        invariant
            i <= tokens.len(),
            corpus == entries.deep_view(),
            is_span(text@, from as int, from as int),
            are_indices(found@, done, entries.len() as int),
            wanted == done + linked(text@, tokens@.skip(i as int), from as int, corpus),
        decreases tokens.len() - i,
    {
        let token = &tokens[i];
        let ghost rest = tokens@.skip(i as int);
        proof {
            assert(rest[0] == *token);
            assert(rest.drop_first() =~= tokens@.skip(i + 1));
        }
        if fits(text, from, token) {
            match token.group {
                Some((first, last)) => {
                    match find_entry(cut(text, first, last), entries) {
                        Some(index) => {
                            found.push(index);
                            proof {
                                let tail = linked(
                                    text@,
                                    rest.drop_first(),
                                    token.end as int,
                                    corpus,
                                );
                                assert(done.push(index as int) + tail =~= done + (seq![
                                    index as int,
                                ] + tail));
                                done = done.push(index as int);
                            }
                        },
                        None => {},
                    }
                },
                None => {},
            }
            from = token.end;
        }
        i += 1;
    }
    proof {
        assert(done + Seq::<int>::empty() =~= done);
    }
    found
}

/// Lists the entries that the wikilinks of `text` lead to, one index for
/// each wikilink whose reference has a matching entry, in the order of the
/// wikilinks. Only these entries are read when the wikilinks are replaced.
pub fn linked_entries(text: &str, entries: &[Entry]) -> (found: Vec<usize>)
    ensures
        are_indices(found@, linked_from(text@, entries.deep_view()), entries.len() as int),
{
    match captures(pattern(), text) {
        Some(tokens) => linked_by_tokens(text, tokens.as_slice(), entries),
        None => Vec::new(),
    }
}

/// Replaces every wikilink `[[reference]]` in `text` by the markdown link
/// that the reference resolves to: the link to the first entry whose path
/// stem is the reference, or `[reference](/blog/)` where there is none. The
/// text between wikilinks is not changed.
pub fn find_wikilinks(text: &str, entries: &[Entry], entry: &str, path_prefix: &str) -> (out:
    String)
    ensures
        out@ == with_links(text@, entries.deep_view(), entry@, path_prefix@),
        regex_captures(wikilink_pattern(), text@) matches Some(tokens) ==> in_order(text@, tokens),
{
    match captures(pattern(), text) {
        Some(tokens) => {
            proof {
                broadcast use vstd::utf8::group_utf8_lib;
                tokens_in_order_are_all_replaced(
                    text@,
                    tokens@,
                    0,
                    entries.deep_view(),
                    entry@,
                    path_prefix@,
                );
            }
            rewrite_tokens(text, tokens.as_slice(), entries, entry, path_prefix)
        },
        None => text.to_owned(),
    }
}

} // verus!
