//! What holds of resolution whatever the text and the corpus are.

use crate::links::{
    answers_to, directory, encode_spaces, encoded_char, fallback_link, final_component,
    formatted_link, link_target, link_text, matching_entry, matching_index, resolved, slug_of,
    EntryView,
};
use crate::paths::relative_stem;
use crate::rewrite::{
    all_replaced, done_to, in_order, linked, linked_from, regex_captures, replaced, replacement, rewritten,
    token_fits, token_lies_in, tokens_in_order_are_all_replaced, wikilink_pattern, with_links,
    Token,
};
use crate::text::{bytes_of, is_span, span_text};
use vstd::prelude::*;

verus! {

/// The whole of a text, cut out of it, is the text.
pub proof fn whole_span_is_the_text(text: Seq<char>)
    ensures
        span_text(text, 0, bytes_of(text).len() as int) == text,
{
    broadcast use vstd::utf8::group_utf8_lib;
    assert(bytes_of(text).subrange(0, bytes_of(text).len() as int) =~= bytes_of(text));
}

/// A text in which the wikilink pattern has no match is left as it is.
pub proof fn text_without_tokens_is_unchanged(
    text: Seq<char>,
    corpus: Seq<EntryView>,
    source: Seq<char>,
    path_prefix: Seq<char>,
)
    requires
        regex_captures(wikilink_pattern(), text) == Some(Seq::<Token>::empty()),
    ensures
        with_links(text, corpus, source, path_prefix) == text,
{
    whole_span_is_the_text(text);
}

/// Rewriting can be read in two parts at any token: what the tokens before
/// it have become, and the rest of the text rewritten from where they
/// ended.
pub proof fn rewriting_splits_at_any_token(
    text: Seq<char>,
    tokens: Seq<Token>,
    from: int,
    k: int,
    corpus: Seq<EntryView>,
    source: Seq<char>,
    path_prefix: Seq<char>,
)
    requires
        0 <= k <= tokens.len(),
    ensures
        rewritten(text, tokens, from, corpus, source, path_prefix) == replaced(
            text,
            tokens.take(k),
            from,
            corpus,
            source,
            path_prefix,
        ) + rewritten(
            text,
            tokens.skip(k),
            done_to(text, tokens.take(k), from),
            corpus,
            source,
            path_prefix,
        ),
    decreases k,
{
    if k == 0 {
        assert(tokens.skip(0) =~= tokens);
    } else {
        rewriting_splits_at_any_token(text, tokens, from, k - 1, corpus, source, path_prefix);
        assert(tokens.take(k).drop_last() =~= tokens.take(k - 1));
        assert(tokens.skip(k - 1).drop_first() =~= tokens.skip(k));
    }
}

/// A token whose reference has no matching entry is replaced by
/// `[reference](/blog/)`, the reference being the text of its group.
pub proof fn unanswered_token_is_replaced_by_fallback(
    text: Seq<char>,
    token: Token,
    first: usize,
    last: usize,
    corpus: Seq<EntryView>,
    source: Seq<char>,
    path_prefix: Seq<char>,
)
    requires
        token.group == Some((first, last)),
        matching_entry(corpus, span_text(text, first as int, last as int)) is None,
    ensures
        replacement(text, token, corpus, source, path_prefix) == fallback_link(
            span_text(text, first as int, last as int),
        ),
{
}

/// Where the tokens lie in the text in order, each fits where the one
/// before it ended, and the text is done up to its end once it is replaced.
pub proof fn tokens_in_order_fit(text: Seq<char>, tokens: Seq<Token>, k: int)
    requires
        in_order(text, tokens),
        0 <= k < tokens.len(),
    ensures
        token_fits(text, done_to(text, tokens.take(k), 0), tokens[k]),
        done_to(text, tokens.take(k + 1), 0) == tokens[k].end,
    decreases k,
{
    broadcast use vstd::utf8::group_utf8_lib;
    assert(tokens.take(k + 1).drop_last() =~= tokens.take(k));
    assert(tokens.take(k + 1).last() == tokens[k]);
    if k > 0 {
        tokens_in_order_fit(text, tokens, k - 1);
        assert(token_lies_in(text, tokens[k - 1]));
    }
}

/// What follows a token of tokens in order is in order too.
proof fn lemma_rest_in_order(text: Seq<char>, tokens: Seq<Token>, k: int)
    requires
        in_order(text, tokens),
        0 <= k <= tokens.len(),
    ensures
        in_order(text, tokens.skip(k)),
{
    let rest = tokens.skip(k);
    assert forall|i: int| 0 <= i < rest.len() implies token_lies_in(text, #[trigger] rest[i]) by {
        assert(rest[i] == tokens[i + k]);
    }
    assert forall|i: int| 0 < i < rest.len() implies rest[i - 1].end <= (#[trigger] rest[i]).start by {
        assert(rest[i - 1] == tokens[i + k - 1]);
    }
}

/// A token that fits where the tokens before it ended is replaced there:
/// the rewritten text is what those tokens have become, the text up to
/// the token as it is, what stands in place of the token, and the rest
/// rewritten from the end of the token.
pub proof fn fitting_token_is_replaced(
    text: Seq<char>,
    tokens: Seq<Token>,
    from: int,
    k: int,
    corpus: Seq<EntryView>,
    source: Seq<char>,
    path_prefix: Seq<char>,
)
    requires
        0 <= k < tokens.len(),
        token_fits(text, done_to(text, tokens.take(k), from), tokens[k]),
    ensures
        rewritten(text, tokens, from, corpus, source, path_prefix) == replaced(
            text,
            tokens.take(k),
            from,
            corpus,
            source,
            path_prefix,
        ) + span_text(text, done_to(text, tokens.take(k), from), tokens[k].start as int)
            + replacement(text, tokens[k], corpus, source, path_prefix) + rewritten(
            text,
            tokens.skip(k + 1),
            tokens[k].end as int,
            corpus,
            source,
            path_prefix,
        ),
{
    rewriting_splits_at_any_token(text, tokens, from, k, corpus, source, path_prefix);
    assert(tokens.skip(k)[0] == tokens[k]);
    assert(tokens.skip(k).drop_first() =~= tokens.skip(k + 1));
}

/// In the text of an entry, a wikilink whose reference has no matching
/// entry is replaced by `[reference](/blog/)`: the result is what the wikilinks
/// before it have become, the text up to it as it is, that link, and what
/// follows it with its wikilinks replaced.
pub proof fn unanswered_wikilink_is_replaced_by_fallback(
    text: Seq<char>,
    tokens: Seq<Token>,
    k: int,
    first: usize,
    last: usize,
    corpus: Seq<EntryView>,
    source: Seq<char>,
    path_prefix: Seq<char>,
)
    requires
        regex_captures(wikilink_pattern(), text) == Some(tokens),
        in_order(text, tokens),
        0 <= k < tokens.len(),
        tokens[k].group == Some((first, last)),
        matching_entry(corpus, span_text(text, first as int, last as int)) is None,
    ensures
        with_links(text, corpus, source, path_prefix) == replaced(
            text,
            tokens.take(k),
            0,
            corpus,
            source,
            path_prefix,
        ) + span_text(text, done_to(text, tokens.take(k), 0), tokens[k].start as int)
            + fallback_link(span_text(text, first as int, last as int)) + all_replaced(
            text,
            tokens.skip(k + 1),
            tokens[k].end as int,
            corpus,
            source,
            path_prefix,
        ),
{
    let after = tokens.skip(k + 1);
    let end = tokens[k].end as int;
    assert(is_span(text, 0, 0)) by {
        vstd::utf8::encode_utf8_valid_utf8(text);
    }
    tokens_in_order_are_all_replaced(text, tokens, 0, corpus, source, path_prefix);
    assert(in_order(text, after) && is_span(text, end, end) && (after.len() > 0 ==> end
        <= after[0].start)) by {
        lemma_rest_in_order(text, tokens, k + 1);
        assert(token_lies_in(text, tokens[k]));
        if after.len() > 0 {
            assert(after[0] == tokens[k + 1]);
        }
    }
    tokens_in_order_are_all_replaced(text, after, end, corpus, source, path_prefix);
    unanswered_token_is_replaced_by_fallback(
        text,
        tokens[k],
        first,
        last,
        corpus,
        source,
        path_prefix,
    );
    tokens_in_order_fit(text, tokens, k);
    fitting_token_is_replaced(text, tokens, 0, k, corpus, source, path_prefix);
}

/// The two corpora list the same paths in the same order.
pub open spec fn same_paths(first: Seq<EntryView>, second: Seq<EntryView>) -> bool {
    &&& first.len() == second.len()
    &&& forall|i: int| 0 <= i < first.len() ==> (#[trigger] first[i]).path == second[i].path
}

/// The two corpora hold the same content at each of the indices.
pub open spec fn same_content_at(
    indices: Seq<int>,
    first: Seq<EntryView>,
    second: Seq<EntryView>,
) -> bool {
    forall|k: int|
        0 <= k < indices.len() ==> first[#[trigger] indices[k]].content
            == second[indices[k]].content
}

/// Which entry matches a reference depends on the paths alone.
pub proof fn matching_reads_paths_only(
    first: Seq<EntryView>,
    second: Seq<EntryView>,
    reference: Seq<char>,
)
    requires
        same_paths(first, second),
    ensures
        matching_index(first, reference) == matching_index(second, reference),
    decreases first.len(),
{
    if first.len() > 0 {
        assert(first[0].path == second[0].path);
        let a = first.drop_first();
        let b = second.drop_first();
        assert forall|i: int| 0 <= i < a.len() implies (#[trigger] a[i]).path == b[i].path by {
            assert(first[i + 1].path == second[i + 1].path);
        }
        matching_reads_paths_only(a, b, reference);
    }
}

/// Rewriting reads the content of no entry but those that the tokens lead
/// to: two corpora with the same paths, and the same content wherever a
/// token leads, give the same text.
pub proof fn only_linked_entries_are_read(
    text: Seq<char>,
    tokens: Seq<Token>,
    from: int,
    first: Seq<EntryView>,
    second: Seq<EntryView>,
    source: Seq<char>,
    path_prefix: Seq<char>,
)
    requires
        same_paths(first, second),
        same_content_at(linked(text, tokens, from, first), first, second),
    ensures
        linked(text, tokens, from, first) == linked(text, tokens, from, second),
        rewritten(text, tokens, from, first, source, path_prefix) == rewritten(
            text,
            tokens,
            from,
            second,
            source,
            path_prefix,
        ),
    decreases tokens.len(),
{
    if tokens.len() > 0 {
        let token = tokens[0];
        let rest = tokens.drop_first();
        let next = if token_fits(text, from, token) {
            token.end as int
        } else {
            from
        };
        let all = linked(text, tokens, from, first);
        let tail = linked(text, rest, next, first);
        if token_fits(text, from, token) {
            match token.group {
                Some((a, b)) => {
                    let reference = span_text(text, a as int, b as int);
                    matching_reads_paths_only(first, second, reference);
                    matching_entry_answers(first, reference);
                    match matching_index(first, reference) {
                        Some(i) => {
                            assert(all == seq![i] + tail);
                            assert(all[0] == i);
                            assert(first[i].path == second[i].path);
                            assert(first[i] == second[i]);
                            assert forall|k: int| 0 <= k < tail.len() implies first[#[trigger] tail[k]].content
                                == second[tail[k]].content by {
                                assert(all[k + 1] == tail[k]);
                            }
                        },
                        None => {},
                    }
                },
                None => {},
            }
        }
        only_linked_entries_are_read(text, rest, next, first, second, source, path_prefix);
    }
}

/// Replacing the wikilinks of a text reads the content of no entry but
/// those that its wikilinks lead to.
pub proof fn only_linked_entries_matter(
    text: Seq<char>,
    first: Seq<EntryView>,
    second: Seq<EntryView>,
    source: Seq<char>,
    path_prefix: Seq<char>,
)
    requires
        same_paths(first, second),
        same_content_at(linked_from(text, first), first, second),
        regex_captures(wikilink_pattern(), text) matches Some(tokens) ==> in_order(text, tokens),
    ensures
        with_links(text, first, source, path_prefix) == with_links(
            text,
            second,
            source,
            path_prefix,
        ),
{
    match regex_captures(wikilink_pattern(), text) {
        Some(tokens) => {
            assert(is_span(text, 0, 0)) by {
                vstd::utf8::encode_utf8_valid_utf8(text);
            }
            tokens_in_order_are_all_replaced(text, tokens, 0, first, source, path_prefix);
            tokens_in_order_are_all_replaced(text, tokens, 0, second, source, path_prefix);
            only_linked_entries_are_read(text, tokens, 0, first, second, source, path_prefix);
        },
        None => {},
    }
}

/// The entry that answers to a reference is the first one listed that does.
pub proof fn first_listed_entry_wins(corpus: Seq<EntryView>, reference: Seq<char>, i: int)
    requires
        0 <= i < corpus.len(),
        answers_to(corpus[i], reference),
        forall|j: int| 0 <= j < i ==> !answers_to(#[trigger] corpus[j], reference),
    ensures
        matching_index(corpus, reference) == Some(i),
        matching_entry(corpus, reference) == Some(corpus[i]),
    decreases corpus.len(),
{
    if i > 0 {
        first_listed_entry_wins(corpus.drop_first(), reference, i - 1);
    }
}

/// A reference has a matching entry exactly where some entry answers to it,
/// and the matching entry is the first that does.
pub proof fn matching_entry_answers(corpus: Seq<EntryView>, reference: Seq<char>)
    ensures
        matching_index(corpus, reference) is None <==> forall|j: int|
            0 <= j < corpus.len() ==> !answers_to(#[trigger] corpus[j], reference),
        matching_index(corpus, reference) matches Some(i) ==> {
            &&& 0 <= i < corpus.len()
            &&& answers_to(corpus[i], reference)
            &&& forall|j: int| 0 <= j < i ==> !answers_to(#[trigger] corpus[j], reference)
        },
        matching_entry(corpus, reference) matches Some(entry) ==> answers_to(entry, reference)
            && corpus.contains(entry),
    decreases corpus.len(),
{
    if corpus.len() > 0 {
        let rest = corpus.drop_first();
        matching_entry_answers(rest, reference);
        if !answers_to(corpus[0], reference) {
            assert forall|j: int| 0 < j < corpus.len() implies rest[j - 1] == #[trigger] corpus[j] by {}
            match matching_index(rest, reference) {
                Some(i) => {
                    assert(corpus[i + 1] == rest[i]);
                    assert forall|j: int| 0 <= j < i + 1 implies !answers_to(
                        #[trigger] corpus[j],
                        reference,
                    ) by {
                        if j > 0 {
                            assert(rest[j - 1] == corpus[j]);
                        }
                    }
                },
                None => {
                    assert forall|j: int| 0 <= j < corpus.len() implies !answers_to(
                        #[trigger] corpus[j],
                        reference,
                    ) by {
                        if j > 0 {
                            assert(rest[j - 1] == corpus[j]);
                        }
                    }
                },
            }
        }
    }
}

/// A reference that no entry answers to resolves to `[reference](/blog/)`.
pub proof fn unanswered_reference_gets_fallback(
    reference: Seq<char>,
    corpus: Seq<EntryView>,
    source: Seq<char>,
    path_prefix: Seq<char>,
)
    requires
        forall|j: int| 0 <= j < corpus.len() ==> !answers_to(#[trigger] corpus[j], reference),
    ensures
        resolved(reference, corpus, source, path_prefix) == fallback_link(reference),
{
    matching_entry_answers(corpus, reference);
}

/// A link shows the reference as it was written: what a reference resolves
/// to is `[`, the reference, `](`, a target and `)`, or it is empty, and
/// that only where the matching entry has no relative path with a file
/// stem.
pub proof fn link_shows_reference(
    reference: Seq<char>,
    corpus: Seq<EntryView>,
    source: Seq<char>,
    path_prefix: Seq<char>,
)
    ensures
        ({
            let link = resolved(reference, corpus, source, path_prefix);
            ||| exists|target: Seq<char>| link == link_text(reference, target)
            ||| link.len() == 0 && matching_entry(corpus, reference) is Some && relative_stem(
                source,
                matching_entry(corpus, reference)->0.path,
            ) is None
        }),
{
}

/// The text of a link is `[`, the display text, `](`, the target and `)`,
/// in that order and with nothing else.
pub proof fn link_text_holds_display_and_target(display: Seq<char>, target: Seq<char>)
    ensures
        ({
            let link = link_text(display, target);
            let n = display.len() as int;
            let m = target.len() as int;
            &&& link.len() == n + m + 4
            &&& link[0] == '['
            &&& link.subrange(1, 1 + n) == display
            &&& link[1 + n] == ']'
            &&& link[2 + n] == '('
            &&& link.subrange(3 + n, 3 + n + m) == target
            &&& link[3 + n + m] == ')'
        }),
{
}

/// Resolving the same reference against the same corpus and paths twice
/// gives the same link.
pub proof fn resolution_is_repeatable(
    first: Seq<char>,
    second: Seq<char>,
    reference: Seq<char>,
    corpus: Seq<EntryView>,
    source: Seq<char>,
    path_prefix: Seq<char>,
)
    requires
        first == resolved(reference, corpus, source, path_prefix),
        second == resolved(reference, corpus, source, path_prefix),
    ensures
        first == second,
{
}

/// Encoding goes character by character: the encoding of two texts, one
/// after the other, is their encodings one after the other.
pub proof fn encoding_distributes(first: Seq<char>, second: Seq<char>)
    ensures
        encode_spaces(first + second) == encode_spaces(first) + encode_spaces(second),
    decreases second.len(),
{
    if second.len() > 0 {
        encoding_distributes(first, second.drop_last());
        assert((first + second).drop_last() =~= first + second.drop_last());
        assert(encode_spaces(first) + (encode_spaces(second.drop_last()) + encoded_char(
            second.last(),
        )) =~= (encode_spaces(first) + encode_spaces(second.drop_last())) + encoded_char(
            second.last(),
        ));
    }
}

/// The encoding of one character: `%20` for a space, the character itself
/// for any other.
pub proof fn encoding_of_one_character(c: char)
    ensures
        encode_spaces(seq![c]) == encoded_char(c),
        c == ' ' ==> encode_spaces(seq![c]) == seq!['%', '2', '0'],
        c != ' ' ==> encode_spaces(seq![c]) == seq![c],
{
    assert(encode_spaces(seq![c].drop_last()) =~= Seq::<char>::empty());
}

/// No space is left in an encoded text.
pub proof fn encoding_leaves_no_space(text: Seq<char>)
    ensures
        !encode_spaces(text).contains(' '),
    decreases text.len(),
{
    if text.len() > 0 {
        encoding_leaves_no_space(text.drop_last());
        let head = encode_spaces(text.drop_last());
        let tail = encoded_char(text.last());
        if (head + tail).contains(' ') {
            let i = choose|i: int| 0 <= i < (head + tail).len() && (head + tail)[i] == ' ';
            assert(i < head.len() ==> head.contains(head[i]));
        }
    }
}

/// A text without a space is its own encoding: no character but the space
/// is altered.
pub proof fn encoding_keeps_text_without_space(text: Seq<char>)
    requires
        !text.contains(' '),
    ensures
        encode_spaces(text) == text,
    decreases text.len(),
{
    if text.len() > 0 {
        let head = text.drop_last();
        assert forall|c: char| head.contains(c) implies text.contains(c) by {
            let i = choose|i: int| 0 <= i < head.len() && head[i] == c;
            assert(text[i] == c);
        }
        encoding_keeps_text_without_space(head);
    }
}

/// The last part of a link target is the slug where the target entry
/// declares one that is not empty, whatever its file is called, and the
/// encoded stem where it declares none.
pub proof fn slug_takes_precedence(
    target: EntryView,
    reference: Seq<char>,
    source: Seq<char>,
    path_prefix: Seq<char>,
)
    requires
        relative_stem(source, target.path) is Some,
    ensures
        slug_of(target.content).len() > 0 ==> formatted_link(
            target,
            reference,
            source,
            path_prefix,
        ) == link_text(reference, link_target(directory(path_prefix), slug_of(target.content))),
        slug_of(target.content).len() == 0 ==> formatted_link(
            target,
            reference,
            source,
            path_prefix,
        ) == link_text(
            reference,
            link_target(
                directory(path_prefix),
                encode_spaces(relative_stem(source, target.path)->0),
            ),
        ),
{
}

/// The target of the link to an entry begins with `./` where the path prefix
/// is empty, and with the path prefix, character for character, where it is
/// not.
pub proof fn linked_entry_is_under_directory(
    target: EntryView,
    reference: Seq<char>,
    source: Seq<char>,
    path_prefix: Seq<char>,
)
    requires
        relative_stem(source, target.path) is Some,
    ensures
        ({
            let leaf = final_component(
                slug_of(target.content),
                relative_stem(source, target.path)->0,
            );
            let href = link_target(directory(path_prefix), leaf);
            &&& formatted_link(target, reference, source, path_prefix) == link_text(reference, href)
            &&& path_prefix.len() == 0 ==> href.take(2) == seq!['.', '/']
            &&& path_prefix.len() > 0 ==> href.take(path_prefix.len() as int) == path_prefix
        }),
{
    let leaf = final_component(slug_of(target.content), relative_stem(source, target.path)->0);
    link_target_begins_with_directory(path_prefix, leaf);
}

/// A link target begins with `./` where the path prefix is empty, and with
/// the path prefix where it is not; the last part follows after a slash.
pub proof fn link_target_begins_with_directory(path_prefix: Seq<char>, leaf: Seq<char>)
    ensures
        path_prefix.len() == 0 ==> link_target(directory(path_prefix), leaf) == seq!['.', '/', '/']
            + leaf,
        path_prefix.len() > 0 ==> link_target(directory(path_prefix), leaf) == path_prefix
            + seq!['/'] + leaf,
        link_target(directory(path_prefix), leaf).take(directory(path_prefix).len() as int)
            == directory(path_prefix),
{
}

} // verus!
