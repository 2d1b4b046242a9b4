//! The front-matter block at the head of an entry and the slug it may
//! declare.

use crate::text::push_char;
use vstd::prelude::*;
use vstd::std_specs::iter::IteratorSpec;
use vstd::string::StringExecFns;

verus! {

/// Where the first line of `text` ends: the index of its first line feed, or
/// the length of `text` where it has none.
pub open spec fn first_line_end(text: Seq<char>) -> nat
    decreases text.len(),
{
    if text.len() == 0 || text[0] == '\n' {
        0
    } else {
        1 + first_line_end(text.drop_first())
    }
}

/// A line as it stood before its line feed, without the carriage return of a
/// `\r\n` ending.
pub open spec fn without_carriage_return(line: Seq<char>) -> Seq<char> {
    if line.len() > 0 && line.last() == '\r' {
        line.drop_last()
    } else {
        line
    }
}

/// The lines of `text`. A line ends at `\n` or `\r\n`, neither of which
/// belongs to it; the last line needs no ending.
pub open spec fn lines_of(text: Seq<char>) -> Seq<Seq<char>>
    decreases text.len(),
{
    let end = first_line_end(text) as int;
    if text.len() == 0 {
        Seq::empty()
    } else if end >= text.len() {
        seq![text]
    } else {
        seq![without_carriage_return(text.take(end))] + lines_of(text.skip(end + 1))
    }
}

/// The line that opens and closes a front-matter block.
pub open spec fn delimiter() -> Seq<char> {
    seq!['-', '-', '-']
}

/// The lines up to the first delimiter line, or all of them where there is
/// none.
pub open spec fn until_delimiter(lines: Seq<Seq<char>>) -> Seq<Seq<char>>
    decreases lines.len(),
{
    if lines.len() == 0 || lines[0] == delimiter() {
        Seq::empty()
    } else {
        seq![lines[0]] + until_delimiter(lines.drop_first())
    }
}

/// The lines of the front-matter block among `lines`: those that follow the
/// first delimiter line, up to the next one. Empty where no line opens a
/// block.
pub open spec fn block_lines(lines: Seq<Seq<char>>) -> Seq<Seq<char>>
    decreases lines.len(),
{
    if lines.len() == 0 {
        Seq::empty()
    } else if lines[0] == delimiter() {
        until_delimiter(lines.drop_first())
    } else {
        block_lines(lines.drop_first())
    }
}

/// The lines with a line feed between each two of them.
pub open spec fn joined(lines: Seq<Seq<char>>) -> Seq<char>
    decreases lines.len(),
{
    if lines.len() == 0 {
        Seq::empty()
    } else if lines.len() == 1 {
        lines[0]
    } else {
        joined(lines.drop_last()) + seq!['\n'] + lines.last()
    }
}

/// Whether a delimiter line is among the lines.
pub open spec fn has_delimiter(lines: Seq<Seq<char>>) -> bool
    decreases lines.len(),
{
    if lines.len() == 0 {
        false
    } else if lines[0] == delimiter() {
        true
    } else {
        has_delimiter(lines.drop_first())
    }
}

/// Whether the front-matter block among `lines` is closed: a delimiter line
/// opens it and a later one closes it.
pub open spec fn block_closes(lines: Seq<Seq<char>>) -> bool
    decreases lines.len(),
{
    if lines.len() == 0 {
        false
    } else if lines[0] == delimiter() {
        has_delimiter(lines.drop_first())
    } else {
        block_closes(lines.drop_first())
    }
}

/// Whether the front-matter block of an entry with the given content is
/// closed by a second delimiter line.
pub open spec fn front_matter_closes(content: Seq<char>) -> bool {
    block_closes(lines_of(content))
}

/// The text of the front-matter block of an entry with the given content.
pub open spec fn block_text(content: Seq<char>) -> Seq<char> {
    joined(block_lines(lines_of(content)))
}

/// A text without a line feed has none after its first character either.
proof fn lemma_no_feed_in_rest(line: Seq<char>)
    requires
        line.len() > 0,
        !line.contains('\n'),
    ensures
        line[0] != '\n',
        !line.drop_first().contains('\n'),
{
    let rest = line.drop_first();
    assert(line.contains(line[0]));
    if rest.contains('\n') {
        let i = choose|i: int| 0 <= i < rest.len() && rest[i] == '\n';
        assert(line[i + 1] == '\n');
    }
}

/// A text without a line feed is one line that ends where the text ends.
proof fn lemma_line_end_of_one_line(line: Seq<char>)
    requires
        !line.contains('\n'),
    ensures
        first_line_end(line) == line.len(),
    decreases line.len(),
{
    if line.len() > 0 {
        lemma_no_feed_in_rest(line);
        lemma_line_end_of_one_line(line.drop_first());
    }
}

/// A line followed by a line feed ends at that line feed.
proof fn lemma_line_end_at_feed(line: Seq<char>, rest: Seq<char>)
    requires
        !line.contains('\n'),
        rest.len() > 0,
        rest[0] == '\n',
    ensures
        first_line_end(line + rest) == line.len(),
    decreases line.len(),
{
    if line.len() > 0 {
        lemma_no_feed_in_rest(line);
        lemma_line_end_at_feed(line.drop_first(), rest);
        assert((line + rest).drop_first() =~= line.drop_first() + rest);
    }
}

/// The lines of a line, a line feed and more text: that line, then the lines
/// of the rest.
proof fn lemma_lines_after_feed(line: Seq<char>, rest: Seq<char>)
    requires
        !line.contains('\n'),
        rest.len() > 0,
        rest[0] == '\n',
    ensures
        lines_of(line + rest) == seq![without_carriage_return(line)] + lines_of(rest.skip(1)),
{
    lemma_line_end_at_feed(line, rest);
    let text = line + rest;
    assert(text.take(line.len() as int) =~= line);
    assert(text.skip(line.len() as int + 1) =~= rest.skip(1));
}

/// The lines of a text without a line feed: the text itself, or none where
/// it is empty.
proof fn lemma_lines_of_last_line(line: Seq<char>)
    requires
        !line.contains('\n'),
    ensures
        lines_of(line) == if line.len() == 0 {
            Seq::<Seq<char>>::empty()
        } else {
            seq![line]
        },
{
    lemma_line_end_of_one_line(line);
}

/// The line being read: what has been kept of it, and a carriage return held
/// back until the next character shows whether it ends the line.
spec fn pending_line(kept: Seq<char>, held_return: bool) -> Seq<char> {
    if held_return {
        kept.push('\r')
    } else {
        kept
    }
}

/// What the block holds once `lines` have been read too, given the lines
/// `taken` into it so far.
spec fn block_after(
    inside: bool,
    closed: bool,
    taken: Seq<Seq<char>>,
    lines: Seq<Seq<char>>,
) -> Seq<Seq<char>> {
    if closed {
        taken
    } else if inside {
        taken + until_delimiter(lines)
    } else {
        taken + block_lines(lines)
    }
}

/// Whether the block is closed once `lines` have been read too.
spec fn closes_after(inside: bool, closed: bool, lines: Seq<Seq<char>>) -> bool {
    if closed {
        true
    } else if inside {
        has_delimiter(lines)
    } else {
        block_closes(lines)
    }
}

/// The block as far as it has been read.
struct Scan {
    /// The lines taken so far, joined.
    block: String,
    /// Whether a line has been taken.
    any: bool,
    /// Whether a delimiter has opened the block.
    inside: bool,
}

impl Scan {
    /// The scan holds the lines `taken`, joined.
    spec fn holds(&self, taken: Seq<Seq<char>>) -> bool {
        &&& self.block@ == joined(taken)
        &&& self.any == (taken.len() > 0)
        &&& !self.inside ==> taken.len() == 0
    }
}

/// Reads one complete line: a delimiter opens the block or closes it, any
/// other line inside the block is added to it. Returns whether the block is
/// closed now, and the lines taken.
fn take_line(
    scan: &mut Scan,
    line: &String,
    marker: &String,
    Ghost(taken): Ghost<Seq<Seq<char>>>,
    Ghost(more): Ghost<Seq<Seq<char>>>,
) -> (r: (bool, Ghost<Seq<Seq<char>>>))
    requires
        marker@ == delimiter(),
        old(scan).holds(taken),
    ensures
        final(scan).holds(r.1@),
        block_after(final(scan).inside, r.0, r.1@, more) == block_after(
            old(scan).inside,
            false,
            taken,
            seq![line@] + more,
        ),
        closes_after(final(scan).inside, r.0, more) == closes_after(
            old(scan).inside,
            false,
            seq![line@] + more,
        ),
{
    let ghost lines = seq![line@] + more;
    proof {
        assert(lines.drop_first() =~= more);
    }
    if *line == *marker {
        if scan.inside {
            (true, Ghost(taken))
        } else {
            scan.inside = true;
            (false, Ghost(taken))
        }
    } else if scan.inside {
        if scan.any {
            scan.block.append("\n");
        }
        scan.block.append(line.as_str());
        scan.any = true;
        proof {
            reveal_strlit("\n");
            assert("\n"@ =~= seq!['\n']);
            assert(taken.push(line@).drop_last() =~= taken);
        }
        (false, Ghost(taken.push(line@)))
    } else {
        (false, Ghost(taken))
    }
}

/// Scans the lines of `content` for the front-matter block: the lines that
/// follow the first `---` line, up to the next `---` line or the end, joined
/// by line feeds. Empty where no line opens a block. Nothing after the
/// closing line is read.
pub fn front_matter_block(content: &str) -> (block: String)
    ensures
        block@ == block_text(content@),
{
    scan_block(content).0
}

/// Tells whether the front-matter block of `content` is closed: whether a
/// `---` line opens it and a later `---` line closes it. What follows a
/// closed block has no part in the front matter.
pub fn front_matter_is_closed(content: &str) -> (closed: bool)
    ensures
        closed == front_matter_closes(content@),
{
    scan_block(content).1
}

/// Scans the lines of `content` up to the line that closes the block, and
/// gives the block and whether it is closed.
fn scan_block(content: &str) -> (found: (String, bool))
    ensures
        found.0@ == block_text(content@),
        found.1 == front_matter_closes(content@),
{
    broadcast use vstd::string::group_string_axioms;
    let marker = "---".to_owned();
    proof {
        reveal_strlit("---");
        assert(marker@ =~= delimiter());
    }
    let mut scan = Scan { block: String::new(), any: false, inside: false };
    let mut line = String::new();
    let mut held_return = false;
    let mut closed = false;
    let ghost mut taken: Seq<Seq<char>> = Seq::empty();
    let ghost wanted = block_lines(lines_of(content@));
    let ghost closes = front_matter_closes(content@);
    let mut chars = content.chars();
    let ghost mut read: int = 0;
    proof {
        assert(content@.skip(0) =~= content@);
    }
    loop
        invariant_except_break
            !closed,
        invariant
            marker@ == delimiter(),
            scan.holds(taken),
            0 <= read <= content@.len(),
            chars.remaining() == content@.skip(read),
            !pending_line(line@, held_return).contains('\n'),
            !held_return ==> line@.len() == 0 || line@.last() != '\r',
            wanted == block_after(
                scan.inside,
                closed,
                taken,
                lines_of(pending_line(line@, held_return) + content@.skip(read)),
            ),
            closes == closes_after(
                scan.inside,
                closed,
                lines_of(pending_line(line@, held_return) + content@.skip(read)),
            ),
        ensures
            closed || chars.remaining().len() == 0,
        decreases content@.len() - read,
    {
        let ghost rest = content@.skip(read);
        let ghost whole = pending_line(line@, held_return);
        match chars.next() {
            None => {
                break;
            },
            Some(c) => {
                proof {
                    read = read + 1;
                    assert(rest.skip(1) =~= content@.skip(read));
                }
                if c == '\n' {
                    proof {
                        lemma_lines_after_feed(whole, rest);
                        assert(without_carriage_return(whole) =~= line@);
                    }
                    let r = take_line(
                        &mut scan,
                        &line,
                        &marker,
                        Ghost(taken),
                        Ghost(lines_of(rest.skip(1))),
                    );
                    closed = r.0;
                    proof {
                        taken = r.1@;
                    }
                    if closed {
                        break;
                    }
                    line = String::new();
                    held_return = false;
                    proof {
                        assert(pending_line(line@, held_return) + content@.skip(read)
                            =~= content@.skip(read));
                    }
                } else {
                    if held_return {
                        push_char(&mut line, '\r');
                    }
                    if c == '\r' {
                        held_return = true;
                    } else {
                        push_char(&mut line, c);
                        held_return = false;
                    }
                    proof {
                        let now = pending_line(line@, held_return);
                        assert(now =~= whole.push(c));
                        assert(now + content@.skip(read) =~= whole + rest);
                        if now.contains('\n') {
                            let k = choose|k: int| 0 <= k < now.len() && now[k] == '\n';
                            assert(whole.contains(whole[k]));
                        }
                    }
                }
            },
        }
    }
    if !closed {
        if held_return {
            push_char(&mut line, '\r');
        }
        proof {
            lemma_lines_of_last_line(line@);
        }
        if !line.as_str().is_empty() {
            let r = take_line(
                &mut scan,
                &line,
                &marker,
                Ghost(taken),
                Ghost(Seq::<Seq<char>>::empty()),
            );
            closed = r.0;
            proof {
                taken = r.1@;
            }
        }
    }
    (scan.block, closed)
}

/// What `serde_yaml` reads under a key of a YAML document: `None` where the
/// document does not parse, `Some(None)` where it parses and holds no string
/// under the key, and `Some(Some(text))` where the key leads to the string
/// `text`.
pub uninterp spec fn yaml_text_under(document: Seq<char>, key: Seq<char>) -> Option<
    Option<Seq<char>>,
>;

/// Parses `document` with `serde_yaml::from_str`, looks `key` up in the value
/// with `Value::get` and reads the string there with `Value::as_str`. The
/// contract only names the outcome.
#[verifier::external_body]
fn yaml_lookup(document: &str, key: &str) -> (found: Option<Option<String>>)
    ensures
        found.deep_view() == yaml_text_under(document@, key@),
{
    match serde_yaml::from_str::<serde_yaml::Value>(document) {
        Ok(value) => Some(value.get(key).and_then(|v| v.as_str()).map(|s| s.to_string())),
        Err(_) => None,
    }
}

/// What the library reads of an entry's front matter: the slug, where the
/// document gives a string under that key.
#[derive(Clone, Debug, PartialEq, Eq)]
pub struct FrontMatter {
    pub slug: Option<String>,
}

impl View for FrontMatter {
    type V = Option<Seq<char>>;

    open spec fn view(&self) -> Option<Seq<char>> {
        self.slug.deep_view()
    }
}

/// The key under which front matter declares a slug.
pub open spec fn slug_key() -> Seq<char> {
    seq!['s', 'l', 'u', 'g']
}

/// The slug that the front matter of `content` declares. A block that does
/// not parse counts as an empty document, so it declares none.
pub open spec fn declared_slug(content: Seq<char>) -> Option<Seq<char>> {
    match yaml_text_under(block_text(content), slug_key()) {
        Some(Some(slug)) => Some(slug),
        _ => None,
    }
}

/// The slug as text: empty where none is declared.
pub open spec fn slug_text(slug: Option<Seq<char>>) -> Seq<char> {
    match slug {
        Some(text) => text,
        None => Seq::empty(),
    }
}

/// Reads the front matter at the head of `content`. Malformed or absent
/// front matter gives a document without a slug.
pub fn parse_yaml_frontmatter(content: &str) -> (front_matter: FrontMatter)
    ensures
        front_matter@ == declared_slug(content@),
{
    let block = front_matter_block(content);
    proof {
        reveal_strlit("slug");
        assert("slug"@ =~= slug_key());
    }
    match yaml_lookup(block.as_str(), "slug") {
        Some(Some(slug)) => FrontMatter { slug: Some(slug) },
        _ => FrontMatter { slug: None },
    }
}

/// The slug of a front-matter document, or the empty string where it has
/// none.
pub fn get_slug_from_yaml_frontmatter(value: FrontMatter) -> (slug: String)
    ensures
        slug@ == slug_text(value@),
{
    match value.slug {
        Some(slug) => slug,
        None => String::new(),
    }
}

} // verus!
