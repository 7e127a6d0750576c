//! Guarded sections of a canonical text.
//!
//! A canonical text holds blocks of lines. A block of a guard is opened by the
//! line `#ifndef GUARD` with the line `#define GUARD` as the very next line, and
//! it is closed by the line `#endif // GUARD`. Each of the three has to be a line
//! of its own: text that merely holds a marker, such as a comment that quotes
//! one, opens and closes nothing. The functions here find the blocks of one
//! guard and write them out as a single fragment that carries its own guard.

use vstd::prelude::*;
use crate::out::{
    as_lines, count, lemma_count_absent, lemma_count_concat, lemma_text_of_concat, text_of, Item,
    OutFile,
};
use crate::text::{
    chars_of, lemma_line_len_is, line_break, lines, matches_at, occurs_at, skip_whitespace,
    skip_whitespace_back, string_from, string_of, strip_cr, trim, trim_start,
};

verus! {

/// The line that opens a block of `guard`.
pub open spec fn ifndef_line(guard: Seq<char>) -> Seq<char> {
    "#ifndef "@ + guard
}

/// The line that follows the opening line of a block of `guard`.
pub open spec fn define_line(guard: Seq<char>) -> Seq<char> {
    "#define "@ + guard
}

/// The line that closes a block of `guard`.
pub open spec fn endif_line(guard: Seq<char>) -> Seq<char> {
    "#endif // "@ + guard
}

/// Whether a line of `text` starts at position `at`: at the very start of the
/// text, or directly behind a line break.
pub open spec fn line_start(text: Seq<char>, at: int) -> bool {
    at == 0 || (0 < at <= text.len() && line_break(text[at - 1]))
}

/// Whether `line` is a line of its own in `text`, at position `at`: a line
/// starts there, `line` stands there, and a line break stands directly behind
/// it. A line that merely begins with `line`, or ends with it, does not count.
pub open spec fn line_at(text: Seq<char>, at: int, line: Seq<char>) -> bool {
    &&& line_start(text, at)
    &&& occurs_at(text, at, line)
    &&& at + line.len() < text.len()
    &&& line_break(text[at + line.len()])
}

/// The position behind the line break that stands at `at`. A carriage return
/// with a line feed behind it is one line break.
pub open spec fn behind_break(text: Seq<char>, at: int) -> int {
    if text[at] == '\r' && at + 1 < text.len() && text[at + 1] == '\n' {
        at + 2
    } else {
        at + 1
    }
}

/// Whether a block opens at position `at`, where `ifndef` and `define` are the
/// opening line and the `define` line of its guard: the opening line is a line
/// of its own there, and the very next line is the `define` line.
pub open spec fn opening_at(text: Seq<char>, at: int, ifndef: Seq<char>, define: Seq<char>) -> bool {
    &&& line_at(text, at, ifndef)
    &&& line_at(text, behind_break(text, at + ifndef.len()), define)
}

/// The first position at or after `from` where a block opens.
pub open spec fn find_opening_from(
    text: Seq<char>,
    from: int,
    ifndef: Seq<char>,
    define: Seq<char>,
) -> Option<int>
    decreases text.len() - from,
{
    if from < 0 || from + ifndef.len() >= text.len() {
        None
    } else if opening_at(text, from, ifndef, define) {
        Some(from)
    } else {
        find_opening_from(text, from + 1, ifndef, define)
    }
}

/// What `find_opening_from` returns is the least position at or after `from`
/// where a block opens; it returns `None` exactly when there is no such
/// position.
pub proof fn lemma_find_opening_least(
    text: Seq<char>,
    from: int,
    ifndef: Seq<char>,
    define: Seq<char>,
)
    requires
        0 <= from,
    ensures
        match find_opening_from(text, from, ifndef, define) {
            Some(at) => {
                &&& from <= at
                &&& opening_at(text, at, ifndef, define)
                &&& forall|p: int| from <= p < at ==> !opening_at(text, p, ifndef, define)
            },
            None => forall|p: int| from <= p ==> !opening_at(text, p, ifndef, define),
        },
    decreases text.len() - from,
{
    if from + ifndef.len() >= text.len() {
    } else if opening_at(text, from, ifndef, define) {
    } else {
        lemma_find_opening_least(text, from + 1, ifndef, define);
    }
}

/// The first position at or after `from` where `line` is a line of its own in
/// `text`.
pub open spec fn find_line_from(text: Seq<char>, from: int, line: Seq<char>) -> Option<int>
    decreases text.len() - from,
{
    if from < 0 || from + line.len() >= text.len() {
        None
    } else if line_at(text, from, line) {
        Some(from)
    } else {
        find_line_from(text, from + 1, line)
    }
}

/// What `find_line_from` returns is the least position at or after `from` where
/// the line is a line of its own; it returns `None` exactly when there is no
/// such position.
pub proof fn lemma_find_line_least(text: Seq<char>, from: int, line: Seq<char>)
    requires
        0 <= from,
    ensures
        match find_line_from(text, from, line) {
            Some(at) => {
                &&& from <= at
                &&& line_at(text, at, line)
                &&& forall|p: int| from <= p < at ==> !line_at(text, p, line)
            },
            None => forall|p: int| from <= p ==> !line_at(text, p, line),
        },
    decreases text.len() - from,
{
    if from + line.len() >= text.len() {
    } else if line_at(text, from, line) {
    } else {
        lemma_find_line_least(text, from + 1, line);
    }
}

/// A canonical text, held ready for searching.
pub struct CanonicalText {
    chars: Vec<char>,
}

impl View for CanonicalText {
    type V = Seq<char>;

    closed spec fn view(&self) -> Seq<char> {
        self.chars@
    }
}

impl CanonicalText {
    /// The canonical text with the characters of `text`.
    pub fn new(text: &str) -> (header: CanonicalText)
        ensures
            header@ == text@,
    {
        CanonicalText { chars: chars_of(text) }
    }
}

/// Whether `c` is a line break.
fn is_line_break(c: char) -> (r: bool)
    ensures
        r == line_break(c),
{
    c == '\n' || c == '\r'
}

/// Whether `line` is a line of its own in `text`, at position `at`.
fn is_line_at(text: &[char], at: usize, line: &[char]) -> (r: bool)
    ensures
        r == line_at(text@, at as int, line@),
{
    let n = text.len();
    let m = line.len();
    if m >= n || at >= n - m {
        return false;
    }
    (at == 0 || is_line_break(text[at - 1])) && matches_at(text, at, line) && is_line_break(
        text[at + m],
    )
}

/// Whether a block opens in `text` at position `at`, where `ifndef` and `define`
/// are the opening line and the `define` line of the guard.
fn is_opening_at(text: &[char], at: usize, ifndef: &[char], define: &[char]) -> (r: bool)
    ensures
        r == opening_at(text@, at as int, ifndef@, define@),
{
    let n = text.len();
    if !is_line_at(text, at, ifndef) {
        return false;
    }
    let end = at + ifndef.len();
    let next = if text[end] == '\r' && end + 1 < n && text[end + 1] == '\n' {
        end + 2
    } else {
        end + 1
    };
    is_line_at(text, next, define)
}

/// `find_opening_from` on slices.
fn find_opening(text: &[char], offset: usize, ifndef: &[char], define: &[char]) -> (r: Option<
    usize,
>)
    ensures
        r matches Some(at) ==> find_opening_from(text@, offset as int, ifndef@, define@) == Some(
            at as int,
        ),
        r is None ==> find_opening_from(text@, offset as int, ifndef@, define@) is None,
{
    let n = text.len();
    let m = ifndef.len();
    if m >= n {
        return None;
    }
    let last = n - m;
    let mut at: usize = offset;
    while at < last
        invariant
            n == text@.len(),
            m == ifndef@.len(),
            m < n,
            last == n - m,
            offset <= at,
            find_opening_from(text@, offset as int, ifndef@, define@) == find_opening_from(
                text@,
                at as int,
                ifndef@,
                define@,
            ),
        decreases last - at,
    {
        if is_opening_at(text, at, ifndef, define) {
            return Some(at);
        }
        at += 1;
    }
    None
}

/// `find_line_from` on slices.
fn find_in(text: &[char], offset: usize, line: &[char]) -> (r: Option<usize>)
    ensures
        r matches Some(at) ==> find_line_from(text@, offset as int, line@) == Some(at as int),
        r is None ==> find_line_from(text@, offset as int, line@) is None,
{
    let n = text.len();
    let m = line.len();
    if m >= n {
        return None;
    }
    let last = n - m;
    let mut at: usize = offset;
    while at < last
        invariant
            n == text@.len(),
            m == line@.len(),
            m < n,
            last == n - m,
            offset <= at,
            find_line_from(text@, offset as int, line@) == find_line_from(text@, at as int, line@),
        decreases last - at,
    {
        if is_line_at(text, at, line) {
            return Some(at);
        }
        at += 1;
    }
    None
}

/// The first position at or after `offset` where `line` is a line of its own in
/// `header`: a line starts there, and a line break stands directly behind it.
pub fn find_line(header: &CanonicalText, offset: usize, line: &str) -> (r: Option<usize>)
    ensures
        r matches Some(at) ==> find_line_from(header@, offset as int, line@) == Some(at as int),
        r is None ==> find_line_from(header@, offset as int, line@) is None,
{
    let line = chars_of(line);
    find_in(header.chars.as_slice(), offset, line.as_slice())
}

/// Whether a line is a comment and nothing else: `//` behind optional whitespace.
pub open spec fn comment_line(line: Seq<char>) -> bool {
    let rest = trim_start(line);
    rest.len() >= 2 && rest[0] == '/' && rest[1] == '/'
}

/// The lines of a block that are written out: all but the `define` line and the
/// comment lines.
pub open spec fn kept(define: Seq<char>) -> spec_fn(Seq<char>) -> bool {
    |line: Seq<char>| line != define && !comment_line(line)
}

/// The lines that a block body contributes to the fragment of `guard`: the
/// lines of the trimmed body that are kept.
pub open spec fn body_lines(body: Seq<char>, guard: Seq<char>) -> Seq<Seq<char>> {
    lines(trim(body)).filter(kept(define_line(guard)))
}

/// The next block of `guard` at or after `offset`: the position where it opens,
/// that is, of an opening line with the `define` line as the very next line,
/// and the position of its closing line. Each is searched for on its own from
/// `offset`.
pub open spec fn next_block(text: Seq<char>, guard: Seq<char>, offset: int) -> Option<(int, int)> {
    match (
        find_opening_from(text, offset, ifndef_line(guard), define_line(guard)),
        find_line_from(text, offset, endif_line(guard)),
    ) {
        (Some(begin), Some(end)) => Some((begin, end)),
        _ => None,
    }
}

/// A text in which the opening line of a guard stands only inside other lines,
/// never at the start of a line, holds no block of that guard.
pub proof fn lemma_marker_inside_a_line_opens_nothing(text: Seq<char>, guard: Seq<char>)
    requires
        forall|p: int| occurs_at(text, p, ifndef_line(guard)) ==> !line_start(text, p),
    ensures
        next_block(text, guard, 0) is None,
{
    lemma_find_opening_least(text, 0, ifndef_line(guard), define_line(guard));
}

/// A text in which no opening line of a guard has the `define` line of the guard
/// as its very next line holds no block of that guard.
pub proof fn lemma_opening_line_alone_opens_nothing(text: Seq<char>, guard: Seq<char>)
    requires
        forall|p: int|
            line_at(text, p, ifndef_line(guard)) ==> !line_at(
                text,
                behind_break(text, p + ifndef_line(guard).len()),
                define_line(guard),
            ),
    ensures
        next_block(text, guard, 0) is None,
{
    lemma_find_opening_least(text, 0, ifndef_line(guard), define_line(guard));
}

/// The text between the opening line of a block and its closing line.
pub open spec fn block_body(text: Seq<char>, guard: Seq<char>, begin: int, end: int) -> Seq<char> {
    text.subrange(begin + ifndef_line(guard).len(), end)
}

/// The position behind the closing line of a block.
pub open spec fn block_end(guard: Seq<char>, end: int) -> int {
    end + endif_line(guard).len()
}

/// A closing line that was searched for from `offset` ends behind `offset`.
pub proof fn lemma_block_advances(text: Seq<char>, guard: Seq<char>, offset: int)
    requires
        next_block(text, guard, offset) is Some,
    ensures
        0 <= offset < block_end(guard, next_block(text, guard, offset).unwrap().1) <= text.len(),
{
    reveal_strlit("#endif // ");
    lemma_find_line_least(text, offset, endif_line(guard));
}

/// Whether, in every block of `guard` from `offset` on, the closing line stands
/// behind the opening line.
pub open spec fn blocks_ordered(text: Seq<char>, guard: Seq<char>, offset: int) -> bool
    decreases text.len() - offset,
{
    match next_block(text, guard, offset) {
        Some((begin, end)) => {
            proof {
                lemma_block_advances(text, guard, offset);
            }
            &&& begin + ifndef_line(guard).len() <= end
            &&& blocks_ordered(text, guard, block_end(guard, end))
        },
        None => true,
    }
}

/// What the blocks of `guard` from `offset` on contribute to its fragment, and
/// the closing line at the end: each block gives a section mark and its kept
/// lines.
pub open spec fn later_blocks(text: Seq<char>, guard: Seq<char>, offset: int) -> Seq<Item>
    decreases text.len() - offset,
{
    match next_block(text, guard, offset) {
        Some((begin, end)) => {
            proof {
                lemma_block_advances(text, guard, offset);
            }
            seq![Item::Section] + as_lines(body_lines(block_body(text, guard, begin, end), guard))
                + later_blocks(text, guard, block_end(guard, end))
        },
        None => seq![Item::Line(endif_line(guard))],
    }
}

/// The fragment of `guard`: a section mark, the opening line and the `define`
/// line, the kept lines of the first block, then the later blocks and the
/// closing line. Empty where `text` holds no block of `guard`.
pub open spec fn fragment(text: Seq<char>, guard: Seq<char>) -> Seq<Item> {
    match next_block(text, guard, 0) {
        Some((begin, end)) => seq![
            Item::Section,
            Item::Line(ifndef_line(guard)),
            Item::Line(define_line(guard)),
        ] + as_lines(body_lines(block_body(text, guard, begin, end), guard)) + later_blocks(
            text,
            guard,
            block_end(guard, end),
        ),
        None => Seq::empty(),
    }
}

/// The guard name was asked for and the canonical text holds no block of it.
#[derive(Debug, PartialEq, Eq)]
pub struct MissingGuard {
    /// The guard name that was asked for.
    pub guard: String,
}

/// The characters of `prefix` followed by those of `guard`.
fn marker(prefix: &str, guard: &[char]) -> (line: Vec<char>)
    ensures
        line@ == prefix@ + guard@,
{
    let mut line = chars_of(prefix);
    let mut i: usize = 0;
    while i < guard.len()
        invariant
            i <= guard@.len(),
            line@ == prefix@ + guard@.take(i as int),
        decreases guard@.len() - i,
    {
        line.push(guard[i]);
        i += 1;
    }
    line
}

/// Whether `text[from..to]` is a comment line.
fn is_comment(text: &[char], from: usize, to: usize) -> (r: bool)
    requires
        from <= to <= text@.len(),
    ensures
        r == comment_line(text@.subrange(from as int, to as int)),
{
    let at = skip_whitespace(text, from, to);
    to - at >= 2 && text[at] == '/' && text[at + 1] == '/'
}

/// Writes the kept lines of the body `text[from..to]` to `out`.
fn write_body(text: &[char], from: usize, to: usize, define: &[char], out: &mut OutFile)
    requires
        from <= to <= text@.len(),
    ensures
        final(out)@ == old(out)@ + as_lines(
            lines(trim(text@.subrange(from as int, to as int))).filter(kept(define@)),
        ),
{
    let first = skip_whitespace(text, from, to);
    let last = skip_whitespace_back(text, first, to);
    let ghost body = text@.subrange(first as int, last as int);
    let ghost mut done: Seq<Seq<char>> = Seq::empty();
    let mut pos: usize = first;
    proof {
        reveal(Seq::filter);
    }
    while pos < last
        invariant
            first <= pos <= last <= text@.len(),
            body == text@.subrange(first as int, last as int),
            lines(body) == done + lines(text@.subrange(pos as int, last as int)),
            out@ == old(out)@ + as_lines(done.filter(kept(define@))),
        decreases last - pos,
    {
        let ghost rest = text@.subrange(pos as int, last as int);
        let mut feed: usize = pos;
        while feed < last && text[feed] != '\n'
            invariant
                pos <= feed <= last <= text@.len(),
                forall|i: int| pos <= i < feed ==> text@[i] != '\n',
            decreases last - feed,
        {
            feed += 1;
        }
        proof {
            lemma_line_len_is(rest, feed - pos);
        }
        let end = if feed < last && feed > pos && text[feed - 1] == '\r' {
            feed - 1
        } else {
            feed
        };
        let next = if feed < last {
            feed + 1
        } else {
            last
        };
        let ghost line = text@.subrange(pos as int, end as int);
        proof {
            if feed < last {
                assert(rest.take(feed - pos) =~= text@.subrange(pos as int, feed as int));
                assert(rest.skip(feed - pos + 1) =~= text@.subrange(next as int, last as int));
                assert(strip_cr(text@.subrange(pos as int, feed as int)) =~= line);
            }
            done.lemma_filter_push(line, kept(define@));
        }
        let is_define = end - pos == define.len() && matches_at(text, pos, define);
        if !is_define && !is_comment(text, pos, end) {
            out.write_line(string_of(text, pos, end));
        }
        proof {
            done = done.push(line);
        }
        pos = next;
    }
}

/// Whether, in every block of `guard` in `header`, the closing line stands
/// behind the opening line: what `write` asks of a text that it is to cut from.
pub fn blocks_in_order(header: &CanonicalText, guard: &str) -> (r: bool)
    ensures
        r == blocks_ordered(header@, guard@, 0),
{
    let text = header.chars.as_slice();
    let name = chars_of(guard);
    let ifndef = marker("#ifndef ", name.as_slice());
    let define = marker("#define ", name.as_slice());
    let endif = marker("#endif // ", name.as_slice());
    let length = text.len();
    let mut offset: usize = 0;
    loop
        invariant
            text@ == header@,
            ifndef@ == ifndef_line(guard@),
            define@ == define_line(guard@),
            endif@ == endif_line(guard@),
            offset <= length == text@.len(),
            blocks_ordered(text@, guard@, 0) == blocks_ordered(text@, guard@, offset as int),
        decreases text@.len() - offset,
    {
        let begin = find_opening(text, offset, ifndef.as_slice(), define.as_slice());
        let end = find_in(text, offset, endif.as_slice());
        match (begin, end) {
            (Some(begin), Some(end)) => {
                proof {
                    lemma_block_advances(text@, guard@, offset as int);
                }
                if ifndef.len() > end || begin > end - ifndef.len() {
                    return false;
                }
                offset = end + endif.len();
            },
            _ => {
                return true;
            },
        }
    }
}

/// Writes the fragment of `guard` to `out`, if it is `needed` at all.
///
/// A guard of which `header` holds no block is an error, needed or not, and
/// nothing is written. A guard that is not needed leaves `out` as it was.
/// Otherwise `out` gains the fragment of `guard`: one section per block, the
/// first opened by the guard's `#ifndef` and `#define` lines, the last closed by
/// its `#endif` line.
pub fn write(header: &CanonicalText, out: &mut OutFile, needed: bool, guard: &str) -> (r: Result<
    (),
    MissingGuard,
>)
    requires
        needed ==> blocks_ordered(header@, guard@, 0),
    ensures
        r is Err <==> next_block(header@, guard@, 0) is None,
        r matches Err(missing) ==> missing.guard@ == guard@,
        r is Err || !needed ==> final(out)@ == old(out)@,
        r is Ok && needed ==> final(out)@ == old(out)@ + fragment(header@, guard@),
        r is Ok && needed ==> text_of(final(out)@) == text_of(old(out)@) + text_of(
            fragment(header@, guard@),
        ),
{
    let text = header.chars.as_slice();
    let name = chars_of(guard);
    let ifndef = marker("#ifndef ", name.as_slice());
    let define = marker("#define ", name.as_slice());
    let endif = marker("#endif // ", name.as_slice());
    let length = text.len();
    let mut offset: usize = 0;
    loop
        invariant
            text@ == header@,
            ifndef@ == ifndef_line(guard@),
            define@ == define_line(guard@),
            endif@ == endif_line(guard@),
            offset <= length == text@.len(),
            needed ==> blocks_ordered(text@, guard@, offset as int),
            offset == 0 ==> out@ == old(out)@,
            offset > 0 ==> {
                &&& needed
                &&& next_block(text@, guard@, 0) is Some
                &&& old(out)@ + fragment(text@, guard@) == out@ + later_blocks(
                    text@,
                    guard@,
                    offset as int,
                )
            },
        decreases text@.len() - offset,
    {
        let begin = find_opening(text, offset, ifndef.as_slice(), define.as_slice());
        let end = find_in(text, offset, endif.as_slice());
        match (begin, end) {
            (Some(begin), Some(end)) => {
                if !needed {
                    return Ok(());
                }
                proof {
                    lemma_block_advances(text@, guard@, offset as int);
                }
                out.next_section();
                if offset == 0 {
                    out.write_line(string_from(ifndef.as_slice()));
                    out.write_line(string_from(define.as_slice()));
                }
                write_body(text, begin + ifndef.len(), end, define.as_slice(), out);
                offset = end + endif.len();
            },
            _ => {
                if offset == 0 {
                    return Err(MissingGuard { guard: guard.to_owned() });
                } else {
                    out.write_line(string_from(endif.as_slice()));
                    proof {
                        lemma_text_of_concat(old(out)@, fragment(text@, guard@));
                    }
                    return Ok(());
                }
            },
        }
    }
}

/// The items that stand between the opening lines of a fragment and its closing
/// line: section marks, and lines that are kept.
pub open spec fn body_item(item: Item, guard: Seq<char>) -> bool {
    match item {
        Item::Section => true,
        Item::Line(line) => kept(define_line(guard))(line),
    }
}

/// The lines that a block body contributes are all kept lines.
pub proof fn lemma_body_lines_kept(body: Seq<char>, guard: Seq<char>)
    ensures
        forall|i: int|
            0 <= i < as_lines(body_lines(body, guard)).len() ==> body_item(
                #[trigger] as_lines(body_lines(body, guard))[i],
                guard,
            ),
{
    let all = lines(trim(body));
    let pred = kept(define_line(guard));
    assert forall|i: int| 0 <= i < as_lines(body_lines(body, guard)).len() implies body_item(
        #[trigger] as_lines(body_lines(body, guard))[i],
        guard,
    ) by {
        all.lemma_filter_pred(pred, i);
    }
}

/// A guard with exactly one block: its fragment is the section mark, the
/// opening line, the `define` line, the lines of the trimmed block body without
/// the `define` line and the comment lines, and the closing line.
pub proof fn lemma_single_block(text: Seq<char>, guard: Seq<char>, begin: int, end: int)
    requires
        next_block(text, guard, 0) == Some((begin, end)),
        next_block(text, guard, block_end(guard, end)) is None,
    ensures
        fragment(text, guard) == seq![
            Item::Section,
            Item::Line(ifndef_line(guard)),
            Item::Line(define_line(guard)),
        ] + as_lines(lines(trim(block_body(text, guard, begin, end))).filter(kept(define_line(guard))))
            + seq![Item::Line(endif_line(guard))],
{
}

/// A guard with exactly two blocks: its fragment holds the kept lines of the
/// first block and then those of the second, each behind a section mark, between
/// one pair of opening lines and one closing line.
pub proof fn lemma_two_blocks(
    text: Seq<char>,
    guard: Seq<char>,
    first: (int, int),
    second: (int, int),
)
    requires
        next_block(text, guard, 0) == Some(first),
        next_block(text, guard, block_end(guard, first.1)) == Some(second),
        next_block(text, guard, block_end(guard, second.1)) is None,
    ensures
        fragment(text, guard) == seq![
            Item::Section,
            Item::Line(ifndef_line(guard)),
            Item::Line(define_line(guard)),
        ] + as_lines(body_lines(block_body(text, guard, first.0, first.1), guard)) + seq![
            Item::Section,
        ] + as_lines(body_lines(block_body(text, guard, second.0, second.1), guard)) + seq![
            Item::Line(endif_line(guard)),
        ],
{
    assert(later_blocks(text, guard, block_end(guard, second.1)) == seq![
        Item::Line(endif_line(guard)),
    ]);
}

/// However many blocks follow, what they contribute ends with the closing line,
/// and everything before it is a section mark or a kept line.
pub proof fn lemma_later_blocks_frame(text: Seq<char>, guard: Seq<char>, offset: int)
    ensures
        later_blocks(text, guard, offset).len() >= 1,
        later_blocks(text, guard, offset).last() == Item::Line(endif_line(guard)),
        forall|i: int|
            0 <= i < later_blocks(text, guard, offset).len() - 1 ==> body_item(
                #[trigger] later_blocks(text, guard, offset)[i],
                guard,
            ),
    decreases text.len() - offset,
{
    match next_block(text, guard, offset) {
        Some((begin, end)) => {
            lemma_block_advances(text, guard, offset);
            let body = as_lines(body_lines(block_body(text, guard, begin, end), guard));
            let later = later_blocks(text, guard, block_end(guard, end));
            lemma_later_blocks_frame(text, guard, block_end(guard, end));
            lemma_body_lines_kept(block_body(text, guard, begin, end), guard);
            assert(later_blocks(text, guard, offset) == seq![Item::Section] + body + later);
        },
        None => {},
    }
}

/// The frame of every fragment of a guard that the text holds: it opens with a
/// section mark, the opening line and the `define` line, it closes with the
/// closing line, and between them stand only section marks and kept lines. So
/// the `define` line is written once, whatever the blocks hold.
pub proof fn lemma_fragment_frame(text: Seq<char>, guard: Seq<char>)
    requires
        next_block(text, guard, 0) is Some,
    ensures
        fragment(text, guard).len() >= 4,
        fragment(text, guard)[0] == Item::Section,
        fragment(text, guard)[1] == Item::Line(ifndef_line(guard)),
        fragment(text, guard)[2] == Item::Line(define_line(guard)),
        fragment(text, guard).last() == Item::Line(endif_line(guard)),
        forall|i: int|
            3 <= i < fragment(text, guard).len() - 1 ==> body_item(
                #[trigger] fragment(text, guard)[i],
                guard,
            ),
        forall|i: int|
            3 <= i < fragment(text, guard).len() - 1 ==> #[trigger] fragment(text, guard)[i]
                != Item::Line(define_line(guard)),
{
    let (begin, end) = next_block(text, guard, 0).unwrap();
    let head = seq![
        Item::Section,
        Item::Line(ifndef_line(guard)),
        Item::Line(define_line(guard)),
    ];
    let body = as_lines(body_lines(block_body(text, guard, begin, end), guard));
    let later = later_blocks(text, guard, block_end(guard, end));
    lemma_later_blocks_frame(text, guard, block_end(guard, end));
    lemma_body_lines_kept(block_body(text, guard, begin, end), guard);
    assert(fragment(text, guard) == head + body + later);
}

/// The opening line, the `define` line and the closing line of a guard are
/// three different lines.
pub proof fn lemma_frame_lines_differ(guard: Seq<char>)
    ensures
        ifndef_line(guard) != define_line(guard),
        ifndef_line(guard) != endif_line(guard),
        define_line(guard) != endif_line(guard),
{
    reveal_strlit("#ifndef ");
    reveal_strlit("#define ");
    reveal_strlit("#endif // ");
    assert(define_line(guard)[1] == 'd');
    assert(endif_line(guard)[1] == 'e');
}

/// A guard with exactly two blocks, neither of which holds a line that is the
/// opening or the closing line of the guard: in its fragment the opening line,
/// the `define` line and the closing line occur once each.
pub proof fn lemma_two_blocks_one_frame(
    text: Seq<char>,
    guard: Seq<char>,
    first: (int, int),
    second: (int, int),
)
    requires
        next_block(text, guard, 0) == Some(first),
        next_block(text, guard, block_end(guard, first.1)) == Some(second),
        next_block(text, guard, block_end(guard, second.1)) is None,
        !body_lines(block_body(text, guard, first.0, first.1), guard).contains(ifndef_line(guard)),
        !body_lines(block_body(text, guard, first.0, first.1), guard).contains(endif_line(guard)),
        !body_lines(block_body(text, guard, second.0, second.1), guard).contains(
            ifndef_line(guard),
        ),
        !body_lines(block_body(text, guard, second.0, second.1), guard).contains(
            endif_line(guard),
        ),
    ensures
        count(fragment(text, guard), Item::Line(ifndef_line(guard))) == 1,
        count(fragment(text, guard), Item::Line(define_line(guard))) == 1,
        count(fragment(text, guard), Item::Line(endif_line(guard))) == 1,
{
    let ifndef = Item::Line(ifndef_line(guard));
    let define = Item::Line(define_line(guard));
    let endif = Item::Line(endif_line(guard));
    let head = seq![Item::Section, ifndef, define];
    let lines_one = body_lines(block_body(text, guard, first.0, first.1), guard);
    let lines_two = body_lines(block_body(text, guard, second.0, second.1), guard);
    let one = as_lines(lines_one);
    let mark = seq![Item::Section];
    let two = as_lines(lines_two);
    let tail = seq![endif];
    lemma_two_blocks(text, guard, first, second);
    lemma_frame_lines_differ(guard);
    lemma_body_lines_kept(block_body(text, guard, first.0, first.1), guard);
    lemma_body_lines_kept(block_body(text, guard, second.0, second.1), guard);
    assert forall|item: Item| item == ifndef || item == define || item == endif implies count(
        fragment(text, guard),
        item,
    ) == 1 by {
        assert forall|i: int| 0 <= i < one.len() implies one[i] != item by {}
        assert forall|i: int| 0 <= i < two.len() implies two[i] != item by {}
        lemma_count_absent(one, item);
        lemma_count_absent(two, item);
        lemma_count_absent(mark, item);
        lemma_count_concat(head + one + mark + two, tail, item);
        lemma_count_concat(head + one + mark, two, item);
        lemma_count_concat(head + one, mark, item);
        lemma_count_concat(head, one, item);
        let opened = seq![Item::Section, ifndef];
        assert(head.drop_last() =~= opened);
        assert(opened.drop_last() =~= mark);
        assert(mark.drop_last() =~= Seq::<Item>::empty());
        assert(count(opened, item) == count(mark, item) + if item == ifndef {
            1nat
        } else {
            0nat
        });
        assert(tail.drop_last() =~= Seq::<Item>::empty());
    }
}

} // verus!
