//! The grammar of one line: literal text, and links written `@{name}`.
//!
//! A link opens with `@{` and closes at the next `}`. What stands between,
//! without the blanks around it, is the name; a name is never empty. Text is
//! every other run of characters, taken as far as the next `@{`.

use vstd::prelude::*;
use crate::text::{is_blank, concat_all, lemma_concat_all_add};

verus! {

/// What a part of a line is: a link to a block, or literal text.
#[derive(Clone, Copy, Debug, PartialEq, Eq, Structural)]
pub enum LinkPart {
    Link,
    Text,
}

impl LinkPart {
    pub fn is_link(&self) -> (b: bool)
        ensures
            b == (*self == LinkPart::Link),
    {
        match self {
            LinkPart::Link => true,
            _ => false,
        }
    }
}

/// One part of a line as the contracts see it: its kind and its characters
/// (for a link, the name).
pub struct Part {
    pub kind: LinkPart,
    pub slice: Seq<char>,
}

/// Whether `@{` stands at position `i` of `s`.
pub open spec fn link_opens_at(s: Seq<char>, i: int) -> bool {
    0 <= i && i + 1 < s.len() && s[i] == '@' && s[i + 1] == '{'
}

/// The first position from `i` on at which a link opens, or the end of `s`.
pub open spec fn text_end(s: Seq<char>, i: int) -> int
    decreases s.len() - i,
{
    if i >= s.len() || link_opens_at(s, i) {
        i
    } else {
        text_end(s, i + 1)
    }
}

/// The first position from `i` on that holds `}`, or the end of `s`.
pub open spec fn link_close(s: Seq<char>, i: int) -> int
    decreases s.len() - i,
{
    if i < 0 || i >= s.len() || s[i] == '}' {
        i
    } else {
        link_close(s, i + 1)
    }
}

/// The first position in `i..end` that holds no blank, or `end`.
pub open spec fn name_start(s: Seq<char>, i: int, end: int) -> int
    decreases end - i,
{
    if 0 <= i < end && end <= s.len() && is_blank(s[i]) {
        name_start(s, i + 1, end)
    } else {
        i
    }
}

/// The end of `start..i` once the blanks at its end are taken off.
pub open spec fn name_end(s: Seq<char>, start: int, i: int) -> int
    decreases i - start,
{
    if 0 <= start < i && i <= s.len() && is_blank(s[i - 1]) {
        name_end(s, start, i - 1)
    } else {
        i
    }
}

pub proof fn lemma_text_end_bounds(s: Seq<char>, i: int)
    requires
        0 <= i <= s.len(),
    ensures
        i <= text_end(s, i) <= s.len(),
    decreases s.len() - i,
{
    if i >= s.len() || link_opens_at(s, i) {
    } else {
        lemma_text_end_bounds(s, i + 1);
    }
}

pub proof fn lemma_link_close_bounds(s: Seq<char>, i: int)
    requires
        0 <= i <= s.len(),
    ensures
        i <= link_close(s, i) <= s.len(),
    decreases s.len() - i,
{
    if i >= s.len() || s[i] == '}' {
    } else {
        lemma_link_close_bounds(s, i + 1);
    }
}

/// The parts of `s` from position `i` on, or `None` where a link that opens
/// there is never closed or has no name.
pub open spec fn parts_from(s: Seq<char>, i: int) -> Option<Seq<Part>>
    decreases s.len() - i,
{
    if i < 0 || i >= s.len() {
        Some(Seq::empty())
    } else if link_opens_at(s, i) {
        let close = link_close(s, i + 2);
        let lo = name_start(s, i + 2, close);
        let hi = name_end(s, lo, close);
        if close >= s.len() || lo >= hi {
            None
        } else {
            proof {
                lemma_link_close_bounds(s, i + 2);
            }
            match parts_from(s, close + 1) {
                Some(rest) => Some(
                    seq![Part { kind: LinkPart::Link, slice: s.subrange(lo, hi) }] + rest,
                ),
                None => None,
            }
        }
    } else {
        let end = text_end(s, i + 1);
        proof {
            lemma_text_end_bounds(s, i + 1);
        }
        match parts_from(s, end) {
            Some(rest) => Some(
                seq![Part { kind: LinkPart::Text, slice: s.subrange(i, end) }] + rest,
            ),
            None => None,
        }
    }
}

/// The parts of a whole line.
pub open spec fn parts_of(s: Seq<char>) -> Option<Seq<Part>> {
    parts_from(s, 0)
}

/// Whether a line can be split into parts at all.
pub open spec fn well_formed_line(s: Seq<char>) -> bool {
    parts_of(s) is Some
}

/// The names of the links among `parts`, in order.
pub open spec fn link_names(parts: Seq<Part>) -> Seq<Seq<char>>
    decreases parts.len(),
{
    if parts.len() == 0 {
        Seq::empty()
    } else if parts.last().kind == LinkPart::Link {
        link_names(parts.drop_last()).push(parts.last().slice)
    } else {
        link_names(parts.drop_last())
    }
}

/// The pieces of literal text among `parts`, in order.
pub open spec fn text_slices(parts: Seq<Part>) -> Seq<Seq<char>>
    decreases parts.len(),
{
    if parts.len() == 0 {
        Seq::empty()
    } else if parts.last().kind == LinkPart::Text {
        text_slices(parts.drop_last()).push(parts.last().slice)
    } else {
        text_slices(parts.drop_last())
    }
}

/// The first position from `from` on at which `parts` holds a link, or the
/// number of parts.
pub open spec fn next_link(parts: Seq<Part>, from: int) -> int
    decreases parts.len() - from,
{
    if from < 0 || from >= parts.len() || parts[from].kind == LinkPart::Link {
        from
    } else {
        next_link(parts, from + 1)
    }
}

/// The names of the links of a line; none where the line is not well formed.
pub open spec fn links_of(s: Seq<char>) -> Seq<Seq<char>> {
    match parts_of(s) {
        Some(parts) => link_names(parts),
        None => Seq::empty(),
    }
}

/// The links of two runs of parts on end are the links of the first and
/// then those of the second.
pub proof fn lemma_link_names_add(a: Seq<Part>, b: Seq<Part>)
    ensures
        link_names(a + b) == link_names(a) + link_names(b),
    decreases b.len(),
{
    if b.len() == 0 {
        assert(a + b =~= a);
        assert(link_names(a) + link_names(b) =~= link_names(a));
    } else {
        assert((a + b).drop_last() =~= a + b.drop_last());
        lemma_link_names_add(a, b.drop_last());
        assert(link_names(a + b) =~= link_names(a) + link_names(b));
    }
}

/// The text of two runs of parts on end is the text of the first and then
/// that of the second.
pub proof fn lemma_text_slices_add(a: Seq<Part>, b: Seq<Part>)
    ensures
        text_slices(a + b) == text_slices(a) + text_slices(b),
    decreases b.len(),
{
    if b.len() == 0 {
        assert(a + b =~= a);
        assert(text_slices(a) + text_slices(b) =~= text_slices(a));
    } else {
        assert((a + b).drop_last() =~= a + b.drop_last());
        lemma_text_slices_add(a, b.drop_last());
        assert(text_slices(a + b) =~= text_slices(a) + text_slices(b));
    }
}

/// What one part alone holds: its name if it is a link, its text if not.
pub proof fn lemma_single_part(part: Part)
    ensures
        link_names(seq![part]) == if part.kind == LinkPart::Link {
            seq![part.slice]
        } else {
            Seq::<Seq<char>>::empty()
        },
        text_slices(seq![part]) == if part.kind == LinkPart::Text {
            seq![part.slice]
        } else {
            Seq::<Seq<char>>::empty()
        },
{
    let one = seq![part];
    assert(one.drop_last() =~= Seq::<Part>::empty());
    assert(link_names(one.drop_last()) =~= Seq::<Seq<char>>::empty());
    assert(text_slices(one.drop_last()) =~= Seq::<Seq<char>>::empty());
    assert(one.last() == part);
    if part.kind == LinkPart::Link {
        assert(link_names(one) =~= seq![part.slice]);
        assert(text_slices(one) =~= Seq::<Seq<char>>::empty());
    } else {
        assert(text_slices(one) =~= seq![part.slice]);
        assert(link_names(one) =~= Seq::<Seq<char>>::empty());
    }
}

/// One piece alone, written out, is the piece.
pub proof fn lemma_concat_single(piece: Seq<char>)
    ensures
        concat_all(seq![piece]) == piece,
{
    let one = seq![piece];
    assert(one.drop_last() =~= Seq::<Seq<char>>::empty());
    assert(concat_all(one.drop_last()) =~= Seq::<char>::empty());
    assert(concat_all(one) =~= piece);
}

/// From any position on, a line whose parts hold no link is its pieces of
/// text written one after another.
pub proof fn lemma_text_round_trip_from(line: Seq<char>, i: int)
    requires
        0 <= i <= line.len(),
        parts_from(line, i) is Some,
        link_names(parts_from(line, i).unwrap()).len() == 0,
    ensures
        concat_all(text_slices(parts_from(line, i).unwrap())) == line.subrange(
            i,
            line.len() as int,
        ),
    decreases line.len() - i,
{
    let parts = parts_from(line, i).unwrap();
    if i >= line.len() {
        assert(concat_all(text_slices(parts)) =~= line.subrange(i, line.len() as int));
    } else if link_opens_at(line, i) {
        let close = link_close(line, i + 2);
        let lo = name_start(line, i + 2, close);
        let hi = name_end(line, lo, close);
        let rest = parts_from(line, close + 1).unwrap();
        let head = seq![Part { kind: LinkPart::Link, slice: line.subrange(lo, hi) }];
        lemma_link_names_add(head, rest);
        lemma_single_part(head[0]);
        assert(link_names(head).len() == 1);
    } else {
        let end = text_end(line, i + 1);
        lemma_text_end_bounds(line, i + 1);
        let rest = parts_from(line, end).unwrap();
        let piece = line.subrange(i, end);
        let head = seq![Part { kind: LinkPart::Text, slice: piece }];
        lemma_link_names_add(head, rest);
        lemma_text_slices_add(head, rest);
        lemma_single_part(head[0]);
        assert(link_names(rest).len() == 0);
        lemma_text_round_trip_from(line, end);
        lemma_concat_all_add(seq![piece], text_slices(rest));
        lemma_concat_single(piece);
        assert(piece + line.subrange(end, line.len() as int) =~= line.subrange(
            i,
            line.len() as int,
        ));
    }
}

/// A line without links is reproduced by its parts: the pieces of text that
/// it is split into, written one after another, are the line.
pub proof fn lemma_text_round_trip(line: Seq<char>)
    requires
        well_formed_line(line),
        links_of(line).len() == 0,
    ensures
        concat_all(text_slices(parts_of(line).unwrap())) == line,
{
    lemma_text_round_trip_from(line, 0);
    assert(line.subrange(0, line.len() as int) =~= line);
}

/// Where no link opens from `i` on, the text runs to the end of the line.
pub proof fn lemma_text_runs_to_end(line: Seq<char>, i: int)
    requires
        0 <= i <= line.len(),
        forall|j: int| i <= j < line.len() ==> !link_opens_at(line, j),
    ensures
        text_end(line, i) == line.len(),
    decreases line.len() - i,
{
    if i < line.len() {
        lemma_text_runs_to_end(line, i + 1);
    }
}

/// A line in which no `@{` stands is well formed, and is one piece of text:
/// nothing of it is taken for a link, and nothing is lost.
pub proof fn lemma_plain_line_is_text(line: Seq<char>)
    requires
        forall|j: int| 0 <= j < line.len() ==> !link_opens_at(line, j),
    ensures
        parts_of(line) == if line.len() == 0 {
            Some(Seq::<Part>::empty())
        } else {
            Some(seq![Part { kind: LinkPart::Text, slice: line }])
        },
        links_of(line).len() == 0,
{
    if line.len() > 0 {
        lemma_text_runs_to_end(line, 1);
        let only = seq![Part { kind: LinkPart::Text, slice: line }];
        assert(line.subrange(0, line.len() as int) =~= line);
        assert(only + Seq::<Part>::empty() =~= only);
        assert(parts_from(line, line.len() as int) == Some(Seq::<Part>::empty()));
        assert(parts_from(line, 0) == Some(only));
        lemma_single_part(only[0]);
    } else {
        assert(link_names(Seq::<Part>::empty()) =~= Seq::<Seq<char>>::empty());
    }
}

/// Whether `name` can be the name of a link: it is not empty, no blank
/// stands at its start or at its end, and no `}` stands in it.
pub open spec fn trimmed_name(name: Seq<char>) -> bool {
    &&& name.len() > 0
    &&& !is_blank(name[0])
    &&& !is_blank(name.last())
    &&& !name.contains('}')
}

/// No `}` stands before the place where a link closes.
pub proof fn lemma_link_close_is_first(s: Seq<char>, i: int, j: int)
    requires
        0 <= i <= j < link_close(s, i),
        link_close(s, i) <= s.len(),
    ensures
        s[j] != '}',
    decreases j - i,
{
    if i < j {
        lemma_link_close_is_first(s, i + 1, j);
    }
}

/// Where the name of a link starts, no blank stands, unless nothing is left.
pub proof fn lemma_name_start_is_not_blank(s: Seq<char>, i: int, end: int)
    requires
        0 <= i <= end <= s.len(),
    ensures
        i <= name_start(s, i, end) <= end,
        name_start(s, i, end) < end ==> !is_blank(s[name_start(s, i, end)]),
    decreases end - i,
{
    if i < end && is_blank(s[i]) {
        lemma_name_start_is_not_blank(s, i + 1, end);
    }
}

/// Just before the place where the name of a link ends, no blank stands,
/// unless nothing is left.
pub proof fn lemma_name_end_is_not_blank(s: Seq<char>, start: int, i: int)
    requires
        0 <= start <= i <= s.len(),
    ensures
        start <= name_end(s, start, i) <= i,
        start < name_end(s, start, i) ==> !is_blank(s[name_end(s, start, i) - 1]),
    decreases i - start,
{
    if start < i && is_blank(s[i - 1]) {
        lemma_name_end_is_not_blank(s, start, i - 1);
    }
}

/// From any position on, the name of every link of a well-formed line is
/// what stands between `@{` and `}` without the blanks around it.
pub proof fn lemma_names_are_trimmed_from(line: Seq<char>, i: int)
    requires
        0 <= i <= line.len(),
        parts_from(line, i) is Some,
    ensures
        forall|k: int|
            0 <= k < link_names(parts_from(line, i).unwrap()).len() ==> trimmed_name(
                #[trigger] link_names(parts_from(line, i).unwrap())[k],
            ),
    decreases line.len() - i,
{
    let parts = parts_from(line, i).unwrap();
    if i >= line.len() {
    } else if link_opens_at(line, i) {
        let close = link_close(line, i + 2);
        lemma_link_close_bounds(line, i + 2);
        let lo = name_start(line, i + 2, close);
        lemma_name_start_is_not_blank(line, i + 2, close);
        let hi = name_end(line, lo, close);
        lemma_name_end_is_not_blank(line, lo, close);
        let name = line.subrange(lo, hi);
        let rest = parts_from(line, close + 1).unwrap();
        let head = seq![Part { kind: LinkPart::Link, slice: name }];
        lemma_link_names_add(head, rest);
        lemma_single_part(head[0]);
        lemma_names_are_trimmed_from(line, close + 1);
        assert(name[0] == line[lo]);
        assert(name.last() == line[hi - 1]);
        assert forall|j: int| 0 <= j < name.len() implies name[j] != '}' by {
            lemma_link_close_is_first(line, i + 2, lo + j);
        }
        assert(trimmed_name(name));
        assert forall|k: int| 0 <= k < link_names(parts).len() implies trimmed_name(
            #[trigger] link_names(parts)[k],
        ) by {
            if k > 0 {
                assert(link_names(parts)[k] == link_names(rest)[k - 1]);
            }
        }
    } else {
        let end = text_end(line, i + 1);
        lemma_text_end_bounds(line, i + 1);
        let rest = parts_from(line, end).unwrap();
        let head = seq![Part { kind: LinkPart::Text, slice: line.subrange(i, end) }];
        lemma_link_names_add(head, rest);
        lemma_single_part(head[0]);
        lemma_names_are_trimmed_from(line, end);
        assert(link_names(parts) =~= link_names(rest));
    }
}

/// The name of every link of a line is what stands between `@{` and `}`
/// without the blanks around it: it is not empty, neither starts nor ends
/// with a blank, and holds no `}`.
pub proof fn lemma_names_are_trimmed(line: Seq<char>)
    requires
        well_formed_line(line),
    ensures
        forall|k: int| 0 <= k < links_of(line).len() ==> trimmed_name(#[trigger] links_of(line)[k]),
{
    lemma_names_are_trimmed_from(line, 0);
}

} // verus!
