//! Scanning a line of a document: blanks, names, and the comment at the end
//! of a line.

use vstd::prelude::*;
use crate::text::{is_blank, blank, chars_of};

verus! {

/// Whether the characters of `lit` stand in `s` from position `i` on.
pub open spec fn starts_with_at(s: Seq<char>, i: int, lit: Seq<char>) -> bool {
    0 <= i && i + lit.len() <= s.len() && s.subrange(i, i + lit.len()) == lit
}

/// Whether a line ends at position `i`: at a line feed, at a carriage return
/// that a line feed follows, and at the end of the input.
pub open spec fn at_newline(s: Seq<char>, i: int) -> bool {
    i < 0 || i >= s.len() || s[i] == '\n' || (s[i] == '\r' && i + 1 < s.len() && s[i + 1] == '\n')
}

/// The first position from `i` on that holds no blank.
pub open spec fn skip_blanks(s: Seq<char>, i: int) -> int
    decreases s.len() - i,
{
    if 0 <= i < s.len() && is_blank(s[i]) {
        skip_blanks(s, i + 1)
    } else {
        i
    }
}

/// The first position from `i` on at which a line ends.
pub open spec fn line_end(s: Seq<char>, i: int) -> int
    decreases s.len() - i,
{
    if at_newline(s, i) {
        i
    } else {
        line_end(s, i + 1)
    }
}

/// Where the blanks and the comment that may follow the content of a line
/// end. A comment opens with `//` and runs to the end of the line.
pub open spec fn tail_end(s: Seq<char>, i: int) -> int {
    let j = skip_blanks(s, i);
    if starts_with_at(s, j, "//"@) {
        line_end(s, j + 2)
    } else {
        j
    }
}

/// Whether a name must stop before position `i`. Every name stops before
/// `---`; the name of a block stops before `+=` and `-=` too.
pub open spec fn delimiter_at(s: Seq<char>, i: int, block: bool) -> bool {
    starts_with_at(s, i, "---"@) || (block && (starts_with_at(s, i, "+="@) || starts_with_at(
        s,
        i,
        "-="@,
    )))
}

/// Whether position `i` holds a character of a word: no blank, no end of
/// line, and no start of a delimiter.
pub open spec fn word_char_at(s: Seq<char>, i: int, block: bool) -> bool {
    0 <= i < s.len() && !is_blank(s[i]) && !at_newline(s, i) && !delimiter_at(s, i, block)
}

/// The first position from `i` on that holds no character of a word.
pub open spec fn word_end(s: Seq<char>, i: int, block: bool) -> int
    decreases s.len() - i,
{
    if word_char_at(s, i, block) {
        word_end(s, i + 1, block)
    } else {
        i
    }
}

pub proof fn lemma_word_end_bounds(s: Seq<char>, i: int, block: bool)
    requires
        0 <= i <= s.len(),
    ensures
        i <= word_end(s, i, block) <= s.len(),
    decreases s.len() - i,
{
    if word_char_at(s, i, block) {
        lemma_word_end_bounds(s, i + 1, block);
    }
}

/// Where the name that starts at `i` ends. A name is one word or more, with
/// blanks between them; blanks that no word follows are not part of it.
pub open spec fn name_end(s: Seq<char>, i: int, block: bool) -> int
    decreases s.len() - i,
{
    let w = word_end(s, i, block);
    let j = skip_blanks(s, w);
    if 0 <= i < w && w < j && word_char_at(s, j, block) {
        name_end(s, j, block)
    } else {
        w
    }
}

/// Where the name that starts at `i` ends, if a name starts there.
pub open spec fn name_at(s: Seq<char>, i: int, block: bool) -> Option<int> {
    if word_char_at(s, i, block) {
        Some(name_end(s, i, block))
    } else {
        None
    }
}

/// Whether the characters of `lit` stand in `cs` from position `i` on.
pub fn matches_at(cs: &Vec<char>, i: usize, lit: &str) -> (b: bool)
    requires
        i <= cs.len(),
    ensures
        b == starts_with_at(cs@, i as int, lit@),
{
    let want = chars_of(lit);
    if want.len() > cs.len() - i {
        return false;
    }
    let mut k: usize = 0;
    while k < want.len()
        invariant
            k <= want.len(),
            i + want.len() <= cs.len(),
            want@ == lit@,
            forall|j: int| 0 <= j < k ==> cs@[i + j] == want@[j],
        decreases want.len() - k,
    {
        if cs[i + k] != want[k] {
            proof {
                assert(cs@.subrange(i as int, i + want.len())[k as int] == cs@[i + k]);
            }
            return false;
        }
        k += 1;
    }
    proof {
        assert(cs@.subrange(i as int, i + want.len()) =~= want@);
    }
    true
}

/// Whether a line ends at position `i`.
pub fn newline_at(cs: &Vec<char>, i: usize) -> (b: bool)
    ensures
        b == at_newline(cs@, i as int),
{
    i >= cs.len() || cs[i] == '\n' || (cs[i] == '\r' && i + 1 < cs.len() && cs[i + 1] == '\n')
}

/// The first position from `i` on that holds no blank.
pub fn skip_blanks_from(cs: &Vec<char>, i: usize) -> (j: usize)
    requires
        i <= cs.len(),
    ensures
        j == skip_blanks(cs@, i as int),
        i <= j <= cs.len(),
{
    let mut j: usize = i;
    while j < cs.len() && blank(cs[j])
        invariant
            i <= j <= cs.len(),
            skip_blanks(cs@, i as int) == skip_blanks(cs@, j as int),
        decreases cs.len() - j,
    {
        j += 1;
    }
    j
}

/// The first position from `i` on at which a line ends.
pub fn line_end_from(cs: &Vec<char>, i: usize) -> (j: usize)
    requires
        i <= cs.len(),
    ensures
        j == line_end(cs@, i as int),
        i <= j <= cs.len(),
{
    let mut j: usize = i;
    while !newline_at(cs, j)
        invariant
            i <= j <= cs.len(),
            line_end(cs@, i as int) == line_end(cs@, j as int),
        decreases cs.len() - j,
    {
        j += 1;
    }
    j
}

/// Where the blanks and the comment from `i` on end.
pub fn tail_end_from(cs: &Vec<char>, i: usize) -> (j: usize)
    requires
        i <= cs.len(),
    ensures
        j == tail_end(cs@, i as int),
        i <= j <= cs.len(),
{
    let j = skip_blanks_from(cs, i);
    if matches_at(cs, j, "//") {
        proof {
            reveal_strlit("//");
        }
        line_end_from(cs, j + 2)
    } else {
        j
    }
}

/// Whether a name must stop before position `i`.
pub fn is_delimiter_at(cs: &Vec<char>, i: usize, block: bool) -> (b: bool)
    requires
        i <= cs.len(),
    ensures
        b == delimiter_at(cs@, i as int, block),
{
    matches_at(cs, i, "---") || (block && (matches_at(cs, i, "+=") || matches_at(cs, i, "-=")))
}

/// Whether position `i` holds a character of a word.
pub fn is_word_char_at(cs: &Vec<char>, i: usize, block: bool) -> (b: bool)
    requires
        i <= cs.len(),
    ensures
        b == word_char_at(cs@, i as int, block),
{
    i < cs.len() && !blank(cs[i]) && !newline_at(cs, i) && !is_delimiter_at(cs, i, block)
}

/// The first position from `i` on that holds no character of a word.
pub fn word_end_from(cs: &Vec<char>, i: usize, block: bool) -> (j: usize)
    requires
        i <= cs.len(),
    ensures
        j == word_end(cs@, i as int, block),
        i <= j <= cs.len(),
{
    let mut j: usize = i;
    while is_word_char_at(cs, j, block)
        invariant
            i <= j <= cs.len(),
            word_end(cs@, i as int, block) == word_end(cs@, j as int, block),
        decreases cs.len() - j,
    {
        j += 1;
    }
    j
}

/// Where the name that starts at `i` ends, if a name starts there.
pub fn name_from(cs: &Vec<char>, i: usize, block: bool) -> (end: Option<usize>)
    requires
        i <= cs.len(),
    ensures
        end is Some <==> name_at(cs@, i as int, block) is Some,
        end is Some ==> end.unwrap() == name_at(cs@, i as int, block).unwrap() && i
            < end.unwrap() <= cs.len(),
{
    if !is_word_char_at(cs, i, block) {
        return None;
    }
    let mut start: usize = i;
    let mut end: usize = word_end_from(cs, start, block);
    let mut more: bool = true;
    proof {
        lemma_word_end_bounds(cs@, i + 1, block);
    }
    while more
        invariant
            i <= start < end <= cs.len(),
            end == word_end(cs@, start as int, block),
            word_char_at(cs@, start as int, block),
            name_end(cs@, i as int, block) == name_end(cs@, start as int, block),
            !more ==> name_end(cs@, start as int, block) == end,
        decreases
                cs.len() - start + (if more {
                    1int
                } else {
                    0int
                }),
    {
        let next = skip_blanks_from(cs, end);
        if next > end && is_word_char_at(cs, next, block) {
            start = next;
            end = word_end_from(cs, start, block);
            proof {
                lemma_word_end_bounds(cs@, start + 1, block);
            }
        } else {
            more = false;
        }
    }
    Some(end)
}

} // verus!
