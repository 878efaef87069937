//! Format strings: a pattern in which a two-character marker stands for a
//! value that is known only later.

use vstd::prelude::*;
use crate::text::{chars_of, string_of, push_chars};

verus! {

/// `pattern` with every `%` that `marker` follows replaced by `value`. The
/// pattern is read from the left, and what was put in is not read again.
pub open spec fn substituted(pattern: Seq<char>, marker: char, value: Seq<char>) -> Seq<char>
    decreases pattern.len(),
{
    if pattern.len() == 0 {
        Seq::empty()
    } else if pattern.len() >= 2 && pattern[0] == '%' && pattern[1] == marker {
        value + substituted(pattern.skip(2), marker, value)
    } else {
        seq![pattern[0]] + substituted(pattern.skip(1), marker, value)
    }
}

/// The character that stands for a number below ten.
pub open spec fn digit(d: nat) -> char {
    if d == 0 {
        '0'
    } else if d == 1 {
        '1'
    } else if d == 2 {
        '2'
    } else if d == 3 {
        '3'
    } else if d == 4 {
        '4'
    } else if d == 5 {
        '5'
    } else if d == 6 {
        '6'
    } else if d == 7 {
        '7'
    } else if d == 8 {
        '8'
    } else {
        '9'
    }
}

/// A number written in decimal, without leading zeros.
pub open spec fn decimal(n: nat) -> Seq<char>
    decreases n,
{
    if n < 10 {
        seq![digit(n)]
    } else {
        decimal(n / 10).push(digit(n % 10))
    }
}

/// Executable form of [`digit`].
pub fn digit_char(d: usize) -> (c: char)
    requires
        d < 10,
    ensures
        c == digit(d as nat),
{
    if d == 0 {
        '0'
    } else if d == 1 {
        '1'
    } else if d == 2 {
        '2'
    } else if d == 3 {
        '3'
    } else if d == 4 {
        '4'
    } else if d == 5 {
        '5'
    } else if d == 6 {
        '6'
    } else if d == 7 {
        '7'
    } else if d == 8 {
        '8'
    } else {
        '9'
    }
}

/// The decimal digits of `n`.
pub fn decimal_chars(n: usize) -> (digits: Vec<char>)
    ensures
        digits@ == decimal(n as nat),
    decreases n,
{
    if n < 10 {
        let mut digits: Vec<char> = Vec::new();
        digits.push(digit_char(n));
        digits
    } else {
        let mut digits = decimal_chars(n / 10);
        digits.push(digit_char(n % 10));
        digits
    }
}

/// Replaces every `%` that `marker` follows in `pattern` by `value`.
pub fn substitute(pattern: &str, marker: char, value: &Vec<char>) -> (out: String)
    ensures
        out@ == substituted(pattern@, marker, value@),
{
    let cs = chars_of(pattern);
    let n = cs.len();
    let mut out: Vec<char> = Vec::new();
    let mut i: usize = 0;
    proof {
        assert(pattern@.skip(0) =~= pattern@);
        assert(out@ + substituted(pattern@, marker, value@) =~= substituted(
            pattern@,
            marker,
            value@,
        ));
    }
    while i < n
        invariant
            n == cs.len(),
            cs@ == pattern@,
            i <= n,
            substituted(pattern@, marker, value@) == out@ + substituted(
                pattern@.skip(i as int),
                marker,
                value@,
            ),
        decreases n - i,
    {
        let ghost rest = pattern@.skip(i as int);
        let ghost before = out@;
        if cs[i] == '%' && i + 1 < n && cs[i + 1] == marker {
            push_chars(&mut out, value);
            proof {
                assert(rest.skip(2) =~= pattern@.skip(i + 2));
                assert(out@ + substituted(rest.skip(2), marker, value@) =~= before + (value@
                    + substituted(rest.skip(2), marker, value@)));
            }
            i += 2;
        } else {
            out.push(cs[i]);
            proof {
                assert(rest.skip(1) =~= pattern@.skip(i + 1));
                assert(out@ + substituted(rest.skip(1), marker, value@) =~= before + (seq![rest[0]]
                    + substituted(rest.skip(1), marker, value@)));
            }
            i += 1;
        }
    }
    proof {
        assert(pattern@.skip(n as int) =~= Seq::<char>::empty());
        assert(out@ + Seq::<char>::empty() =~= out@);
    }
    string_of(&out)
}

/// How a comment is written in the language of the generated files: a
/// pattern in which `%s` stands for the comment.
pub struct CommentFormat {
    pub pattern: String,
}

impl CommentFormat {
    /// What `comment` looks like when written with this format.
    pub open spec fn formatted(&self, comment: Seq<char>) -> Seq<char> {
        substituted(self.pattern@, 's', comment)
    }

    /// Writes `comment` with this format.
    pub fn format(&self, comment: &str) -> (out: String)
        ensures
            out@ == self.formatted(comment@),
    {
        let value = chars_of(comment);
        substitute(self.pattern.as_str(), 's', &value)
    }
}

/// How the number of a line is written into the generated files: a pattern
/// in which `%l` stands for the number.
pub struct LineNumberFormat {
    pub pattern: String,
}

impl LineNumberFormat {
    /// What the number `line_number` looks like when written with this format.
    pub open spec fn formatted(&self, line_number: nat) -> Seq<char> {
        substituted(self.pattern@, 'l', decimal(line_number))
    }

    /// Writes the number of a line with this format.
    pub fn format(&self, line_number: usize) -> (out: String)
        ensures
            out@ == self.formatted(line_number as nat),
    {
        let value = decimal_chars(line_number);
        substitute(self.pattern.as_str(), 'l', &value)
    }
}

/// How the messages of a compiler are to be read: the pattern as it was
/// given. Nothing reads compiler messages yet, so nothing more is kept.
pub struct ErrorFormat {
    pub pattern: String,
}

/// The comment format that `format_string` describes.
pub fn generate_comment_type(format_string: &str) -> (format: CommentFormat)
    ensures
        format.pattern@ == format_string@,
{
    CommentFormat { pattern: format_string.to_owned() }
}

/// The line number format that `format_string` describes.
pub fn generate_line_number_format(format_string: &str) -> (format: LineNumberFormat)
    ensures
        format.pattern@ == format_string@,
{
    LineNumberFormat { pattern: format_string.to_owned() }
}

/// The error format that `format_string` describes.
pub fn generate_error_format(format_string: &str) -> (format: ErrorFormat)
    ensures
        format.pattern@ == format_string@,
{
    ErrorFormat { pattern: format_string.to_owned() }
}

/// The error format that the compiler named in `compiler` is known to use.
/// No compiler is known yet.
pub fn try_guess_error_format(compiler: &String) -> (format: Option<ErrorFormat>)
    ensures
        format is None,
{
    None
}

} // verus!
