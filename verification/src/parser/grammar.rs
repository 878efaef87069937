//! The grammar of a document, line by line.
//!
//! A line that starts with `@` holds a command. A line that starts with
//! `---` opens a block of code, where a name follows, or closes one. Every
//! other line is prose, or a line of code where a block is open. A line may
//! end in a comment, which opens with `//`.

use vstd::prelude::*;
use vstd::string::*;
use crate::text::{is_blank, blank, chars_of, views, lemma_views_push};
use crate::parser::scan::{
    starts_with_at, at_newline, skip_blanks, line_end, tail_end, name_at, matches_at, newline_at,
    skip_blanks_from, line_end_from, tail_end_from, name_from,
};
use crate::parser::ParseError;

verus! {

/// The block continues an earlier block of the same name (`+=`).
pub const APPEND: u32 = 0b00000001;

/// The block replaces every earlier block of the same name (`-=`).
pub const REDEF: u32 = 0b00000010;

/// The block is left out of the generated source files.
pub const NOTANGLE: u32 = 0b00000100;

/// The block is left out of the documentation.
pub const NOWEAVE: u32 = 0b00001000;

/// No comment naming the block is written above it.
pub const NOHEADER: u32 = 0b00010000;

/// A set of block modifiers, one bit for each.
#[derive(Clone, Copy, Debug, PartialEq, Eq, Structural)]
pub struct BlockModifier {
    pub bits: u32,
}

impl BlockModifier {
    /// Whether every bit of `flag` is set.
    pub open spec fn has(self, flag: u32) -> bool {
        self.bits & flag == flag
    }

    /// The set without any modifier.
    pub fn empty() -> (m: BlockModifier)
        ensures
            m.bits == 0,
    {
        BlockModifier { bits: 0 }
    }

    /// The set with exactly the bits of `bits`.
    pub fn from_bits(bits: u32) -> (m: BlockModifier)
        ensures
            m.bits == bits,
    {
        BlockModifier { bits }
    }

    /// Whether every bit of `flag` is set.
    pub fn contains(&self, flag: u32) -> (b: bool)
        ensures
            b == self.has(flag),
    {
        self.bits & flag == flag
    }

    /// The modifiers of `self` together with those of `other`.
    pub fn union(self, other: BlockModifier) -> (m: BlockModifier)
        ensures
            m.bits == self.bits | other.bits,
    {
        BlockModifier { bits: self.bits | other.bits }
    }
}

/// A command of a document.
pub enum Command<'a> {
    Title(&'a str),
    Section { name: Option<&'a str>, depth: usize },
    CodeType { code_type: &'a str, file_extension: &'a str },
    CommentType(&'a str),
    Compiler(&'a str),
    ErrorFormat(&'a str),
    LineNumbers(&'a str),
    Book,
    AddCss(&'a str),
    OverwriteCss(&'a str),
    Colorscheme(&'a str),
}

/// A command as the contracts see it.
pub enum CommandSpec {
    Title(Seq<char>),
    Section { name: Option<Seq<char>>, depth: usize },
    CodeType { code_type: Seq<char>, file_extension: Seq<char> },
    CommentType(Seq<char>),
    Compiler(Seq<char>),
    ErrorFormat(Seq<char>),
    LineNumbers(Seq<char>),
    Book,
    AddCss(Seq<char>),
    OverwriteCss(Seq<char>),
    Colorscheme(Seq<char>),
}

impl<'a> View for Command<'a> {
    type V = CommandSpec;

    open spec fn view(&self) -> CommandSpec {
        match self {
            Command::Title(title) => CommandSpec::Title(title@),
            Command::Section { name, depth } => CommandSpec::Section {
                name: match name {
                    Some(name) => Some(name@),
                    None => None,
                },
                depth: *depth,
            },
            Command::CodeType { code_type, file_extension } => CommandSpec::CodeType {
                code_type: code_type@,
                file_extension: file_extension@,
            },
            Command::CommentType(pattern) => CommandSpec::CommentType(pattern@),
            Command::Compiler(command) => CommandSpec::Compiler(command@),
            Command::ErrorFormat(pattern) => CommandSpec::ErrorFormat(pattern@),
            Command::LineNumbers(pattern) => CommandSpec::LineNumbers(pattern@),
            Command::Book => CommandSpec::Book,
            Command::AddCss(file) => CommandSpec::AddCss(file@),
            Command::OverwriteCss(file) => CommandSpec::OverwriteCss(file@),
            Command::Colorscheme(file) => CommandSpec::Colorscheme(file@),
        }
    }
}

/// The letters that the name of a language and a file extension are made of.
pub open spec fn is_type_char(c: char) -> bool {
    ('A' <= c && c <= 'Z') || ('a' <= c && c <= 'z') || c == '_' || c == '-'
}

/// The first position from `i` on that holds no such letter.
pub open spec fn type_end(s: Seq<char>, i: int) -> int
    decreases s.len() - i,
{
    if 0 <= i < s.len() && is_type_char(s[i]) {
        type_end(s, i + 1)
    } else {
        i
    }
}

/// The first position from `i` on that holds no `s`.
pub open spec fn esses_end(s: Seq<char>, i: int) -> int
    decreases s.len() - i,
{
    if 0 <= i < s.len() && s[i] == 's' {
        esses_end(s, i + 1)
    } else {
        i
    }
}

/// Where the argument starts, if the keyword `keyword` stands at `i` and at
/// least one blank follows it.
pub open spec fn keyword_at(s: Seq<char>, i: int, keyword: Seq<char>) -> Option<int> {
    if starts_with_at(s, i, keyword) && i + keyword.len() < s.len() && is_blank(
        s[i + keyword.len()],
    ) {
        Some(skip_blanks(s, i + keyword.len()))
    } else {
        None
    }
}

/// The range of the argument of a command whose argument is the rest of the
/// line, which must not be empty.
pub open spec fn rest_of_line_at(s: Seq<char>, i: int, keyword: Seq<char>) -> Option<(int, int)> {
    match keyword_at(s, i, keyword) {
        Some(from) => if at_newline(s, from) {
            None
        } else {
            Some((from, line_end(s, from)))
        },
        None => None,
    }
}

/// The command `title` at `i`: a name follows.
pub open spec fn title_at(s: Seq<char>, i: int) -> Option<(CommandSpec, int)> {
    match keyword_at(s, i, "title"@) {
        Some(from) => match name_at(s, from, false) {
            Some(end) => Some((CommandSpec::Title(s.subrange(from, end)), end)),
            None => None,
        },
        None => None,
    }
}

/// A section command at `i`: one `s` or more, and a name if there is one.
/// Each `s` beyond the first puts the section one level deeper.
pub open spec fn section_at(s: Seq<char>, i: int) -> Option<(CommandSpec, int)> {
    let e = esses_end(s, i);
    if 0 <= i < e && e < s.len() && is_blank(s[e]) {
        let from = skip_blanks(s, e);
        let depth = (e - i - 1) as usize;
        match name_at(s, from, false) {
            Some(end) => Some(
                (CommandSpec::Section { name: Some(s.subrange(from, end)), depth }, end),
            ),
            None => Some((CommandSpec::Section { name: None, depth }, from)),
        }
    } else {
        None
    }
}

/// The command `code_type` at `i`: the name of a language, then a file
/// extension with its dot.
pub open spec fn code_type_at(s: Seq<char>, i: int) -> Option<(CommandSpec, int)> {
    match keyword_at(s, i, "code_type"@) {
        Some(from) => {
            let e = type_end(s, from);
            let dot = skip_blanks(s, e);
            let end = type_end(s, dot + 1);
            if from < e && 0 <= dot < s.len() && s[dot] == '.' && dot + 1 < end {
                Some(
                    (
                        CommandSpec::CodeType {
                            code_type: s.subrange(from, e),
                            file_extension: s.subrange(dot, end),
                        },
                        end,
                    ),
                )
            } else {
                None
            }
        },
        None => None,
    }
}

/// The command `book` at `i`.
pub open spec fn book_at(s: Seq<char>, i: int) -> Option<(CommandSpec, int)> {
    match keyword_at(s, i, "book"@) {
        Some(from) => Some((CommandSpec::Book, from)),
        None => None,
    }
}

/// Which command takes the rest of the line as its argument.
#[derive(Clone, Copy, PartialEq, Eq, Structural)]
pub enum RestCommand {
    CommentType,
    LineNumbers,
    Compiler,
    ErrorFormat,
    AddCss,
    OverwriteCss,
    Colorscheme,
}

impl RestCommand {
    /// The keyword of the command.
    pub open spec fn keyword(self) -> Seq<char> {
        match self {
            RestCommand::CommentType => "comment_type"@,
            RestCommand::LineNumbers => "line_numbers"@,
            RestCommand::Compiler => "compiler"@,
            RestCommand::ErrorFormat => "error_format"@,
            RestCommand::AddCss => "add_css"@,
            RestCommand::OverwriteCss => "overwrite_css"@,
            RestCommand::Colorscheme => "colorscheme"@,
        }
    }

    /// The command with `argument` as its argument.
    pub open spec fn with(self, argument: Seq<char>) -> CommandSpec {
        match self {
            RestCommand::CommentType => CommandSpec::CommentType(argument),
            RestCommand::LineNumbers => CommandSpec::LineNumbers(argument),
            RestCommand::Compiler => CommandSpec::Compiler(argument),
            RestCommand::ErrorFormat => CommandSpec::ErrorFormat(argument),
            RestCommand::AddCss => CommandSpec::AddCss(argument),
            RestCommand::OverwriteCss => CommandSpec::OverwriteCss(argument),
            RestCommand::Colorscheme => CommandSpec::Colorscheme(argument),
        }
    }
}

/// The command `which` at `i`: its keyword, and the rest of the line.
pub open spec fn rest_command_at(s: Seq<char>, i: int, which: RestCommand) -> Option<
    (CommandSpec, int),
> {
    match rest_of_line_at(s, i, which.keyword()) {
        Some((from, end)) => Some((which.with(s.subrange(from, end)), end)),
        None => None,
    }
}

/// The first of two readings that is one.
pub open spec fn or_else(
    first: Option<(CommandSpec, int)>,
    second: Option<(CommandSpec, int)>,
) -> Option<(CommandSpec, int)> {
    if first is Some {
        first
    } else {
        second
    }
}

/// The command that stands at `i`, and where it ends.
pub open spec fn command_at(s: Seq<char>, i: int) -> Option<(CommandSpec, int)> {
    or_else(
        title_at(s, i),
        or_else(
            section_at(s, i),
            or_else(
                code_type_at(s, i),
                or_else(
                    rest_command_at(s, i, RestCommand::CommentType),
                    or_else(
                        rest_command_at(s, i, RestCommand::LineNumbers),
                        or_else(
                            rest_command_at(s, i, RestCommand::Compiler),
                            or_else(
                                rest_command_at(s, i, RestCommand::ErrorFormat),
                                or_else(
                                    book_at(s, i),
                                    or_else(
                                        rest_command_at(s, i, RestCommand::AddCss),
                                        or_else(
                                            rest_command_at(s, i, RestCommand::OverwriteCss),
                                            rest_command_at(s, i, RestCommand::Colorscheme),
                                        ),
                                    ),
                                ),
                            ),
                        ),
                    ),
                ),
            ),
        ),
    )
}

/// Executable form of [`is_type_char`].
pub fn type_char(c: char) -> (b: bool)
    ensures
        b == is_type_char(c),
{
    ('A' <= c && c <= 'Z') || ('a' <= c && c <= 'z') || c == '_' || c == '-'
}

/// The first position from `i` on that holds no letter of a type name.
pub fn type_end_from(cs: &Vec<char>, i: usize) -> (j: usize)
    requires
        i <= cs.len(),
    ensures
        j == type_end(cs@, i as int),
        i <= j <= cs.len(),
{
    let mut j: usize = i;
    while j < cs.len() && type_char(cs[j])
        invariant
            i <= j <= cs.len(),
            type_end(cs@, i as int) == type_end(cs@, j as int),
        decreases cs.len() - j,
    {
        j += 1;
    }
    j
}

/// Where the argument starts, if `keyword` stands at `i` and a blank follows.
pub fn keyword_from(cs: &Vec<char>, i: usize, keyword: &str) -> (from: Option<usize>)
    requires
        i <= cs.len(),
    ensures
        from is Some <==> keyword_at(cs@, i as int, keyword@) is Some,
        from is Some ==> from.unwrap() == keyword_at(cs@, i as int, keyword@).unwrap()
            && from.unwrap() <= cs.len(),
{
    if !matches_at(cs, i, keyword) {
        return None;
    }
    let after = i + keyword.unicode_len();
    if after < cs.len() && blank(cs[after]) {
        Some(skip_blanks_from(cs, after))
    } else {
        None
    }
}

/// Reads the command `title` at `i`.
pub fn title_from<'a>(line: &'a str, cs: &Vec<char>, i: usize) -> (r: Option<(Command<'a>, usize)>)
    requires
        cs@ == line@,
        i <= cs.len(),
    ensures
        r is Some <==> title_at(line@, i as int) is Some,
        r is Some ==> r.unwrap().0@ == title_at(line@, i as int).unwrap().0 && r.unwrap().1
            == title_at(line@, i as int).unwrap().1 && r.unwrap().1 <= cs.len(),
{
    match keyword_from(cs, i, "title") {
        Some(from) => match name_from(cs, from, false) {
            Some(end) => Some((Command::Title(line.substring_char(from, end)), end)),
            None => None,
        },
        None => None,
    }
}

/// Reads a section command at `i`.
pub fn section_from<'a>(line: &'a str, cs: &Vec<char>, i: usize) -> (r: Option<
    (Command<'a>, usize),
>)
    requires
        cs@ == line@,
        i <= cs.len(),
    ensures
        r is Some <==> section_at(line@, i as int) is Some,
        r is Some ==> r.unwrap().0@ == section_at(line@, i as int).unwrap().0 && r.unwrap().1
            == section_at(line@, i as int).unwrap().1 && r.unwrap().1 <= cs.len(),
{
    let mut e: usize = i;
    while e < cs.len() && cs[e] == 's'
        invariant
            i <= e <= cs.len(),
            esses_end(cs@, i as int) == esses_end(cs@, e as int),
        decreases cs.len() - e,
    {
        e += 1;
    }
    if i < e && e < cs.len() && blank(cs[e]) {
        let from = skip_blanks_from(cs, e);
        let depth = e - i - 1;
        match name_from(cs, from, false) {
            Some(end) => Some(
                (Command::Section { name: Some(line.substring_char(from, end)), depth }, end),
            ),
            None => Some((Command::Section { name: None, depth }, from)),
        }
    } else {
        None
    }
}

/// Reads the command `code_type` at `i`.
pub fn code_type_from<'a>(line: &'a str, cs: &Vec<char>, i: usize) -> (r: Option<
    (Command<'a>, usize),
>)
    requires
        cs@ == line@,
        i <= cs.len(),
    ensures
        r is Some <==> code_type_at(line@, i as int) is Some,
        r is Some ==> r.unwrap().0@ == code_type_at(line@, i as int).unwrap().0 && r.unwrap().1
            == code_type_at(line@, i as int).unwrap().1 && r.unwrap().1 <= cs.len(),
{
    match keyword_from(cs, i, "code_type") {
        Some(from) => {
            let e = type_end_from(cs, from);
            let dot = skip_blanks_from(cs, e);
            if from < e && dot < cs.len() && cs[dot] == '.' {
                let end = type_end_from(cs, dot + 1);
                if dot + 1 < end {
                    return Some(
                        (
                            Command::CodeType {
                                code_type: line.substring_char(from, e),
                                file_extension: line.substring_char(dot, end),
                            },
                            end,
                        ),
                    );
                }
            }
            None
        },
        None => None,
    }
}

/// Reads the command `book` at `i`.
pub fn book_from<'a>(cs: &Vec<char>, i: usize) -> (r: Option<(Command<'a>, usize)>)
    requires
        i <= cs.len(),
    ensures
        r is Some <==> book_at(cs@, i as int) is Some,
        r is Some ==> r.unwrap().0@ == book_at(cs@, i as int).unwrap().0 && r.unwrap().1
            == book_at(cs@, i as int).unwrap().1 && r.unwrap().1 <= cs.len(),
{
    match keyword_from(cs, i, "book") {
        Some(from) => Some((Command::Book, from)),
        None => None,
    }
}

impl RestCommand {
    /// The keyword of the command.
    pub fn name(self) -> (keyword: &'static str)
        ensures
            keyword@ == self.keyword(),
    {
        match self {
            RestCommand::CommentType => "comment_type",
            RestCommand::LineNumbers => "line_numbers",
            RestCommand::Compiler => "compiler",
            RestCommand::ErrorFormat => "error_format",
            RestCommand::AddCss => "add_css",
            RestCommand::OverwriteCss => "overwrite_css",
            RestCommand::Colorscheme => "colorscheme",
        }
    }

    /// The command with `argument` as its argument.
    pub fn command<'a>(self, argument: &'a str) -> (command: Command<'a>)
        ensures
            command@ == self.with(argument@),
    {
        match self {
            RestCommand::CommentType => Command::CommentType(argument),
            RestCommand::LineNumbers => Command::LineNumbers(argument),
            RestCommand::Compiler => Command::Compiler(argument),
            RestCommand::ErrorFormat => Command::ErrorFormat(argument),
            RestCommand::AddCss => Command::AddCss(argument),
            RestCommand::OverwriteCss => Command::OverwriteCss(argument),
            RestCommand::Colorscheme => Command::Colorscheme(argument),
        }
    }
}

/// Reads the command `which` at `i`.
pub fn rest_command_from<'a>(line: &'a str, cs: &Vec<char>, i: usize, which: RestCommand) -> (r:
    Option<(Command<'a>, usize)>)
    requires
        cs@ == line@,
        i <= cs.len(),
    ensures
        r is Some <==> rest_command_at(line@, i as int, which) is Some,
        r is Some ==> r.unwrap().0@ == rest_command_at(line@, i as int, which).unwrap().0
            && r.unwrap().1 == rest_command_at(line@, i as int, which).unwrap().1 && r.unwrap().1
            <= cs.len(),
{
    match keyword_from(cs, i, which.name()) {
        Some(from) => {
            if newline_at(cs, from) {
                None
            } else {
                let end = line_end_from(cs, from);
                Some((which.command(line.substring_char(from, end)), end))
            }
        },
        None => None,
    }
}

/// Reads the command that stands at `i`.
pub fn command_from<'a>(line: &'a str, cs: &Vec<char>, i: usize) -> (r: Option<
    (Command<'a>, usize),
>)
    requires
        cs@ == line@,
        i <= cs.len(),
    ensures
        r is Some <==> command_at(line@, i as int) is Some,
        r is Some ==> r.unwrap().0@ == command_at(line@, i as int).unwrap().0 && r.unwrap().1
            == command_at(line@, i as int).unwrap().1 && r.unwrap().1 <= cs.len(),
{
    let r = title_from(line, cs, i);
    if r.is_some() {
        return r;
    }
    let r = section_from(line, cs, i);
    if r.is_some() {
        return r;
    }
    let r = code_type_from(line, cs, i);
    if r.is_some() {
        return r;
    }
    let r = rest_command_from(line, cs, i, RestCommand::CommentType);
    if r.is_some() {
        return r;
    }
    let r = rest_command_from(line, cs, i, RestCommand::LineNumbers);
    if r.is_some() {
        return r;
    }
    let r = rest_command_from(line, cs, i, RestCommand::Compiler);
    if r.is_some() {
        return r;
    }
    let r = rest_command_from(line, cs, i, RestCommand::ErrorFormat);
    if r.is_some() {
        return r;
    }
    let r = book_from(cs, i);
    if r.is_some() {
        return r;
    }
    let r = rest_command_from(line, cs, i, RestCommand::AddCss);
    if r.is_some() {
        return r;
    }
    let r = rest_command_from(line, cs, i, RestCommand::OverwriteCss);
    if r.is_some() {
        return r;
    }
    rest_command_from(line, cs, i, RestCommand::Colorscheme)
}

/// The modifier that stands at `i`, as its bit, and where it ends.
pub open spec fn mod_at(s: Seq<char>, i: int) -> Option<(u32, int)> {
    if starts_with_at(s, i, "+="@) {
        Some((APPEND, i + "+="@.len()))
    } else if starts_with_at(s, i, "-="@) {
        Some((REDEF, i + "-="@.len()))
    } else if starts_with_at(s, i, "noTangle"@) {
        Some((NOTANGLE, i + "noTangle"@.len()))
    } else if starts_with_at(s, i, "noWeave"@) {
        Some((NOWEAVE, i + "noWeave"@.len()))
    } else if starts_with_at(s, i, "noHeader"@) {
        Some((NOHEADER, i + "noHeader"@.len()))
    } else {
        None
    }
}

/// The modifiers that follow the modifiers `bits`, which end at `end`: each
/// stands after at least one blank. Gives all the bits and where the last
/// modifier ends.
pub open spec fn more_mods(s: Seq<char>, end: int, bits: u32) -> (u32, int)
    decreases s.len() - end,
{
    let next = skip_blanks(s, end);
    if 0 <= end < next {
        match mod_at(s, next) {
            Some((bit, after)) => more_mods(s, after, bits | bit),
            None => (bits, end),
        }
    } else {
        (bits, end)
    }
}

/// The modifiers of a block header at `i`: `+=`, or `-=`, or `---` and a
/// list of modifiers.
pub open spec fn modifier_at(s: Seq<char>, i: int) -> Option<(u32, int)> {
    if starts_with_at(s, i, "+="@) {
        Some((APPEND, i + "+="@.len()))
    } else if starts_with_at(s, i, "-="@) {
        Some((REDEF, i + "-="@.len()))
    } else if starts_with_at(s, i, "---"@) {
        match mod_at(s, skip_blanks(s, i + "---"@.len())) {
            Some((bit, after)) => Some(more_mods(s, after, bit)),
            None => None,
        }
    } else {
        None
    }
}

/// A block header at the start of `s`: `---`, the name of the block, and
/// modifiers if there are any. Gives the range of the name, the bits of the
/// modifiers, and where the header with its comment ends.
pub open spec fn header_at(s: Seq<char>) -> Option<(int, int, u32, int)> {
    if starts_with_at(s, 0, "---"@) {
        let from = skip_blanks(s, "---"@.len() as int);
        match name_at(s, from, true) {
            Some(end) => {
                let next = skip_blanks(s, end);
                match modifier_at(s, next) {
                    Some((bits, after)) => Some((from, end, bits, tail_end(s, after))),
                    None => Some((from, end, 0u32, tail_end(s, next))),
                }
            },
            None => None,
        }
    } else {
        None
    }
}

/// What a line is before it is known whether a block of code is open.
pub enum PartialLitLine<'a> {
    CodeBlockStart(&'a str, BlockModifier),
    CodeBlockEnd,
    Line(&'a str),
}

/// A [`PartialLitLine`] as the contracts see it.
pub enum PartialLineSpec {
    CodeBlockStart(Seq<char>, BlockModifier),
    CodeBlockEnd,
    Line(Seq<char>),
}

impl<'a> View for PartialLitLine<'a> {
    type V = PartialLineSpec;

    open spec fn view(&self) -> PartialLineSpec {
        match self {
            PartialLitLine::CodeBlockStart(name, modifiers) => PartialLineSpec::CodeBlockStart(
                name@,
                *modifiers,
            ),
            PartialLitLine::CodeBlockEnd => PartialLineSpec::CodeBlockEnd,
            PartialLitLine::Line(line) => PartialLineSpec::Line(line@),
        }
    }
}

/// What the line `s` is: the start of a block where a header fills it, the
/// end of a block where `---` and a comment fill it, and else a plain line.
/// `None` where a header or `---` stands at the start but does not fill the
/// line, and where the line holds a line break.
pub open spec fn partial_line_spec(s: Seq<char>) -> Option<PartialLineSpec> {
    match header_at(s) {
        Some((from, end, bits, after)) => if after == s.len() {
            Some(PartialLineSpec::CodeBlockStart(s.subrange(from, end), BlockModifier { bits }))
        } else {
            None
        },
        None => if starts_with_at(s, 0, "---"@) {
            if tail_end(s, "---"@.len() as int) == s.len() {
                Some(PartialLineSpec::CodeBlockEnd)
            } else {
                None
            }
        } else if line_end(s, 0) == s.len() {
            Some(PartialLineSpec::Line(s))
        } else {
            None
        },
    }
}

/// A line outside a block of code.
pub enum LitLine<'a> {
    Command(Command<'a>),
    Chapter { title: &'a str, file_name: &'a str },
    Prose(&'a str),
}

/// A [`LitLine`] as the contracts see it.
pub enum LitLineSpec {
    Command(CommandSpec),
    Chapter { title: Seq<char>, file_name: Seq<char> },
    Prose(Seq<char>),
}

impl<'a> View for LitLine<'a> {
    type V = LitLineSpec;

    open spec fn view(&self) -> LitLineSpec {
        match self {
            LitLine::Command(command) => LitLineSpec::Command(command@),
            LitLine::Chapter { title, file_name } => LitLineSpec::Chapter {
                title: title@,
                file_name: file_name@,
            },
            LitLine::Prose(line) => LitLineSpec::Prose(line@),
        }
    }
}

/// Where prose that starts at `i` ends: at a comment and at the end of the
/// line.
pub open spec fn prose_end(s: Seq<char>, i: int) -> int
    decreases s.len() - i,
{
    if at_newline(s, i) || starts_with_at(s, i, "//"@) {
        i
    } else {
        prose_end(s, i + 1)
    }
}

/// What the line `s` says outside a block of code: a command where it
/// starts with `@`, and else prose, without the comment at its end. `None`
/// where `@` is followed by no command, where a command does not fill the
/// line, and where the line holds a line break.
///
/// No line is read as the link to a chapter: the file name of such a link
/// would run up to the next `(`, so that no `)` could close it.
pub open spec fn lit_line_spec(s: Seq<char>) -> Option<LitLineSpec> {
    if s.len() > 0 && s[0] == '@' {
        match command_at(s, 1) {
            Some((command, end)) => if tail_end(s, end) == s.len() {
                Some(LitLineSpec::Command(command))
            } else {
                None
            },
            None => None,
        }
    } else {
        let end = prose_end(s, 0);
        if tail_end(s, end) == s.len() {
            Some(LitLineSpec::Prose(s.subrange(0, end)))
        } else {
            None
        }
    }
}

/// Reads the modifier that stands at `i`.
pub fn mod_from(cs: &Vec<char>, i: usize) -> (r: Option<(u32, usize)>)
    requires
        i <= cs.len(),
    ensures
        r is Some <==> mod_at(cs@, i as int) is Some,
        r is Some ==> r.unwrap().0 == mod_at(cs@, i as int).unwrap().0 && r.unwrap().1 == mod_at(
            cs@,
            i as int,
        ).unwrap().1 && i < r.unwrap().1 <= cs.len(),
{
    proof {
        reveal_strlit("+=");
        reveal_strlit("-=");
        reveal_strlit("noTangle");
        reveal_strlit("noWeave");
        reveal_strlit("noHeader");
    }
    if matches_at(cs, i, "+=") {
        Some((APPEND, i + 2))
    } else if matches_at(cs, i, "-=") {
        Some((REDEF, i + 2))
    } else if matches_at(cs, i, "noTangle") {
        Some((NOTANGLE, i + 8))
    } else if matches_at(cs, i, "noWeave") {
        Some((NOWEAVE, i + 7))
    } else if matches_at(cs, i, "noHeader") {
        Some((NOHEADER, i + 8))
    } else {
        None
    }
}

/// Reads the modifiers of a block header at `i`.
pub fn modifier_from(cs: &Vec<char>, i: usize) -> (r: Option<(u32, usize)>)
    requires
        i <= cs.len(),
    ensures
        r is Some <==> modifier_at(cs@, i as int) is Some,
        r is Some ==> r.unwrap().0 == modifier_at(cs@, i as int).unwrap().0 && r.unwrap().1
            == modifier_at(cs@, i as int).unwrap().1 && r.unwrap().1 <= cs.len(),
{
    proof {
        reveal_strlit("+=");
        reveal_strlit("-=");
        reveal_strlit("---");
    }
    if matches_at(cs, i, "+=") {
        Some((APPEND, i + 2))
    } else if matches_at(cs, i, "-=") {
        Some((REDEF, i + 2))
    } else if matches_at(cs, i, "---") {
        let first = skip_blanks_from(cs, i + 3);
        match mod_from(cs, first) {
            Some((bit, after)) => {
                let mut bits: u32 = bit;
                let mut end: usize = after;
                let mut more: bool = true;
                while more
                    invariant
                        end <= cs.len(),
                        more_mods(cs@, after as int, bit) == more_mods(cs@, end as int, bits),
                        !more ==> more_mods(cs@, end as int, bits) == (bits, end as int),
                    decreases
                            cs.len() - end + (if more {
                                1int
                            } else {
                                0int
                            }),
                {
                    let next = skip_blanks_from(cs, end);
                    if next > end {
                        match mod_from(cs, next) {
                            Some((bit, after)) => {
                                bits = bits | bit;
                                end = after;
                            },
                            None => {
                                more = false;
                            },
                        }
                    } else {
                        more = false;
                    }
                }
                Some((bits, end))
            },
            None => None,
        }
    } else {
        None
    }
}

/// What the line is before it is known whether a block of code is open.
pub fn partial_line<'a>(line: &'a str) -> (r: Option<PartialLitLine<'a>>)
    ensures
        r is Some <==> partial_line_spec(line@) is Some,
        r is Some ==> r.unwrap()@ == partial_line_spec(line@).unwrap(),
{
    let cs = chars_of(line);
    proof {
        reveal_strlit("---");
    }
    if matches_at(&cs, 0, "---") {
        let from = skip_blanks_from(&cs, 3);
        match name_from(&cs, from, true) {
            Some(end) => {
                let next = skip_blanks_from(&cs, end);
                let (bits, after) = match modifier_from(&cs, next) {
                    Some((bits, after)) => (bits, after),
                    None => (0u32, next),
                };
                if tail_end_from(&cs, after) == cs.len() {
                    Some(
                        PartialLitLine::CodeBlockStart(
                            line.substring_char(from, end),
                            BlockModifier::from_bits(bits),
                        ),
                    )
                } else {
                    None
                }
            },
            None => {
                if tail_end_from(&cs, 3) == cs.len() {
                    Some(PartialLitLine::CodeBlockEnd)
                } else {
                    None
                }
            },
        }
    } else if line_end_from(&cs, 0) == cs.len() {
        Some(PartialLitLine::Line(line))
    } else {
        None
    }
}

/// What the line says outside a block of code.
pub fn lit_line<'a>(line: &'a str) -> (r: Option<LitLine<'a>>)
    ensures
        r is Some <==> lit_line_spec(line@) is Some,
        r is Some ==> r.unwrap()@ == lit_line_spec(line@).unwrap(),
{
    let cs = chars_of(line);
    if cs.len() > 0 && cs[0] == '@' {
        match command_from(line, &cs, 1) {
            Some((command, end)) => {
                if tail_end_from(&cs, end) == cs.len() {
                    Some(LitLine::Command(command))
                } else {
                    None
                }
            },
            None => None,
        }
    } else {
        let mut end: usize = 0;
        while !(newline_at(&cs, end) || matches_at(&cs, end, "//"))
            invariant
                end <= cs.len(),
                cs@ == line@,
                prose_end(cs@, 0) == prose_end(cs@, end as int),
            decreases cs.len() - end,
        {
            end += 1;
        }
        if tail_end_from(&cs, end) == cs.len() {
            Some(LitLine::Prose(line.substring_char(0, end)))
        } else {
            None
        }
    }
}

/// A block of code as it stands in a document.
pub struct CodeBlock<'a> {
    pub block_name: &'a str,
    pub modifiers: BlockModifier,
    pub contents: Vec<&'a str>,
}

/// A unit of a document: a command, the link to a chapter, a block of code,
/// or the lines of prose between two of these.
pub enum LitBlock<'a> {
    Command(Command<'a>),
    Chapter { title: &'a str, file_name: &'a str },
    Code(CodeBlock<'a>),
    Prose(Vec<&'a str>),
}

/// A [`LitBlock`] as the contracts see it.
pub enum LitBlockSpec {
    Command(CommandSpec),
    Chapter { title: Seq<char>, file_name: Seq<char> },
    Code { block_name: Seq<char>, modifiers: BlockModifier, contents: Seq<Seq<char>> },
    Prose(Seq<Seq<char>>),
}

impl<'a> View for LitBlock<'a> {
    type V = LitBlockSpec;

    open spec fn view(&self) -> LitBlockSpec {
        match self {
            LitBlock::Command(command) => LitBlockSpec::Command(command@),
            LitBlock::Chapter { title, file_name } => LitBlockSpec::Chapter {
                title: title@,
                file_name: file_name@,
            },
            LitBlock::Code(code) => LitBlockSpec::Code {
                block_name: code.block_name@,
                modifiers: code.modifiers,
                contents: views(code.contents@),
            },
            LitBlock::Prose(lines) => LitBlockSpec::Prose(views(lines@)),
        }
    }
}

/// The units of a list, as the contracts see them.
pub open spec fn lit_block_views<'a>(blocks: Seq<LitBlock<'a>>) -> Seq<LitBlockSpec> {
    Seq::new(blocks.len(), |i: int| blocks[i]@)
}

/// The lines of a list, as the contracts see them.
pub open spec fn partial_line_views<'a>(lines: Seq<PartialLitLine<'a>>) -> Seq<PartialLineSpec> {
    Seq::new(lines.len(), |i: int| lines[i]@)
}

/// How far the reading of a document has come: the units that are complete,
/// the prose gathered since the last of them, and the block of code that is
/// open, if one is.
pub struct Progress {
    pub blocks: Seq<LitBlockSpec>,
    pub prose: Seq<Seq<char>>,
    pub code: Option<(Seq<char>, BlockModifier, Seq<Seq<char>>)>,
}

/// What is wrong with a line.
pub enum Defect {
    /// The line fits no rule of the grammar.
    Grammar,
    /// The line opens a block inside a block, or closes one where none is open.
    Format,
}

/// The reading of a document before its first line.
pub open spec fn no_progress() -> Progress {
    Progress { blocks: Seq::empty(), prose: Seq::empty(), code: None }
}

/// The progress with the gathered prose made a unit, whether or not any
/// prose was gathered, and `unit` behind it.
pub open spec fn closed_with(progress: Progress, unit: LitBlockSpec) -> Progress {
    Progress {
        blocks: progress.blocks.push(LitBlockSpec::Prose(progress.prose)).push(unit),
        prose: Seq::empty(),
        code: progress.code,
    }
}

/// The progress once one more line is read.
///
/// Inside a block of code every plain line is a line of the block. Outside,
/// a plain line is a command or a line of prose; a command ends the prose
/// gathered so far, and so does the start of a block.
pub open spec fn step(progress: Progress, line: PartialLineSpec) -> Result<Progress, Defect> {
    match line {
        PartialLineSpec::CodeBlockStart(name, modifiers) => if progress.code is Some {
            Err(Defect::Format)
        } else {
            Ok(
                Progress {
                    blocks: progress.blocks.push(LitBlockSpec::Prose(progress.prose)),
                    prose: Seq::empty(),
                    code: Some((name, modifiers, Seq::empty())),
                },
            )
        },
        PartialLineSpec::CodeBlockEnd => match progress.code {
            Some((block_name, modifiers, contents)) => Ok(
                Progress {
                    blocks: progress.blocks.push(
                        LitBlockSpec::Code { block_name, modifiers, contents },
                    ),
                    prose: progress.prose,
                    code: None,
                },
            ),
            None => Err(Defect::Format),
        },
        PartialLineSpec::Line(text) => match progress.code {
            Some((block_name, modifiers, contents)) => Ok(
                Progress {
                    blocks: progress.blocks,
                    prose: progress.prose,
                    code: Some((block_name, modifiers, contents.push(text))),
                },
            ),
            None => match lit_line_spec(text) {
                Some(LitLineSpec::Command(command)) => Ok(
                    closed_with(progress, LitBlockSpec::Command(command)),
                ),
                Some(LitLineSpec::Chapter { title, file_name }) => Ok(
                    closed_with(progress, LitBlockSpec::Chapter { title, file_name }),
                ),
                Some(LitLineSpec::Prose(prose)) => Ok(
                    Progress {
                        blocks: progress.blocks,
                        prose: progress.prose.push(prose),
                        code: progress.code,
                    },
                ),
                None => Err(Defect::Grammar),
            },
        },
    }
}

/// The progress once all of `lines` are read, or the first defect with the
/// position of its line.
pub open spec fn progress_of(lines: Seq<PartialLineSpec>) -> Result<Progress, (Defect, int)>
    decreases lines.len(),
{
    if lines.len() == 0 {
        Ok(no_progress())
    } else {
        match progress_of(lines.drop_last()) {
            Ok(progress) => match step(progress, lines.last()) {
                Ok(next) => Ok(next),
                Err(defect) => Err((defect, lines.len() - 1)),
            },
            Err(e) => Err(e),
        }
    }
}

/// The units that `lines` make. A block of code that is still open at the
/// end is complete; prose that nothing follows is not kept.
pub open spec fn blocks_of(lines: Seq<PartialLineSpec>) -> Result<Seq<LitBlockSpec>, (Defect, int)> {
    match progress_of(lines) {
        Ok(progress) => Ok(
            match progress.code {
                Some((block_name, modifiers, contents)) => progress.blocks.push(
                    LitBlockSpec::Code { block_name, modifiers, contents },
                ),
                None => progress.blocks,
            },
        ),
        Err(e) => Err(e),
    }
}

/// Whether `error` reports the defect `defect` of the line at `position`.
pub open spec fn reports(error: ParseError, defect: Defect, position: int) -> bool {
    match defect {
        Defect::Grammar => error is GrammarError && error->GrammarError_0 == position + 1,
        Defect::Format => error is FormatError,
    }
}

/// Gathers lines into the units of a document.
pub fn parse_lines<'a>(lines: Vec<PartialLitLine<'a>>) -> (r: Result<Vec<LitBlock<'a>>, ParseError>)
    ensures
        match r {
            Ok(blocks) => blocks_of(partial_line_views(lines@)) == Ok::<
                Seq<LitBlockSpec>,
                (Defect, int),
            >(lit_block_views(blocks@)),
            Err(e) => {
                &&& blocks_of(partial_line_views(lines@)) is Err
                &&& reports(
                    e,
                    blocks_of(partial_line_views(lines@))->Err_0.0,
                    blocks_of(partial_line_views(lines@))->Err_0.1,
                )
            },
        },
{
    let ghost all = partial_line_views(lines@);
    let mut blocks: Vec<LitBlock<'a>> = Vec::new();
    let mut prose_lines: Vec<&'a str> = Vec::new();
    let mut in_code: bool = false;
    let mut code_name: &'a str = "";
    let mut code_modifiers: BlockModifier = BlockModifier::empty();
    let mut code_lines: Vec<&'a str> = Vec::new();
    let mut i: usize = 0;
    proof {
        assert(lit_block_views(blocks@) =~= Seq::<LitBlockSpec>::empty());
        assert(views(prose_lines@) =~= Seq::<Seq<char>>::empty());
    }
    while i < lines.len()
        invariant
            i <= lines.len(),
            all == partial_line_views(lines@),
            progress_of(all.take(i as int)) == Ok::<Progress, (Defect, int)>(
                Progress {
                    blocks: lit_block_views(blocks@),
                    prose: views(prose_lines@),
                    code: if in_code {
                        Some((code_name@, code_modifiers, views(code_lines@)))
                    } else {
                        None
                    },
                },
            ),
        decreases lines.len() - i,
    {
        let ghost before = progress_of(all.take(i as int))->Ok_0;
        let ghost old_blocks = blocks@;
        let ghost old_prose = prose_lines@;
        let ghost old_code = code_lines@;
        proof {
            assert(all.take(i + 1).drop_last() =~= all.take(i as int));
            assert(all.take(i + 1).last() == lines@[i as int]@);
            assert(all.take(i + 1) + all.skip(i + 1) =~= all);
            if progress_of(all.take(i + 1)) is Err {
                lemma_progress_defect(all.take(i + 1), all.skip(i + 1));
            }
        }
        match &lines[i] {
            PartialLitLine::CodeBlockStart(name, modifiers) => {
                if in_code {
                    return Err(ParseError::FormatError);
                }
                let mut prose: Vec<&'a str> = Vec::new();
                std::mem::swap(&mut prose, &mut prose_lines);
                blocks.push(LitBlock::Prose(prose));
                in_code = true;
                code_name = *name;
                code_modifiers = *modifiers;
                code_lines = Vec::new();
                proof {
                    assert(lit_block_views(blocks@) =~= lit_block_views(old_blocks).push(
                        LitBlockSpec::Prose(views(old_prose)),
                    ));
                    assert(views(prose_lines@) =~= Seq::<Seq<char>>::empty());
                    assert(views(code_lines@) =~= Seq::<Seq<char>>::empty());
                }
            },
            PartialLitLine::CodeBlockEnd => {
                if !in_code {
                    return Err(ParseError::FormatError);
                }
                let mut contents: Vec<&'a str> = Vec::new();
                std::mem::swap(&mut contents, &mut code_lines);
                blocks.push(
                    LitBlock::Code(
                        CodeBlock { block_name: code_name, modifiers: code_modifiers, contents },
                    ),
                );
                in_code = false;
                proof {
                    assert(lit_block_views(blocks@) =~= lit_block_views(old_blocks).push(
                        LitBlockSpec::Code {
                            block_name: code_name@,
                            modifiers: code_modifiers,
                            contents: views(old_code),
                        },
                    ));
                }
            },
            PartialLitLine::Line(text) => {
                if in_code {
                    proof {
                        lemma_views_push(old_code, *text);
                    }
                    code_lines.push(*text);
                } else {
                    match lit_line(*text) {
                        Some(LitLine::Command(command)) => {
                            let mut prose: Vec<&'a str> = Vec::new();
                            std::mem::swap(&mut prose, &mut prose_lines);
                            blocks.push(LitBlock::Prose(prose));
                            blocks.push(LitBlock::Command(command));
                            proof {
                                assert(lit_block_views(blocks@) =~= lit_block_views(
                                    old_blocks,
                                ).push(LitBlockSpec::Prose(views(old_prose))).push(
                                    LitBlockSpec::Command(command@),
                                ));
                                assert(views(prose_lines@) =~= Seq::<Seq<char>>::empty());
                            }
                        },
                        Some(LitLine::Chapter { title, file_name }) => {
                            let mut prose: Vec<&'a str> = Vec::new();
                            std::mem::swap(&mut prose, &mut prose_lines);
                            blocks.push(LitBlock::Prose(prose));
                            blocks.push(LitBlock::Chapter { title, file_name });
                            proof {
                                assert(lit_block_views(blocks@) =~= lit_block_views(
                                    old_blocks,
                                ).push(LitBlockSpec::Prose(views(old_prose))).push(
                                    LitBlockSpec::Chapter { title: title@, file_name: file_name@ },
                                ));
                                assert(views(prose_lines@) =~= Seq::<Seq<char>>::empty());
                            }
                        },
                        Some(LitLine::Prose(prose)) => {
                            proof {
                                lemma_views_push(old_prose, prose);
                            }
                            prose_lines.push(prose);
                        },
                        None => {
                            return Err(ParseError::GrammarError(i + 1));
                        },
                    }
                }
            },
        }
        i += 1;
    }
    proof {
        assert(all.take(lines.len() as int) =~= all);
    }
    if in_code {
        let ghost old_blocks = blocks@;
        blocks.push(
            LitBlock::Code(
                CodeBlock { block_name: code_name, modifiers: code_modifiers, contents: code_lines },
            ),
        );
        proof {
            assert(lit_block_views(blocks@) =~= lit_block_views(old_blocks).push(
                LitBlockSpec::Code {
                    block_name: code_name@,
                    modifiers: code_modifiers,
                    contents: views(code_lines@),
                },
            ));
        }
    }
    Ok(blocks)
}

/// A defect among the first lines of a document is the defect of the
/// document.
pub proof fn lemma_progress_defect(first: Seq<PartialLineSpec>, rest: Seq<PartialLineSpec>)
    requires
        progress_of(first) is Err,
    ensures
        progress_of(first + rest) == progress_of(first),
    decreases rest.len(),
{
    if rest.len() == 0 {
        assert(first + rest =~= first);
    } else {
        assert((first + rest).drop_last() =~= first + rest.drop_last());
        lemma_progress_defect(first, rest.drop_last());
    }
}

/// The first position from `i` on that holds a line feed, or the end of `s`.
pub open spec fn feed_from(s: Seq<char>, i: int) -> int
    decreases s.len() - i,
{
    if i < 0 || i >= s.len() || s[i] == '\n' {
        i
    } else {
        feed_from(s, i + 1)
    }
}

pub proof fn lemma_feed_from_bounds(s: Seq<char>, i: int)
    requires
        0 <= i <= s.len(),
    ensures
        i <= feed_from(s, i) <= s.len(),
    decreases s.len() - i,
{
    if i < s.len() && s[i] != '\n' {
        lemma_feed_from_bounds(s, i + 1);
    }
}

/// The line that stands in `from..feed`, where `feed` holds a line feed: a
/// carriage return just before the line feed is no part of the line.
pub open spec fn line_before_feed(s: Seq<char>, from: int, feed: int) -> Seq<char> {
    if from < feed && s[feed - 1] == '\r' {
        s.subrange(from, feed - 1)
    } else {
        s.subrange(from, feed)
    }
}

/// The lines of `s` from position `i` on. A line ends at a line feed; what
/// follows the last line feed is a line if it is not empty.
pub open spec fn lines_from(s: Seq<char>, i: int) -> Seq<Seq<char>>
    decreases s.len() - i,
{
    if i < 0 || i >= s.len() {
        Seq::empty()
    } else {
        let feed = feed_from(s, i);
        if feed >= s.len() {
            seq![s.subrange(i, s.len() as int)]
        } else {
            proof {
                lemma_feed_from_bounds(s, i);
            }
            seq![line_before_feed(s, i, feed)] + lines_from(s, feed + 1)
        }
    }
}

/// The lines of a document.
pub open spec fn lines_of(s: Seq<char>) -> Seq<Seq<char>> {
    lines_from(s, 0)
}

/// No line feed stands before the first line feed.
pub proof fn lemma_feed_is_first(s: Seq<char>, i: int, j: int)
    requires
        0 <= i <= j < feed_from(s, i),
        feed_from(s, i) <= s.len(),
    ensures
        s[j] != '\n',
    decreases j - i,
{
    if i < j {
        lemma_feed_is_first(s, i + 1, j);
    }
}

/// From any position on, no line of a document holds a line feed.
pub proof fn lemma_lines_from_hold_no_feed(s: Seq<char>, i: int)
    requires
        0 <= i <= s.len(),
    ensures
        forall|k: int|
            0 <= k < lines_from(s, i).len() ==> !(#[trigger] lines_from(s, i)[k]).contains('\n'),
    decreases s.len() - i,
{
    if i < s.len() {
        let feed = feed_from(s, i);
        lemma_feed_from_bounds(s, i);
        let first = if feed >= s.len() {
            s.subrange(i, s.len() as int)
        } else {
            line_before_feed(s, i, feed)
        };
        assert forall|j: int| 0 <= j < first.len() implies first[j] != '\n' by {
            lemma_feed_is_first(s, i, i + j);
        }
        if feed < s.len() {
            lemma_lines_from_hold_no_feed(s, feed + 1);
            let rest = lines_from(s, feed + 1);
            assert forall|k: int| 0 <= k < lines_from(s, i).len() implies !(#[trigger] lines_from(
                s,
                i,
            )[k]).contains('\n') by {
                if k > 0 {
                    assert(lines_from(s, i)[k] == rest[k - 1]);
                }
            }
        }
    }
}

/// No line of a document holds a line feed.
pub proof fn lemma_lines_hold_no_feed(s: Seq<char>)
    ensures
        forall|k: int| 0 <= k < lines_of(s).len() ==> !(#[trigger] lines_of(s)[k]).contains('\n'),
{
    lemma_lines_from_hold_no_feed(s, 0);
}

/// Splits a document into its lines.
pub fn split_lines<'a>(input: &'a str) -> (lines: Vec<&'a str>)
    ensures
        views(lines@) == lines_of(input@),
{
    let cs = chars_of(input);
    let n = cs.len();
    let mut lines: Vec<&'a str> = Vec::new();
    let mut i: usize = 0;
    proof {
        assert(views(lines@) + lines_from(input@, 0) =~= lines_from(input@, 0));
    }
    while i < n
        invariant
            n == cs.len(),
            cs@ == input@,
            i <= n,
            lines_of(input@) == views(lines@) + lines_from(input@, i as int),
        decreases n - i,
    {
        let mut feed: usize = i;
        while feed < n && cs[feed] != '\n'
            invariant
                n == cs.len(),
                cs@ == input@,
                i <= feed <= n,
                feed_from(input@, i as int) == feed_from(input@, feed as int),
            decreases n - feed,
        {
            feed += 1;
        }
        let ghost before = lines@;
        let ghost rest = lines_from(input@, feed + 1);
        if feed >= n {
            let line = input.substring_char(i, n);
            proof {
                lemma_views_push(before, line);
                assert(views(before).push(line@) + lines_from(input@, n as int) =~= views(before)
                    + seq![line@]);
            }
            lines.push(line);
            i = n;
        } else {
            let end = if i < feed && cs[feed - 1] == '\r' {
                feed - 1
            } else {
                feed
            };
            let line = input.substring_char(i, end);
            proof {
                lemma_views_push(before, line);
                assert(views(before).push(line@) + rest =~= views(before) + (seq![line@] + rest));
            }
            lines.push(line);
            i = feed + 1;
        }
    }
    proof {
        assert(views(lines@) + lines_from(input@, n as int) =~= views(lines@));
    }
    lines
}

/// What the lines `lines` are before it is known where blocks of code are
/// open, or the position of the first line that fits no rule.
pub open spec fn partial_lines_of(lines: Seq<Seq<char>>) -> Result<Seq<PartialLineSpec>, int>
    decreases lines.len(),
{
    if lines.len() == 0 {
        Ok(Seq::empty())
    } else {
        match partial_lines_of(lines.drop_last()) {
            Ok(first) => match partial_line_spec(lines.last()) {
                Some(line) => Ok(first.push(line)),
                None => Err(lines.len() - 1),
            },
            Err(position) => Err(position),
        }
    }
}

/// A line among the first lines that fits no rule is the first such line of
/// the document.
pub proof fn lemma_partial_lines_defect(first: Seq<Seq<char>>, rest: Seq<Seq<char>>)
    requires
        partial_lines_of(first) is Err,
    ensures
        partial_lines_of(first + rest) == partial_lines_of(first),
    decreases rest.len(),
{
    if rest.len() == 0 {
        assert(first + rest =~= first);
    } else {
        assert((first + rest).drop_last() =~= first + rest.drop_last());
        lemma_partial_lines_defect(first, rest.drop_last());
    }
}

/// The units of the document `s`, or its first defect with the position of
/// the line that has it. Lines that fit no rule as they stand are looked for
/// first.
pub open spec fn lit_file_spec(s: Seq<char>) -> Result<Seq<LitBlockSpec>, (Defect, int)> {
    match partial_lines_of(lines_of(s)) {
        Ok(lines) => blocks_of(lines),
        Err(position) => Err((Defect::Grammar, position)),
    }
}

/// Reads every line of a document by itself.
pub fn partial_lines<'a>(input: &'a str) -> (r: Result<Vec<PartialLitLine<'a>>, ParseError>)
    ensures
        match r {
            Ok(lines) => partial_lines_of(lines_of(input@)) == Ok::<Seq<PartialLineSpec>, int>(
                partial_line_views(lines@),
            ),
            Err(e) => {
                &&& partial_lines_of(lines_of(input@)) is Err
                &&& reports(e, Defect::Grammar, partial_lines_of(lines_of(input@))->Err_0)
            },
        },
{
    let lines = split_lines(input);
    let ghost all = views(lines@);
    let mut partial_lines: Vec<PartialLitLine<'a>> = Vec::new();
    let mut i: usize = 0;
    proof {
        assert(partial_line_views(partial_lines@) =~= Seq::<PartialLineSpec>::empty());
    }
    while i < lines.len()
        invariant
            i <= lines.len(),
            all == views(lines@),
            all == lines_of(input@),
            partial_lines_of(all.take(i as int)) == Ok::<Seq<PartialLineSpec>, int>(
                partial_line_views(partial_lines@),
            ),
        decreases lines.len() - i,
    {
        let ghost before = partial_lines@;
        proof {
            assert(all.take(i + 1).drop_last() =~= all.take(i as int));
            assert(all.take(i + 1).last() == lines@[i as int]@);
            assert(all.take(i + 1) + all.skip(i + 1) =~= all);
            if partial_lines_of(all.take(i + 1)) is Err {
                lemma_partial_lines_defect(all.take(i + 1), all.skip(i + 1));
            }
        }
        match partial_line(lines[i]) {
            Some(line) => {
                partial_lines.push(line);
                proof {
                    assert(partial_line_views(partial_lines@) =~= partial_line_views(before).push(
                        line@,
                    ));
                }
            },
            None => {
                return Err(ParseError::GrammarError(i + 1));
            },
        }
        i += 1;
    }
    proof {
        assert(all.take(lines.len() as int) =~= all);
    }
    Ok(partial_lines)
}

/// Reads a document: splits it into lines and gathers them into commands,
/// blocks of code and prose.
pub fn lit_file<'a>(input: &'a str) -> (r: Result<Vec<LitBlock<'a>>, ParseError>)
    ensures
        match r {
            Ok(blocks) => lit_file_spec(input@) == Ok::<Seq<LitBlockSpec>, (Defect, int)>(
                lit_block_views(blocks@),
            ),
            Err(e) => {
                &&& lit_file_spec(input@) is Err
                &&& reports(e, lit_file_spec(input@)->Err_0.0, lit_file_spec(input@)->Err_0.1)
            },
        },
{
    let partial_lines = partial_lines(input)?;
    parse_lines(partial_lines)
}

} // verus!
