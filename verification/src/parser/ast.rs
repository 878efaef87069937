//! Sections and blocks, and the model of a document that the contracts of
//! the later stages speak of.

use vstd::prelude::*;
use crate::parser::grammar::{
    BlockModifier, CodeBlock, Command, CommandSpec, LitBlock, LitBlockSpec, lit_block_views,
};
use crate::text::{string_views, views, lemma_string_views_push};
use crate::parser::format::{
    CommentFormat, LineNumberFormat, ErrorFormat, generate_comment_type,
    generate_line_number_format, generate_error_format, try_guess_error_format,
};
use crate::parser::ParseError;
use crate::output::css::{CssSettings, CustomCss};

verus! {

/// A block as the contracts see it. A prose block has no name and no
/// modifiers.
pub struct BlockSpec {
    pub is_code: bool,
    pub name: Seq<char>,
    pub modifiers: BlockModifier,
    pub lines: Seq<Seq<char>>,
}

/// A section as the contracts see it.
pub struct SectionSpec {
    pub id: usize,
    pub depth: usize,
    pub name: Option<Seq<char>>,
    pub blocks: Seq<BlockSpec>,
}

/// Whether a document is a book, and if so, which documents are its chapters.
pub enum BookStatus {
    NotBook,
    IsBook(Vec<String>),
}

/// The command that compiles the generated files, and how its messages are
/// to be read.
pub struct CompilerSettings {
    pub command: String,
    pub formatter: ErrorFormat,
}

/// What a document says of itself.
pub struct Metadata {
    pub relative_directory: String,
    pub title: String,
    pub code_type: String,
    pub file_extension: String,
    pub comment_type: Option<CommentFormat>,
    pub line_number_format: Option<LineNumberFormat>,
    pub compiler: Option<CompilerSettings>,
    pub book_status: BookStatus,
}

/// A parsed document.
pub struct LitFile {
    pub metadata: Metadata,
    pub sections: Vec<Section>,
}

impl LitFile {
    /// The document under another title.
    pub open spec fn with_title(self, title: String) -> LitFile {
        LitFile { metadata: Metadata { title, ..self.metadata }, sections: self.sections }
    }

    /// Makes a document of its units.
    ///
    /// The commands say what the document is, the blocks of code and the
    /// prose fill its sections. Fails on the first command that stands once
    /// too often, and in the end where the title or the language is missing.
    /// Beside the document stand the style sheets it asks for and the
    /// chapters it links to.
    pub fn parse<'a>(lines: Vec<LitBlock<'a>>) -> (r: Result<
        (LitFile, CssSettings, Vec<Chapter>),
        ParseError,
    >)
        ensures
            match r {
                Ok((file, css, chapters)) => {
                    &&& outcome_of(lit_block_views(lines@)) is Ok
                    &&& holds_draft(
                        file,
                        css,
                        chapters@,
                        outcome_of(lit_block_views(lines@))->Ok_0,
                    )
                    &&& file.sections@.len() > 0
                    &&& forall|i: int|
                        0 <= i < file.sections@.len() ==> ((#[trigger] file.sections@[i]).name
                            is Implicit <==> i == 0)
                },
                Err(e) => {
                    &&& outcome_of(lit_block_views(lines@)) is Err
                    &&& reports_flaw(e, outcome_of(lit_block_views(lines@))->Err_0)
                },
            },
    {
        let ghost all = lit_block_views(lines@);
        let length = lines.len();
        let ghost count = length as nat;
        let mut draft = Draft::new();
        for block in it: lines
            invariant
                all == lit_block_views(it.seq()),
                it.seq().len() == count,
                count <= usize::MAX,
                draft_of(all.take(it.index() as int)) == Ok::<DraftSpec, Flaw>(draft@),
                draft.current_section.id <= it.index(),
                draft.only_first_implicit(),
        {
            let ghost i = it.index() as int;
            proof {
                assert(all.take(i + 1).drop_last() =~= all.take(i));
                assert(all.take(i + 1).last() == block@);
                assert(all.take(i + 1) + all.skip(i + 1) =~= all);
                if draft_of(all.take(i + 1)) is Err {
                    lemma_draft_flaw(all.take(i + 1), all.skip(i + 1));
                }
            }
            draft.apply(block)?;
        }
        proof {
            assert(all.take(all.len() as int) =~= all);
        }
        draft.finish()
    }

    /// Gives the document another title.
    pub fn set_title(&mut self, new_title: String)
        ensures
            *final(self) == old(self).with_title(new_title),
    {
        self.metadata.title = new_title;
    }
}

/// How a section got its name.
pub enum SectionName {
    /// The section that a document starts in, before any section command.
    Implicit,
    /// A section command gave this name.
    Declared(String),
    /// A section command without a name.
    Unnamed,
}

impl SectionName {
    /// The declared name, if there is one.
    pub open spec fn spec_name(&self) -> Option<Seq<char>> {
        match self {
            SectionName::Declared(name) => Some(name@),
            _ => None,
        }
    }

    /// The name that a section command gave, or the lack of one.
    pub fn parse(name: Option<&str>) -> (section_name: SectionName)
        ensures
            !(section_name is Implicit),
            section_name.spec_name() == (match name {
                Some(slice) => Some(slice@),
                None => None,
            }),
    {
        match name {
            Some(slice) => SectionName::Declared(slice.to_owned()),
            None => SectionName::Unnamed,
        }
    }

    /// The declared name, if there is one.
    pub fn as_str(&self) -> (name: Option<&str>)
        ensures
            name is Some <==> self.spec_name() is Some,
            name is Some ==> name.unwrap()@ == self.spec_name().unwrap(),
    {
        match self {
            SectionName::Declared(name) => Some(name.as_str()),
            _ => None,
        }
    }
}

/// A unit of a document: a named block of code, or prose.
pub enum Block {
    Code { name: String, modifiers: BlockModifier, lines: Vec<String> },
    Prose { lines: Vec<String> },
}

impl View for Block {
    type V = BlockSpec;

    open spec fn view(&self) -> BlockSpec {
        match self {
            Block::Code { name, modifiers, lines } => BlockSpec {
                is_code: true,
                name: name@,
                modifiers: *modifiers,
                lines: string_views(lines@),
            },
            Block::Prose { lines } => BlockSpec {
                is_code: false,
                name: Seq::empty(),
                modifiers: BlockModifier { bits: 0 },
                lines: string_views(lines@),
            },
        }
    }
}

/// The blocks of a list, as the contracts see them.
pub open spec fn block_views(blocks: Seq<Block>) -> Seq<BlockSpec> {
    Seq::new(blocks.len(), |i: int| blocks[i]@)
}

/// A chapter of a document: its blocks in order, under a number that is
/// unique in the document.
pub struct Section {
    pub id: usize,
    pub depth: usize,
    pub name: SectionName,
    pub blocks: Vec<Block>,
}

impl View for Section {
    type V = SectionSpec;

    open spec fn view(&self) -> SectionSpec {
        SectionSpec {
            id: self.id,
            depth: self.depth,
            name: self.name.spec_name(),
            blocks: block_views(self.blocks@),
        }
    }
}

/// The sections of a list, as the contracts see them.
pub open spec fn section_views(sections: Seq<Section>) -> Seq<SectionSpec> {
    Seq::new(sections.len(), |i: int| sections[i]@)
}

/// Every line of the blocks of one section, prose and code alike, in order.
pub open spec fn lines_of_blocks(blocks: Seq<BlockSpec>) -> Seq<Seq<char>>
    decreases blocks.len(),
{
    if blocks.len() == 0 {
        Seq::empty()
    } else {
        lines_of_blocks(blocks.drop_last()) + blocks.last().lines
    }
}

/// Every line of a document, in order.
pub open spec fn lines_of_sections(sections: Seq<SectionSpec>) -> Seq<Seq<char>>
    decreases sections.len(),
{
    if sections.len() == 0 {
        Seq::empty()
    } else {
        lines_of_sections(sections.drop_last()) + lines_of_blocks(sections.last().blocks)
    }
}

/// One definition of a named block: where it stands and what it holds.
pub struct Occurrence {
    pub section: usize,
    pub name: Seq<char>,
    pub modifiers: BlockModifier,
    pub lines: Seq<Seq<char>>,
}

/// The code blocks among `blocks` of the section `section`, in order.
pub open spec fn occurrences_in(section: usize, blocks: Seq<BlockSpec>) -> Seq<Occurrence>
    decreases blocks.len(),
{
    if blocks.len() == 0 {
        Seq::empty()
    } else if blocks.last().is_code {
        occurrences_in(section, blocks.drop_last()).push(
            Occurrence {
                section,
                name: blocks.last().name,
                modifiers: blocks.last().modifiers,
                lines: blocks.last().lines,
            },
        )
    } else {
        occurrences_in(section, blocks.drop_last())
    }
}

/// The code blocks of a document, in order.
pub open spec fn occurrences(sections: Seq<SectionSpec>) -> Seq<Occurrence>
    decreases sections.len(),
{
    if sections.len() == 0 {
        Seq::empty()
    } else {
        occurrences(sections.drop_last()) + occurrences_in(
            sections.last().id,
            sections.last().blocks,
        )
    }
}

/// Owned copies of `lines`.
pub fn owned_lines(lines: &Vec<&str>) -> (owned: Vec<String>)
    ensures
        string_views(owned@) == views(lines@),
{
    let mut owned: Vec<String> = Vec::new();
    let mut i: usize = 0;
    proof {
        assert(string_views(owned@) =~= views(lines@).take(0));
    }
    while i < lines.len()
        invariant
            i <= lines.len(),
            string_views(owned@) == views(lines@).take(i as int),
        decreases lines.len() - i,
    {
        let ghost before = owned@;
        let line = lines[i].to_owned();
        proof {
            lemma_string_views_push(before, line);
            assert(views(lines@).take(i + 1) =~= views(lines@).take(i as int).push(lines@[i as int]@));
        }
        owned.push(line);
        i += 1;
    }
    proof {
        assert(views(lines@).take(lines.len() as int) =~= views(lines@));
    }
    owned
}

impl Block {
    /// The block of code that `code_block` describes.
    pub fn parse_code<'a>(code_block: CodeBlock<'a>) -> (block: Block)
        ensures
            block@ == (BlockSpec {
                is_code: true,
                name: code_block.block_name@,
                modifiers: code_block.modifiers,
                lines: views(code_block.contents@),
            }),
    {
        Block::Code {
            name: code_block.block_name.to_owned(),
            modifiers: code_block.modifiers,
            lines: owned_lines(&code_block.contents),
        }
    }

    /// The block of prose that holds the lines `prose_block`.
    pub fn parse_prose<'a>(prose_block: Vec<&'a str>) -> (block: Block)
        ensures
            block@ == (BlockSpec {
                is_code: false,
                name: Seq::empty(),
                modifiers: BlockModifier { bits: 0 },
                lines: views(prose_block@),
            }),
    {
        Block::Prose { lines: owned_lines(&prose_block) }
    }
}

/// The link from a book to one of its chapters.
pub struct Chapter {
    pub title: String,
    pub file_name: String,
}

/// The chapters of a list as the contracts see them: title and file name.
pub open spec fn chapter_views(chapters: Seq<Chapter>) -> Seq<(Seq<char>, Seq<char>)> {
    Seq::new(chapters.len(), |i: int| (chapters[i].title@, chapters[i].file_name@))
}

/// The file names of a list of chapters.
pub open spec fn chapter_files(chapters: Seq<(Seq<char>, Seq<char>)>) -> Seq<Seq<char>> {
    Seq::new(chapters.len(), |i: int| chapters[i].1)
}

/// A [`CustomCss`] as the contracts see it.
pub enum CssSpec {
    Unset,
    Add(Seq<char>),
    Overwrite(Seq<char>),
}

/// What `css` is to the contracts.
pub open spec fn css_view(css: CustomCss) -> CssSpec {
    match css {
        CustomCss::Unset => CssSpec::Unset,
        CustomCss::Add(file) => CssSpec::Add(file@),
        CustomCss::Overwrite(file) => CssSpec::Overwrite(file@),
    }
}

/// The characters of a string that may be missing.
pub open spec fn text_of(text: Option<String>) -> Option<Seq<char>> {
    match text {
        Some(text) => Some(text@),
        None => None,
    }
}

/// What is known of a document while its units are read.
pub struct DraftSpec {
    pub title: Option<Seq<char>>,
    pub code_type: Option<(Seq<char>, Seq<char>)>,
    pub comment_type: Option<Seq<char>>,
    pub compiler: Option<Seq<char>>,
    pub error_format: Option<Seq<char>>,
    pub line_numbers: Option<Seq<char>>,
    pub is_book: bool,
    pub css: CssSpec,
    pub colorscheme: Option<Seq<char>>,
    pub sections: Seq<SectionSpec>,
    pub current: SectionSpec,
    pub chapters: Seq<(Seq<char>, Seq<char>)>,
}

/// What is wrong with the commands of a document.
pub enum Flaw {
    /// A command that may stand once stands a second time.
    Duplicate,
    /// A second command names a style sheet.
    DuplicateCss,
    /// The document has no title.
    NoTitle,
    /// The document does not say in which language its code is written.
    NoCodeType,
}

/// What is known of a document before its first unit: nothing, but that it
/// starts in a section of its own, which has the number 0.
pub open spec fn empty_draft() -> DraftSpec {
    DraftSpec {
        title: None,
        code_type: None,
        comment_type: None,
        compiler: None,
        error_format: None,
        line_numbers: None,
        is_book: false,
        css: CssSpec::Unset,
        colorscheme: None,
        sections: Seq::empty(),
        current: SectionSpec { id: 0, depth: 0, name: None, blocks: Seq::empty() },
        chapters: Seq::empty(),
    }
}

/// The current section of `draft` with `block` behind its blocks.
pub open spec fn with_block(draft: DraftSpec, block: BlockSpec) -> DraftSpec {
    DraftSpec {
        current: SectionSpec { blocks: draft.current.blocks.push(block), ..draft.current },
        ..draft
    }
}

/// What is known once the command `command` is read. Every command but the
/// section command and `book` may stand once; of the two commands that name
/// a style sheet only one may stand, once. A section command ends the current
/// section and starts the next, whose number is one higher.
pub open spec fn command_step(draft: DraftSpec, command: CommandSpec) -> Result<DraftSpec, Flaw> {
    match command {
        CommandSpec::Title(title) => if draft.title is Some {
            Err(Flaw::Duplicate)
        } else {
            Ok(DraftSpec { title: Some(title), ..draft })
        },
        CommandSpec::CodeType { code_type, file_extension } => if draft.code_type is Some {
            Err(Flaw::Duplicate)
        } else {
            Ok(DraftSpec { code_type: Some((code_type, file_extension)), ..draft })
        },
        CommandSpec::CommentType(pattern) => if draft.comment_type is Some {
            Err(Flaw::Duplicate)
        } else {
            Ok(DraftSpec { comment_type: Some(pattern), ..draft })
        },
        CommandSpec::Compiler(command) => if draft.compiler is Some {
            Err(Flaw::Duplicate)
        } else {
            Ok(DraftSpec { compiler: Some(command), ..draft })
        },
        CommandSpec::ErrorFormat(pattern) => if draft.error_format is Some {
            Err(Flaw::Duplicate)
        } else {
            Ok(DraftSpec { error_format: Some(pattern), ..draft })
        },
        CommandSpec::LineNumbers(pattern) => if draft.line_numbers is Some {
            Err(Flaw::Duplicate)
        } else {
            Ok(DraftSpec { line_numbers: Some(pattern), ..draft })
        },
        CommandSpec::Section { name, depth } => Ok(
            DraftSpec {
                sections: draft.sections.push(draft.current),
                current: SectionSpec {
                    id: (draft.current.id + 1) as usize,
                    depth,
                    name,
                    blocks: Seq::empty(),
                },
                ..draft
            },
        ),
        CommandSpec::Book => Ok(DraftSpec { is_book: true, ..draft }),
        CommandSpec::AddCss(file) => if draft.css is Unset {
            Ok(DraftSpec { css: CssSpec::Add(file), ..draft })
        } else {
            Err(Flaw::DuplicateCss)
        },
        CommandSpec::OverwriteCss(file) => if draft.css is Unset {
            Ok(DraftSpec { css: CssSpec::Overwrite(file), ..draft })
        } else {
            Err(Flaw::DuplicateCss)
        },
        CommandSpec::Colorscheme(file) => if draft.colorscheme is Some {
            Err(Flaw::Duplicate)
        } else {
            Ok(DraftSpec { colorscheme: Some(file), ..draft })
        },
    }
}

/// What is known once the unit `block` is read. A block of code and prose
/// join the current section; the link to a chapter is noted.
pub open spec fn draft_step(draft: DraftSpec, block: LitBlockSpec) -> Result<DraftSpec, Flaw> {
    match block {
        LitBlockSpec::Command(command) => command_step(draft, command),
        LitBlockSpec::Code { block_name, modifiers, contents } => Ok(
            with_block(
                draft,
                BlockSpec { is_code: true, name: block_name, modifiers, lines: contents },
            ),
        ),
        LitBlockSpec::Prose(lines) => Ok(
            with_block(
                draft,
                BlockSpec {
                    is_code: false,
                    name: Seq::empty(),
                    modifiers: BlockModifier { bits: 0 },
                    lines,
                },
            ),
        ),
        LitBlockSpec::Chapter { title, file_name } => Ok(
            DraftSpec { chapters: draft.chapters.push((title, file_name)), ..draft },
        ),
    }
}

/// What is known once all of `blocks` are read, or the first flaw.
pub open spec fn draft_of(blocks: Seq<LitBlockSpec>) -> Result<DraftSpec, Flaw>
    decreases blocks.len(),
{
    if blocks.len() == 0 {
        Ok(empty_draft())
    } else {
        match draft_of(blocks.drop_last()) {
            Ok(draft) => draft_step(draft, blocks.last()),
            Err(flaw) => Err(flaw),
        }
    }
}

/// What reading `blocks` ends in: what is known of the document, or the
/// first flaw. That a needed command is missing shows only at the end, and a
/// missing title is reported before a missing language.
pub open spec fn outcome_of(blocks: Seq<LitBlockSpec>) -> Result<DraftSpec, Flaw> {
    match draft_of(blocks) {
        Ok(draft) => if draft.title is None {
            Err(Flaw::NoTitle)
        } else if draft.code_type is None {
            Err(Flaw::NoCodeType)
        } else {
            Ok(draft)
        },
        Err(flaw) => Err(flaw),
    }
}

/// A flaw among the first units is the flaw of the document.
pub proof fn lemma_draft_flaw(first: Seq<LitBlockSpec>, rest: Seq<LitBlockSpec>)
    requires
        draft_of(first) is Err,
    ensures
        draft_of(first + rest) == draft_of(first),
    decreases rest.len(),
{
    if rest.len() == 0 {
        assert(first + rest =~= first);
    } else {
        assert((first + rest).drop_last() =~= first + rest.drop_last());
        lemma_draft_flaw(first, rest.drop_last());
    }
}

/// Whether `error` reports `flaw`.
pub open spec fn reports_flaw(error: ParseError, flaw: Flaw) -> bool {
    match flaw {
        Flaw::Duplicate => error is DuplicateCommand,
        Flaw::DuplicateCss => error is DuplicateCssCommand,
        Flaw::NoTitle => error is MissingCommand && error->MissingCommand_0@ == "title"@,
        Flaw::NoCodeType => error is MissingCommand && error->MissingCommand_0@
            == "code_type_and_file_extension"@,
    }
}

/// Whether `file` holds what `draft` knows of the document.
///
/// A compiler is kept only where the document says how its messages are to
/// be read. The document is a book where it says so and where it links to a
/// chapter.
pub open spec fn file_holds(file: LitFile, draft: DraftSpec) -> bool {
    &&& draft.title == Some(file.metadata.title@)
    &&& draft.code_type == Some((file.metadata.code_type@, file.metadata.file_extension@))
    &&& file.metadata.relative_directory@ == Seq::<char>::empty()
    &&& draft.comment_type == (match file.metadata.comment_type {
        Some(format) => Some(format.pattern@),
        None => None,
    })
    &&& draft.line_numbers == (match file.metadata.line_number_format {
        Some(format) => Some(format.pattern@),
        None => None,
    })
    &&& match file.metadata.compiler {
        Some(settings) => draft.compiler == Some(settings.command@) && draft.error_format == Some(
            settings.formatter.pattern@,
        ),
        None => draft.compiler is None || draft.error_format is None,
    }
    &&& match file.metadata.book_status {
        BookStatus::IsBook(files) => (draft.is_book || draft.chapters.len() > 0) && string_views(
            files@,
        ) == chapter_files(draft.chapters),
        BookStatus::NotBook => !draft.is_book && draft.chapters.len() == 0,
    }
    &&& section_views(file.sections@) == draft.sections.push(draft.current)
}

/// Whether `css` names the style sheets that `draft` knows of.
pub open spec fn css_holds(css: CssSettings, draft: DraftSpec) -> bool {
    &&& css_view(css.custom_css) == draft.css
    &&& text_of(css.custom_colorscheme) == draft.colorscheme
}

/// Whether `file`, `css` and `chapters` hold what `draft` knows.
pub open spec fn holds_draft(
    file: LitFile,
    css: CssSettings,
    chapters: Seq<Chapter>,
    draft: DraftSpec,
) -> bool {
    &&& file_holds(file, draft)
    &&& css_holds(css, draft)
    &&& chapter_views(chapters) == draft.chapters
}

/// What is known of a document while its units are read.
pub struct Draft {
    pub title: Option<String>,
    pub code_type_and_file_extension: Option<(String, String)>,
    pub comment_type: Option<CommentFormat>,
    pub compiler_command: Option<String>,
    pub error_format: Option<ErrorFormat>,
    pub line_number_format: Option<LineNumberFormat>,
    pub is_book: bool,
    pub custom_css: CustomCss,
    pub custom_colorscheme: Option<String>,
    pub sections: Vec<Section>,
    pub current_section: Section,
    pub chapters: Vec<Chapter>,
}

impl View for Draft {
    type V = DraftSpec;

    open spec fn view(&self) -> DraftSpec {
        DraftSpec {
            title: text_of(self.title),
            code_type: match self.code_type_and_file_extension {
                Some((code_type, file_extension)) => Some((code_type@, file_extension@)),
                None => None,
            },
            comment_type: match self.comment_type {
                Some(format) => Some(format.pattern@),
                None => None,
            },
            compiler: text_of(self.compiler_command),
            error_format: match self.error_format {
                Some(format) => Some(format.pattern@),
                None => None,
            },
            line_numbers: match self.line_number_format {
                Some(format) => Some(format.pattern@),
                None => None,
            },
            is_book: self.is_book,
            css: css_view(self.custom_css),
            colorscheme: text_of(self.custom_colorscheme),
            sections: section_views(self.sections@),
            current: self.current_section@,
            chapters: chapter_views(self.chapters@),
        }
    }
}

impl Draft {
    /// How the first section of the document got its name.
    pub open spec fn first_name(&self) -> SectionName {
        if self.sections@.len() > 0 {
            self.sections@[0].name
        } else {
            self.current_section.name
        }
    }

    /// Whether only the section that the document starts in is unnamed for
    /// want of a section command.
    pub open spec fn only_first_implicit(&self) -> bool {
        &&& self.first_name() is Implicit
        &&& forall|i: int|
            1 <= i < self.sections@.len() ==> !((#[trigger] self.sections@[i]).name is Implicit)
        &&& self.sections@.len() > 0 ==> !(self.current_section.name is Implicit)
    }

    /// What is known before the first unit is read.
    pub fn new() -> (draft: Draft)
        ensures
            draft@ == empty_draft(),
            draft.only_first_implicit(),
    {
        let draft = Draft {
            title: None,
            code_type_and_file_extension: None,
            comment_type: None,
            compiler_command: None,
            error_format: None,
            line_number_format: None,
            is_book: false,
            custom_css: CustomCss::Unset,
            custom_colorscheme: None,
            sections: Vec::new(),
            current_section: Section {
                id: 0,
                depth: 0,
                name: SectionName::Implicit,
                blocks: Vec::new(),
            },
            chapters: Vec::new(),
        };
        proof {
            assert(draft@.sections =~= Seq::<SectionSpec>::empty());
            assert(draft@.current.blocks =~= Seq::<BlockSpec>::empty());
            assert(draft@.chapters =~= Seq::<(Seq<char>, Seq<char>)>::empty());
        }
        draft
    }

    /// Puts `block` behind the blocks of the current section.
    fn push_block(&mut self, block: Block)
        ensures
            final(self)@ == with_block(old(self)@, block@),
            old(self).only_first_implicit() ==> final(self).only_first_implicit(),
            final(self).current_section.id == old(self).current_section.id,
    {
        let ghost before = self.current_section.blocks@;
        self.current_section.blocks.push(block);
        proof {
            assert(block_views(self.current_section.blocks@) =~= block_views(before).push(block@));
        }
    }

    /// Takes one command in.
    pub fn apply_command<'a>(&mut self, command: Command<'a>) -> (r: Result<(), ParseError>)
        requires
            old(self).current_section.id < usize::MAX,
        ensures
            final(self).current_section.id <= old(self).current_section.id + 1,
            old(self).only_first_implicit() ==> final(self).only_first_implicit(),
            match r {
                Ok(_) => command_step(old(self)@, command@) == Ok::<DraftSpec, Flaw>(final(self)@),
                Err(e) => command_step(old(self)@, command@) is Err && reports_flaw(
                    e,
                    command_step(old(self)@, command@)->Err_0,
                ),
            },
    {
        match command {
            Command::Title(title) => {
                if self.title.is_some() {
                    return Err(ParseError::DuplicateCommand);
                }
                self.title = Some(title.to_owned());
            },
            Command::CodeType { code_type, file_extension } => {
                if self.code_type_and_file_extension.is_some() {
                    return Err(ParseError::DuplicateCommand);
                }
                self.code_type_and_file_extension = Some(
                    (code_type.to_owned(), file_extension.to_owned()),
                );
            },
            Command::CommentType(formatter) => {
                if self.comment_type.is_some() {
                    return Err(ParseError::DuplicateCommand);
                }
                self.comment_type = Some(generate_comment_type(formatter));
            },
            Command::Compiler(command) => {
                if self.compiler_command.is_some() {
                    return Err(ParseError::DuplicateCommand);
                }
                self.compiler_command = Some(command.to_owned());
            },
            Command::ErrorFormat(formatter) => {
                if self.error_format.is_some() {
                    return Err(ParseError::DuplicateCommand);
                }
                self.error_format = Some(generate_error_format(formatter));
            },
            Command::LineNumbers(formatter) => {
                if self.line_number_format.is_some() {
                    return Err(ParseError::DuplicateCommand);
                }
                self.line_number_format = Some(generate_line_number_format(formatter));
            },
            Command::Section { name, depth } => {
                let last_id = self.current_section.id;
                let mut section = Section {
                    id: last_id + 1,
                    depth,
                    name: SectionName::parse(name),
                    blocks: Vec::new(),
                };
                proof {
                    assert(block_views(section.blocks@) =~= Seq::<BlockSpec>::empty());
                }
                std::mem::swap(&mut section, &mut self.current_section);
                let ghost before = self.sections@;
                self.sections.push(section);
                proof {
                    assert(section_views(self.sections@) =~= section_views(before).push(section@));
                }
            },
            Command::Book => {
                self.is_book = true;
            },
            Command::AddCss(css_file) => {
                if self.custom_css.is_not_none() {
                    return Err(ParseError::DuplicateCssCommand);
                }
                self.custom_css = CustomCss::Add(css_file.to_owned());
            },
            Command::OverwriteCss(css_file) => {
                if self.custom_css.is_not_none() {
                    return Err(ParseError::DuplicateCssCommand);
                }
                self.custom_css = CustomCss::Overwrite(css_file.to_owned());
            },
            Command::Colorscheme(css_file) => {
                if self.custom_colorscheme.is_some() {
                    return Err(ParseError::DuplicateCommand);
                }
                self.custom_colorscheme = Some(css_file.to_owned());
            },
        }
        Ok(())
    }

    /// Takes one unit of the document in.
    pub fn apply<'a>(&mut self, block: LitBlock<'a>) -> (r: Result<(), ParseError>)
        requires
            old(self).current_section.id < usize::MAX,
        ensures
            final(self).current_section.id <= old(self).current_section.id + 1,
            old(self).only_first_implicit() ==> final(self).only_first_implicit(),
            match r {
                Ok(_) => draft_step(old(self)@, block@) == Ok::<DraftSpec, Flaw>(final(self)@),
                Err(e) => draft_step(old(self)@, block@) is Err && reports_flaw(
                    e,
                    draft_step(old(self)@, block@)->Err_0,
                ),
            },
    {
        match block {
            LitBlock::Command(command) => {
                return self.apply_command(command);
            },
            LitBlock::Code(code) => {
                self.push_block(Block::parse_code(code));
            },
            LitBlock::Prose(lines) => {
                self.push_block(Block::parse_prose(lines));
            },
            LitBlock::Chapter { title, file_name } => {
                let ghost before = self.chapters@;
                let chapter = Chapter { title: title.to_owned(), file_name: file_name.to_owned() };
                self.chapters.push(chapter);
                proof {
                    assert(chapter_views(self.chapters@) =~= chapter_views(before).push(
                        (title@, file_name@),
                    ));
                }
            },
        }
        Ok(())
    }
}

impl Draft {
    /// Makes the document of what is known, once every unit is read.
    pub fn finish(self) -> (r: Result<(LitFile, CssSettings, Vec<Chapter>), ParseError>)
        ensures
            match r {
                Ok((file, css, chapters)) => {
                    &&& self@.title is Some
                    &&& self@.code_type is Some
                    &&& holds_draft(file, css, chapters@, self@)
                    &&& file.sections@ == self.sections@.push(self.current_section)
                },
                Err(e) => if self@.title is None {
                    reports_flaw(e, Flaw::NoTitle)
                } else {
                    self@.code_type is None && reports_flaw(e, Flaw::NoCodeType)
                },
            },
    {
        let ghost draft = self@;
        let Draft {
            title,
            code_type_and_file_extension,
            comment_type,
            compiler_command,
            error_format,
            line_number_format,
            is_book,
            custom_css,
            custom_colorscheme,
            sections,
            current_section,
            chapters,
        } = self;
        let compiler = match compiler_command {
            Some(command) => {
                let error_format = match error_format {
                    Some(format) => Some(format),
                    None => try_guess_error_format(&command),
                };
                match error_format {
                    Some(formatter) => Some(CompilerSettings { command, formatter }),
                    None => None,
                }
            },
            None => None,
        };
        let mut sections = sections;
        let ghost before = sections@;
        sections.push(current_section);
        proof {
            assert(section_views(sections@) =~= section_views(before).push(current_section@));
        }
        let title = match title {
            Some(title) => title,
            None => {
                return Err(ParseError::MissingCommand("title"));
            },
        };
        let (code_type, file_extension) = match code_type_and_file_extension {
            Some(pair) => pair,
            None => {
                return Err(ParseError::MissingCommand("code_type_and_file_extension"));
            },
        };
        let book_status = if is_book || chapters.len() > 0 {
            let mut files: Vec<String> = Vec::new();
            let mut i: usize = 0;
            proof {
                assert(string_views(files@) =~= chapter_files(chapter_views(chapters@)).take(0));
            }
            while i < chapters.len()
                invariant
                    i <= chapters.len(),
                    string_views(files@) == chapter_files(chapter_views(chapters@)).take(i as int),
                decreases chapters.len() - i,
            {
                let ghost so_far = files@;
                let file = chapters[i].file_name.clone();
                proof {
                    lemma_string_views_push(so_far, file);
                    assert(chapter_files(chapter_views(chapters@)).take(i + 1) =~= chapter_files(
                        chapter_views(chapters@),
                    ).take(i as int).push(chapters@[i as int].file_name@));
                }
                files.push(file);
                i += 1;
            }
            proof {
                assert(chapter_files(chapter_views(chapters@)).take(chapters.len() as int)
                    =~= chapter_files(chapter_views(chapters@)));
            }
            BookStatus::IsBook(files)
        } else {
            BookStatus::NotBook
        };
        Ok(
            (
                LitFile {
                    metadata: Metadata {
                        relative_directory: String::new(),
                        title,
                        code_type,
                        file_extension,
                        comment_type,
                        line_number_format,
                        compiler,
                        book_status,
                    },
                    sections,
                },
                CssSettings { custom_css, custom_colorscheme },
                chapters,
            ),
        )
    }
}

} // verus!
