//! The parsed form of a literate document.

pub mod ast;
pub mod format;
pub mod grammar;
pub mod scan;

use vstd::prelude::*;
use crate::text::{
    lemma_push_no_duplicates, lemma_remove_no_duplicates, string_views, find_string,
    lemma_string_views_push,
};
use crate::parser::ast::{
    LitFile, Chapter, Flaw, outcome_of, reports_flaw, holds_draft, file_holds, css_holds,
    chapter_views,
};
use crate::parser::grammar::{lit_file, lit_file_spec, reports};
use crate::output::css::CssSettings;

verus! {

/// Why a document could not be parsed.
#[derive(Debug)]
pub enum ParseError {
    /// A command that every document needs is missing. Holds its name.
    MissingCommand(&'static str),
    /// A command that may stand once stands twice.
    DuplicateCommand,
    /// More than one command names a style sheet.
    DuplicateCssCommand,
    /// Two documents of one run name style sheets.
    ConflictingCss,
    /// A file could not be read. Holds what is to be said of it.
    FileSystem(String),
    /// A chapter of a book leads back to a document that is being parsed.
    FileLoop,
    /// A document was to be parsed a second time.
    FileRepeat,
    /// A line fits no rule of the grammar. Holds the number of the line,
    /// the first line being line 1.
    GrammarError(usize),
    /// A block of code is opened inside a block of code, or closed where
    /// none is open.
    FormatError,
    /// The file of a chapter is named by an absolute path.
    BadChapterPath,
}

/// The parsed documents of one run as the contracts see them: their paths
/// in the order in which they were parsed, and the document of each.
pub struct FilesSpec {
    pub paths: Seq<Seq<char>>,
    pub files: Seq<LitFile>,
}

impl FilesSpec {
    /// Every path has its document, and no path stands twice.
    pub open spec fn wf(self) -> bool {
        &&& self.paths.len() == self.files.len()
        &&& self.paths.no_duplicates()
    }

    /// Whether a document of that path was parsed.
    pub open spec fn has(self, path: Seq<char>) -> bool {
        self.paths.contains(path)
    }
}

/// The parsed documents of one run, by path.
pub struct FileMap {
    paths: Vec<String>,
    files: Vec<LitFile>,
}

impl View for FileMap {
    type V = FilesSpec;

    closed spec fn view(&self) -> FilesSpec {
        FilesSpec { paths: string_views(self.paths@), files: self.files@ }
    }
}

impl FileMap {
    /// A map without any document.
    pub fn new() -> (map: FileMap)
        ensures
            map@.wf(),
            map@.paths.len() == 0,
    {
        let map = FileMap { paths: Vec::new(), files: Vec::new() };
        proof {
            assert(map@.paths =~= Seq::<Seq<char>>::empty());
        }
        map
    }

    /// How many documents were parsed.
    pub fn len(&self) -> (n: usize)
        requires
            self@.wf(),
        ensures
            n == self@.paths.len(),
    {
        self.paths.len()
    }

    /// The path at `index`.
    pub fn path_at(&self, index: usize) -> (path: &String)
        requires
            self@.wf(),
            index < self@.paths.len(),
        ensures
            path@ == self@.paths[index as int],
    {
        &self.paths[index]
    }

    /// The document at `index`.
    pub fn file_at(&self, index: usize) -> (file: &LitFile)
        requires
            self@.wf(),
            index < self@.paths.len(),
        ensures
            *file == self@.files[index as int],
    {
        &self.files[index]
    }

    /// Whether a document of that path was parsed.
    pub fn contains_key(&self, path: &str) -> (b: bool)
        requires
            self@.wf(),
        ensures
            b == self@.has(path@),
    {
        let at = find_string(&self.paths, path);
        proof {
            if let Some(i) = at {
                assert(self@.paths[i as int] == path@);
            }
        }
        at.is_some()
    }

    /// The document of that path, if one was parsed.
    pub fn get(&self, path: &str) -> (file: Option<&LitFile>)
        requires
            self@.wf(),
        ensures
            file is Some <==> self@.has(path@),
            file is Some ==> *file.unwrap() == self@.files[self@.paths.index_of(path@)],
    {
        match find_string(&self.paths, path) {
            Some(i) => {
                proof {
                    assert(self@.paths[i as int] == path@);
                    assert(self@.paths.index_of(path@) == i);
                }
                Some(&self.files[i])
            },
            None => None,
        }
    }

    /// Adds the document of a path that the map does not hold yet.
    pub fn insert(&mut self, path: String, file: LitFile)
        requires
            old(self)@.wf(),
            !old(self)@.has(path@),
        ensures
            final(self)@.wf(),
            final(self)@.paths == old(self)@.paths.push(path@),
            final(self)@.files == old(self)@.files.push(file),
    {
        let ghost before = self.paths@;
        proof {
            lemma_string_views_push(before, path);
            lemma_push_no_duplicates(string_views(before), path@);
        }
        self.paths.push(path);
        self.files.push(file);
    }

    /// Gives the document of `path` the title `title`. Says whether there is
    /// such a document.
    pub fn set_title(&mut self, path: &str, title: String) -> (found: bool)
        requires
            old(self)@.wf(),
        ensures
            final(self)@.wf(),
            found == old(self)@.has(path@),
            final(self)@.paths == old(self)@.paths,
            final(self)@.files.len() == old(self)@.files.len(),
            forall|i: int|
                0 <= i < old(self)@.files.len() && old(self)@.paths[i] != path@
                    ==> #[trigger] final(self)@.files[i] == old(self)@.files[i],
            found ==> ({
                let at = old(self)@.paths.index_of(path@);
                final(self)@.files[at] == old(self)@.files[at].with_title(title)
            }),
    {
        match find_string(&self.paths, path) {
            Some(i) => {
                proof {
                    assert(self@.paths[i as int] == path@);
                    assert(self@.paths.index_of(path@) == i);
                }
                let file = &mut self.files[i];
                file.set_title(title);
                true
            },
            None => false,
        }
    }
}

/// One document as it was read: where it was found and what it holds.
pub struct SourceFile {
    pub path: String,
    pub contents: String,
}

/// What reading the text `contents` as a document ends in.
pub enum Reading {
    /// A line has a defect.
    Defect(crate::parser::grammar::Defect, int),
    /// The commands have a flaw.
    Flawed(Flaw),
    /// The text makes a document, of which this is known.
    Read(crate::parser::ast::DraftSpec),
}

/// What reading the text `contents` as a document ends in: the lines are
/// gathered into units first, then the units are made a document.
pub open spec fn reading_of(contents: Seq<char>) -> Reading {
    match lit_file_spec(contents) {
        Ok(blocks) => match outcome_of(blocks) {
            Ok(draft) => Reading::Read(draft),
            Err(flaw) => Reading::Flawed(flaw),
        },
        Err((defect, position)) => Reading::Defect(defect, position),
    }
}

/// Whether the document that `draft` describes asks for no style sheet.
pub open spec fn asks_nothing(draft: crate::parser::ast::DraftSpec) -> bool {
    draft.css is Unset && draft.colorscheme is None
}

/// Reads the text of a document.
pub fn read_source(contents: &str) -> (r: Result<(LitFile, CssSettings, Vec<Chapter>), ParseError>)
    ensures
        match r {
            Ok((file, css, chapters)) => {
                &&& reading_of(contents@) is Read
                &&& holds_draft(file, css, chapters@, reading_of(contents@)->Read_0)
            },
            Err(e) => match reading_of(contents@) {
                Reading::Defect(defect, position) => reports(e, defect, position),
                Reading::Flawed(flaw) => reports_flaw(e, flaw),
                Reading::Read(_) => false,
            },
        },
{
    let blocks = lit_file(contents)?;
    LitFile::parse(blocks)
}

/// What a run has parsed so far.
pub struct ParseState {
    pub in_progress: Vec<String>,
    pub file_map: FileMap,
    pub css_settings: Option<CssSettings>,
}

impl ParseState {
    /// The paths of the documents whose parsing has begun and not ended.
    pub open spec fn in_progress(&self) -> Seq<Seq<char>> {
        string_views(self.in_progress@)
    }

    /// A run that has parsed nothing.
    pub fn new() -> (state: ParseState)
        ensures
            state.wf(),
            state.in_progress().len() == 0,
            state.file_map@.paths.len() == 0,
            state.css_settings is None,
    {
        let state = ParseState {
            in_progress: Vec::new(),
            file_map: FileMap::new(),
            css_settings: None,
        };
        proof {
            assert(state.in_progress() =~= Seq::<Seq<char>>::empty());
        }
        state
    }

    /// The documents in progress are listed once each, and so are the parsed
    /// documents.
    pub open spec fn wf(&self) -> bool {
        &&& self.file_map@.wf()
        &&& self.in_progress().no_duplicates()
    }

    /// Begins the parsing of the document at `file_path`. It is an error
    /// to begin a document that is being parsed, and one to begin a document
    /// that was parsed.
    pub fn enter(&mut self, file_path: &str) -> (r: Result<(), ParseError>)
        requires
            old(self).wf(),
        ensures
            final(self).wf(),
            final(self).file_map == old(self).file_map,
            final(self).css_settings == old(self).css_settings,
            match r {
                Ok(_) => {
                    &&& !old(self).in_progress().contains(file_path@)
                    &&& !old(self).file_map@.has(file_path@)
                    &&& final(self).in_progress() == old(self).in_progress().push(file_path@)
                },
                Err(e) => {
                    &&& final(self).in_progress() == old(self).in_progress()
                    &&& if old(self).in_progress().contains(file_path@) {
                        e is FileLoop
                    } else {
                        e is FileRepeat && old(self).file_map@.has(file_path@)
                    }
                },
            },
    {
        match find_string(&self.in_progress, file_path) {
            Some(i) => {
                proof {
                    assert(self.in_progress()[i as int] == file_path@);
                }
                Err(ParseError::FileLoop)
            },
            None => {
                if self.file_map.contains_key(file_path) {
                    Err(ParseError::FileRepeat)
                } else {
                    let ghost before = self.in_progress@;
                    let path = file_path.to_owned();
                    proof {
                        lemma_string_views_push(before, path);
                        lemma_push_no_duplicates(
                            string_views(before),
                            path@,
                        );
                    }
                    self.in_progress.push(path);
                    Ok(())
                }
            },
        }
    }

    /// Ends the parsing of the document at `file_path`, which gave
    /// `lit_file` and asks for the style sheets `settings`. Only one document
    /// of a run may ask for style sheets.
    pub fn leave(&mut self, file_path: &str, lit_file: LitFile, settings: CssSettings) -> (r: Result<
        (),
        ParseError,
    >)
        requires
            old(self).wf(),
            !old(self).file_map@.has(file_path@),
        ensures
            final(self).wf(),
            match r {
                Ok(_) => {
                    &&& settings.asks_nothing() || old(self).css_settings is None
                    &&& final(self).css_settings == if settings.asks_nothing() {
                        old(self).css_settings
                    } else {
                        Some(settings)
                    }
                    &&& final(self).file_map@.paths == old(self).file_map@.paths.push(file_path@)
                    &&& final(self).file_map@.files == old(self).file_map@.files.push(lit_file)
                    &&& final(self).in_progress() == if old(self).in_progress().contains(
                        file_path@,
                    ) {
                        old(self).in_progress().remove(
                            old(self).in_progress().index_of(file_path@),
                        )
                    } else {
                        old(self).in_progress()
                    }
                    &&& !final(self).in_progress().contains(file_path@)
                },
                Err(e) => {
                    &&& e is ConflictingCss
                    &&& !settings.asks_nothing()
                    &&& old(self).css_settings is Some
                    &&& final(self).file_map == old(self).file_map
                    &&& final(self).in_progress() == old(self).in_progress()
                },
            },
    {
        if !settings.is_default() {
            if self.css_settings.is_some() {
                return Err(ParseError::ConflictingCss);
            }
            self.css_settings = Some(settings);
        }
        let ghost before = self.in_progress();
        match find_string(&self.in_progress, file_path) {
            Some(i) => {
                proof {
                    assert(before[i as int] == file_path@);
                    assert(before.index_of(file_path@) == i);
                    lemma_remove_no_duplicates(before, i as int);
                }
                self.in_progress.remove(i);
                proof {
                    assert(self.in_progress() =~= before.remove(i as int));
                }
            },
            None => {},
        }
        self.file_map.insert(file_path.to_owned(), lit_file);
        Ok(())
    }

    /// Parses the text of the document at `file_path` and keeps the
    /// document. Gives the chapters that the document links to.
    pub fn parse_file(&mut self, file_path: &str, file_contents: &str) -> (r: Result<
        Vec<Chapter>,
        ParseError,
    >)
        requires
            old(self).wf(),
        ensures
            final(self).wf(),
            match r {
                Ok(chapters) => {
                    &&& !old(self).in_progress().contains(file_path@)
                    &&& !old(self).file_map@.has(file_path@)
                    &&& reading_of(file_contents@) is Read
                    &&& final(self).in_progress() == old(self).in_progress()
                    &&& final(self).file_map@.paths == old(self).file_map@.paths.push(file_path@)
                    &&& final(self).file_map@.files.len() == old(self).file_map@.files.len() + 1
                    &&& final(self).file_map@.files.drop_last() == old(self).file_map@.files
                    &&& file_holds(
                        final(self).file_map@.files.last(),
                        reading_of(file_contents@)->Read_0,
                    )
                    &&& chapter_views(chapters@) == reading_of(file_contents@)->Read_0.chapters
                    &&& if asks_nothing(reading_of(file_contents@)->Read_0) {
                        final(self).css_settings == old(self).css_settings
                    } else {
                        &&& old(self).css_settings is None
                        &&& final(self).css_settings is Some
                        &&& css_holds(
                            final(self).css_settings->Some_0,
                            reading_of(file_contents@)->Read_0,
                        )
                    }
                },
                Err(e) => if old(self).in_progress().contains(file_path@) {
                    e is FileLoop
                } else if old(self).file_map@.has(file_path@) {
                    e is FileRepeat
                } else {
                    match reading_of(file_contents@) {
                        Reading::Defect(defect, position) => reports(e, defect, position),
                        Reading::Flawed(flaw) => reports_flaw(e, flaw),
                        Reading::Read(draft) => {
                            &&& e is ConflictingCss
                            &&& old(self).css_settings is Some
                            &&& !asks_nothing(draft)
                        },
                    }
                },
            },
    {
        self.enter(file_path)?;
        let ghost entered = self.in_progress();
        let (lit_file, settings, chapters) = read_source(file_contents)?;
        let ghost css = settings;
        let ghost file = lit_file;
        match self.leave(file_path, lit_file, settings) {
            Ok(_) => {},
            Err(e) => {
                proof {
                    let draft = reading_of(file_contents@)->Read_0;
                    assert(crate::parser::ast::css_view(css.custom_css) == draft.css);
                    assert(crate::parser::ast::text_of(css.custom_colorscheme)
                        == draft.colorscheme);
                    assert(!css.asks_nothing());
                }
                return Err(e);
            },
        }
        proof {
            let before = old(self).in_progress();
            assert(entered[before.len() as int] == file_path@);
            assert(entered.index_of(file_path@) == before.len());
            assert(entered.remove(before.len() as int) =~= before);
            assert(self.file_map@.files.drop_last() =~= old(self).file_map@.files);
            assert(self.file_map@.files.last() == file);
            assert(holds_draft(file, css, chapters@, reading_of(file_contents@)->Read_0));
        }
        Ok(chapters)
    }

    /// Parses every document of `sources`, in order, and stops at the first
    /// that cannot be parsed.
    pub fn from_input(sources: &Vec<SourceFile>) -> (r: Result<ParseState, ParseError>)
        ensures
            match r {
                Ok(state) => {
                    &&& state.wf()
                    &&& state.in_progress().len() == 0
                    &&& state.file_map@.paths == source_paths(sources@)
                    &&& all_read(sources@, state.file_map@.files, sources@.len() as int)
                },
                Err(e) => exists|position: int| stops_at(sources@, position, e),
            },
    {
        let mut state = ParseState::new();
        let mut i: usize = 0;
        proof {
            assert(state.file_map@.paths =~= source_paths(sources@).take(0));
        }
        while i < sources.len()
            invariant
                i <= sources.len(),
                state.wf(),
                state.in_progress().len() == 0,
                state.file_map@.paths == source_paths(sources@).take(i as int),
                all_read(sources@, state.file_map@.files, i as int),
            decreases sources.len() - i,
        {
            let ghost before = state.file_map@.files;
            proof {
                assert(source_paths(sources@).take(i + 1) =~= source_paths(sources@).take(
                    i as int,
                ).push(sources@[i as int].path@));
                assert forall|j: int| 0 <= j < i implies reading_of(
                    #[trigger] sources@[j].contents@,
                ) is Read by {
                    assert(all_read(sources@, before, i as int));
                }
            }
            match state.parse_file(sources[i].path.as_str(), sources[i].contents.as_str()) {
                Ok(_) => {
                    proof {
                        let files = state.file_map@.files;
                        assert forall|j: int| 0 <= j < i + 1 implies {
                            &&& reading_of(#[trigger] sources@[j].contents@) is Read
                            &&& file_holds(files[j], reading_of(sources@[j].contents@)->Read_0)
                        } by {
                            if j < i {
                                assert(files.drop_last()[j] == files[j]);
                            } else {
                                assert(files.last() == files[j]);
                            }
                        }
                    }
                },
                Err(e) => {
                    proof {
                        assert(stops_at(sources@, i as int, e));
                    }
                    return Err(e);
                },
            }
            i += 1;
        }
        proof {
            assert(source_paths(sources@).take(sources.len() as int) =~= source_paths(sources@));
        }
        Ok(state)
    }
}

/// Whether the first `count` of `sources` can be read, and `files` holds
/// the documents that they make.
pub open spec fn all_read(sources: Seq<SourceFile>, files: Seq<LitFile>, count: int) -> bool {
    &&& files.len() == count
    &&& forall|i: int|
        0 <= i < count ==> {
            &&& reading_of(#[trigger] sources[i].contents@) is Read
            &&& file_holds(files[i], reading_of(sources[i].contents@)->Read_0)
        }
}

/// Whether `error` says why the parsing of `sources` stops at `position`:
/// every document before it can be read, and the document there has a path
/// that stood before, or cannot be read, or is the second to ask for style
/// sheets.
pub open spec fn stops_at(sources: Seq<SourceFile>, position: int, error: ParseError) -> bool {
    &&& 0 <= position < sources.len()
    &&& forall|i: int| 0 <= i < position ==> reading_of(#[trigger] sources[i].contents@) is Read
    &&& if source_paths(sources).take(position).contains(sources[position].path@) {
        error is FileRepeat
    } else {
        match reading_of(sources[position].contents@) {
            Reading::Defect(defect, at) => reports(error, defect, at),
            Reading::Flawed(flaw) => reports_flaw(error, flaw),
            Reading::Read(draft) => error is ConflictingCss && !asks_nothing(draft),
        }
    }
}

/// The paths of a list of documents.
pub open spec fn source_paths(sources: Seq<SourceFile>) -> Seq<Seq<char>> {
    Seq::new(sources.len(), |i: int| sources[i].path@)
}

} // verus!
