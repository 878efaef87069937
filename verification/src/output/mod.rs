//! What is made of a linked document: the canonical blocks, and from them
//! the generated files and the documentation.

pub mod canon;
pub mod css;
pub mod tangle;
pub mod weave;
pub mod resolved;
pub mod context;
pub mod depth;

use vstd::prelude::*;
use crate::link::{LinkState, linked_section_views};
use crate::output::canon::{canonicalise_code_blocks, canonical_table};
use crate::output::css::CssSettings;
use crate::output::resolved::lemma_resolved_is_expandable;
use crate::output::tangle::{
    TangleAction, TangleStep, action_views, any_tangled, command_of, tangle_blocks, tangle_steps,
};
use crate::output::weave::{Woven, Type, weave_file_with_blocks, woven_of, prints_markdown};
use crate::output::weave::markdown::{document_events, printable};
use crate::parser::format::CommentFormat;
use crate::parser::ast::{Metadata, SectionSpec};

verus! {

/// Why output could not be produced.
#[derive(Debug)]
pub enum OutputError {
    /// An argument of the command line makes no sense. Holds what to say.
    BadCLIArgument(String),
    /// A file could not be read or written. Holds what the system said.
    FileSystem(String),
    /// A command could not be started. Holds what the system said.
    BadCommand(String),
    /// A command, the compiler or the markdown compiler, ended with this
    /// exit code, which is not 0.
    FailedCommand(u32),
    /// A command, the compiler or the markdown compiler, was ended by this
    /// signal.
    TerminatedCommand(u8),
    /// The files were to be compiled, but the document names no compiler.
    NoCompilerCommand,
    /// The documentation cannot be printed as markdown: a numbered list in
    /// its prose starts at a number that leaves no room for its items.
    UnprintableMarkdown,
}

/// How a command ended.
#[derive(Clone, Copy, Debug, PartialEq, Eq, Structural)]
pub enum ExitStatus {
    /// The command ended by itself, with this exit code.
    Exited(u32),
    /// The command was ended by this signal.
    Signaled(u8),
}

/// What the command line says of the output.
pub struct Globals {
    /// Whether any output is wanted.
    pub generate_output: bool,
    /// How to weave, where the documentation is wanted.
    pub weave: Option<weave::Settings>,
    /// How to tangle, where the generated files are wanted.
    pub tangle: Option<tangle::Globals>,
}

/// What is to be done for one document.
pub struct FileOutput {
    /// The path of the document.
    pub path: String,
    /// The directory of the document, under which its files are written.
    pub relative_directory: String,
    /// What is to be done for each file that the document describes.
    pub tangle: Vec<TangleAction>,
    /// The documentation, where it is wanted.
    pub woven: Option<Woven>,
}

/// The pattern of the comments of a document, if it names one.
pub open spec fn comment_pattern(format: Option<CommentFormat>) -> Option<Seq<char>> {
    match format {
        Some(format) => Some(format.pattern@),
        None => None,
    }
}

/// Whether the tangling of the document with these sections fails: the files are to be compiled, the
/// document names no compiler, and it describes a file.
pub open spec fn tangle_fails(
    globals: Globals,
    metadata: Metadata,
    sections: Seq<SectionSpec>,
) -> bool {
    let table = canonical_table(sections);
    &&& globals.generate_output
    &&& globals.tangle is Some
    &&& globals.tangle->Some_0.compile
    &&& metadata.compiler is None
    &&& any_tangled(table, table.names.len())
}

/// What is to be done for the files that the document with these sections
/// describes.
pub open spec fn tangle_of(
    globals: Globals,
    metadata: Metadata,
    sections: Seq<SectionSpec>,
) -> Seq<TangleStep> {
    let table = canonical_table(sections);
    if globals.generate_output && globals.tangle is Some {
        tangle_steps(
            table,
            comment_pattern(metadata.comment_type),
            if globals.tangle->Some_0.compile {
                command_of(metadata.compiler)
            } else {
                None
            },
            table.names.len(),
        )
    } else {
        Seq::empty()
    }
}

/// Whether `woven` is the documentation of the document with these
/// sections, in the form that `weave_type` names.
pub open spec fn woven_as(
    woven: Woven,
    weave_type: Type,
    metadata: Metadata,
    sections: Seq<SectionSpec>,
) -> bool {
    woven_of(woven, weave_type, document_events(metadata.title@, metadata.code_type@, sections))
}

/// Whether the weaving of the document with these sections fails: the
/// documentation is wanted as printed markdown and cannot be printed.
pub open spec fn weave_fails(
    globals: Globals,
    metadata: Metadata,
    sections: Seq<SectionSpec>,
) -> bool {
    &&& globals.generate_output
    &&& globals.weave is Some
    &&& prints_markdown(globals.weave->Some_0.weave_type)
    &&& !printable(document_events(metadata.title@, metadata.code_type@, sections))
}

/// Whether the output of the document with these sections cannot be made.
pub open spec fn output_fails(
    globals: Globals,
    metadata: Metadata,
    sections: Seq<SectionSpec>,
) -> bool {
    tangle_fails(globals, metadata, sections) || weave_fails(globals, metadata, sections)
}

/// Whether `error` says why the output of the document with these sections
/// cannot be made. The files are seen to before the documentation.
pub open spec fn reports_failure(
    error: OutputError,
    globals: Globals,
    metadata: Metadata,
    sections: Seq<SectionSpec>,
) -> bool {
    if tangle_fails(globals, metadata, sections) {
        error is NoCompilerCommand
    } else {
        weave_fails(globals, metadata, sections) && error is UnprintableMarkdown
    }
}

/// Whether `output` says what is to be done for the document at `path`
/// that holds these sections.
pub open spec fn output_of(
    output: FileOutput,
    globals: Globals,
    path: Seq<char>,
    metadata: Metadata,
    sections: Seq<SectionSpec>,
) -> bool {
    &&& output.path@ == path
    &&& output.relative_directory@ == metadata.relative_directory@
    &&& action_views(output.tangle@) == tangle_of(globals, metadata, sections)
    &&& if globals.generate_output && globals.weave is Some {
        output.woven is Some && woven_as(
            output.woven->Some_0,
            globals.weave->Some_0.weave_type,
            metadata,
            sections,
        )
    } else {
        output.woven is None
    }
}

impl Globals {
    /// Sets the style sheets of the documentation, where it is wanted.
    pub fn set_css(&mut self, settings: CssSettings)
        ensures
            final(self).generate_output == old(self).generate_output,
            final(self).tangle == old(self).tangle,
            match old(self).weave {
                Some(weave) => {
                    &&& final(self).weave is Some
                    &&& final(self).weave->Some_0.css == settings
                    &&& final(self).weave->Some_0.weave_type == weave.weave_type
                    &&& final(self).weave->Some_0.out_dir == weave.out_dir
                },
                None => final(self).weave is None,
            },
    {
        match &mut self.weave {
            Some(weave) => {
                weave.css = settings;
            },
            None => {},
        }
    }

    /// Whether `error` says why the output of the document at `position`
    /// cannot be made, and the output of every document before it can.
    pub open spec fn stops_at<'a>(
        &self,
        link_state: &LinkState<'a>,
        position: int,
        error: OutputError,
    ) -> bool {
        &&& 0 <= position < link_state.file_map@.len()
        &&& forall|i: int|
            0 <= i < position ==> !output_fails(
                *self,
                *(#[trigger] link_state.file_map@[i]).1.metadata,
                linked_section_views(link_state.file_map@[i].1.sections@),
            )
        &&& reports_failure(
            error,
            *self,
            *link_state.file_map@[position].1.metadata,
            linked_section_views(link_state.file_map@[position].1.sections@),
        )
    }

    /// Says what is to be done for every document, in the order in which
    /// they were parsed: which files to write or compile, and what the
    /// documentation is. Fails at the first document whose output cannot
    /// be made: its files are to be compiled though it names no compiler, or
    /// its documentation is to be printed and cannot be.
    pub fn process<'a>(&self, link_state: &'a LinkState<'a>) -> (r: Result<
        Vec<FileOutput>,
        OutputError,
    >)
        requires
            forall|i: int|
                0 <= i < link_state.file_map@.len() ==> (#[trigger] link_state.file_map@[i]).1.resolved(),
        ensures
            match r {
                Ok(outputs) => {
                    &&& outputs@.len() == link_state.file_map@.len()
                    &&& forall|i: int|
                        0 <= i < outputs@.len() ==> output_of(
                            #[trigger] outputs@[i],
                            *self,
                            link_state.file_map@[i].0@,
                            *link_state.file_map@[i].1.metadata,
                            linked_section_views(link_state.file_map@[i].1.sections@),
                        )
                    &&& forall|i: int|
                        0 <= i < link_state.file_map@.len() ==> !output_fails(
                            *self,
                            *(#[trigger] link_state.file_map@[i]).1.metadata,
                            linked_section_views(link_state.file_map@[i].1.sections@),
                        )
                },
                Err(e) => exists|position: int| #[trigger] self.stops_at(link_state, position, e),
            },
    {
        let mut outputs: Vec<FileOutput> = Vec::new();
        let mut i: usize = 0;
        while i < link_state.file_map.len()
            invariant
                i <= link_state.file_map.len(),
                outputs@.len() == i,
                forall|j: int|
                    0 <= j < link_state.file_map@.len() ==> (#[trigger] link_state.file_map@[j]).1.resolved(),
                forall|j: int|
                    0 <= j < i ==> output_of(
                        #[trigger] outputs@[j],
                        *self,
                        link_state.file_map@[j].0@,
                        *link_state.file_map@[j].1.metadata,
                        linked_section_views(link_state.file_map@[j].1.sections@),
                    ),
                forall|j: int|
                    0 <= j < i ==> !output_fails(
                        *self,
                        *(#[trigger] link_state.file_map@[j]).1.metadata,
                        linked_section_views(link_state.file_map@[j].1.sections@),
                    ),
            decreases link_state.file_map.len() - i,
        {
            let path = link_state.file_map[i].0;
            let linked_file = &link_state.file_map[i].1;
            let canonical_code_blocks = canonicalise_code_blocks(linked_file.sections.as_slice());
            proof {
                assert(link_state.file_map@[i as int].1.resolved());
                lemma_resolved_is_expandable(linked_section_views(linked_file.sections@));
            }
            let mut actions: Vec<TangleAction> = Vec::new();
            let mut woven: Option<Woven> = None;
            proof {
                assert(action_views(actions@) =~= Seq::<TangleStep>::empty());
            }
            if self.generate_output {
                match &self.tangle {
                    Some(global_settings) => {
                        let line_numbers = match &linked_file.metadata.line_number_format {
                            Some(format) => Some(format),
                            None => global_settings.line_numbers.as_ref(),
                        };
                        let file_level_settings = tangle::Settings {
                            global_settings,
                            relative_directory: linked_file.metadata.relative_directory.as_str(),
                            line_numbers,
                            comment_formatter: linked_file.metadata.comment_type.as_ref(),
                            compiler: &linked_file.metadata.compiler,
                        };
                        match tangle_blocks(&file_level_settings, &canonical_code_blocks) {
                            Ok(made) => {
                                actions = made;
                            },
                            Err(e) => {
                                proof {
                                    assert(self.stops_at(link_state, i as int, e));
                                }
                                return Err(e);
                            },
                        }
                    },
                    None => {},
                }
                match &self.weave {
                    Some(global_settings) => {
                        match weave_file_with_blocks(
                            global_settings,
                            linked_file,
                            &canonical_code_blocks,
                        ) {
                            Ok(made) => {
                                woven = Some(made);
                            },
                            Err(e) => {
                                proof {
                                    assert(self.stops_at(link_state, i as int, e));
                                }
                                return Err(e);
                            },
                        }
                    },
                    None => {},
                }
            }
            outputs.push(
                FileOutput {
                    path: path.to_owned(),
                    relative_directory: linked_file.metadata.relative_directory.clone(),
                    tangle: actions,
                    woven,
                },
            );
            i += 1;
        }
        Ok(outputs)
    }
}

/// Whether `error` is the failure of the document at `position`, and the
/// output of every document before it succeeded.
pub open spec fn fails_first_at(
    results: Seq<Result<(), OutputError>>,
    position: int,
    error: OutputError,
) -> bool {
    &&& 0 <= position < results.len()
    &&& results[position] == Err::<(), OutputError>(error)
    &&& forall|i: int| 0 <= i < position ==> (#[trigger] results[i]) is Ok
}

/// What a run ends in, given how the output of each of its documents ended.
/// The failure of one document does not keep the others from being written;
/// the run succeeds where every document did, and else reports the failure
/// of the first document that failed.
pub fn run_outcome(results: Vec<Result<(), OutputError>>) -> (r: Result<(), OutputError>)
    ensures
        match r {
            Ok(_) => forall|i: int| 0 <= i < results@.len() ==> (#[trigger] results@[i]) is Ok,
            Err(e) => exists|position: int| fails_first_at(results@, position, e),
        },
{
    let ghost all = results@;
    for result in it: results
        invariant
            it.seq() == all,
            forall|i: int| 0 <= i < it.index() ==> (#[trigger] all[i]) is Ok,
    {
        match result {
            Ok(_) => {},
            Err(e) => {
                proof {
                    assert(fails_first_at(all, it.index() as int, e));
                }
                return Err(e);
            },
        }
    }
    Ok(())
}

} // verus!
