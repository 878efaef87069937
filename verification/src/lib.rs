//! A literate-programming processor.
//!
//! A document interleaves prose with named blocks of code. A block may link
//! to other blocks with `@{name}`, may be appended to, and may be redefined.
//! The library resolves those links, folds the definitions of each name into
//! one canonical block, and expands file blocks into the lines of the source
//! files they describe.

pub mod text;
pub mod input;
pub mod parser;
pub mod link;
pub mod output;

use vstd::prelude::*;
use crate::link::{LinkError, LinkState, all_resolved, fails_at, linked_section_views};
use crate::output::{FileOutput, Globals, OutputError, output_of, output_fails, reports_failure};
use crate::parser::{ParseError, ParseState};
use crate::parser::ast::{LitFile, section_views};
use crate::output::css::CssSettings;

verus! {

/// Why a run failed.
#[derive(Debug)]
pub enum ProgramError {
    ParserError(ParseError),
    LinkerError(LinkError),
    OutputError(OutputError),
    Other(String),
}

/// The settings once the documents of a run have had their say: a
/// document that asks for style sheets sets those of the documentation.
pub open spec fn settings_after(settings: Globals, css: Option<CssSettings>) -> Globals {
    match (css, settings.weave) {
        (Some(css), Some(weave)) => Globals {
            generate_output: settings.generate_output,
            weave: Some(
                output::weave::Settings {
                    weave_type: weave.weave_type,
                    out_dir: weave.out_dir,
                    css,
                },
            ),
            tangle: settings.tangle,
        },
        _ => settings,
    }
}

/// Whether `error` says why the output of the document at `position`
/// cannot be made, and the output of every document before it can.
pub open spec fn output_stops_at(
    settings: Globals,
    files: Seq<LitFile>,
    position: int,
    error: OutputError,
) -> bool {
    &&& 0 <= position < files.len()
    &&& forall|i: int|
        0 <= i < position ==> !output_fails(
            settings,
            (#[trigger] files[i]).metadata,
            section_views(files[i].sections@),
        )
    &&& reports_failure(
        error,
        settings,
        files[position].metadata,
        section_views(files[position].sections@),
    )
}

/// Makes the output of the documents that were parsed: resolves the links
/// of every document, takes the style sheets that a document asked for, and
/// says for every document what is to be written.
///
/// Nothing is returned where a document cannot be resolved or its output
/// cannot be made; the first such document is reported.
pub fn run(parse_state: &ParseState, output_settings: &mut Globals) -> (r: Result<
    Vec<FileOutput>,
    ProgramError,
>)
    requires
        parse_state.wf(),
    ensures
        match r {
            Ok(outputs) => {
                &&& *final(output_settings) == settings_after(
                    *old(output_settings),
                    parse_state.css_settings,
                )
                &&& all_resolved(
                    parse_state.file_map@.files,
                    parse_state.file_map@.files.len() as int,
                )
                &&& forall|i: int|
                    0 <= i < parse_state.file_map@.files.len() ==> !output_fails(
                        *final(output_settings),
                        (#[trigger] parse_state.file_map@.files[i]).metadata,
                        section_views(parse_state.file_map@.files[i].sections@),
                    )
                &&& outputs@.len() == parse_state.file_map@.paths.len()
                &&& forall|i: int|
                    0 <= i < outputs@.len() ==> output_of(
                        #[trigger] outputs@[i],
                        *final(output_settings),
                        parse_state.file_map@.paths[i],
                        parse_state.file_map@.files[i].metadata,
                        section_views(parse_state.file_map@.files[i].sections@),
                    )
            },
            Err(e) => match e {
                ProgramError::LinkerError(e) => exists|position: int|
                    fails_at(parse_state.file_map@.files, position, e),
                ProgramError::OutputError(e) => {
                    &&& all_resolved(
                        parse_state.file_map@.files,
                        parse_state.file_map@.files.len() as int,
                    )
                    &&& exists|position: int| #[trigger]
                        output_stops_at(
                            settings_after(*old(output_settings), parse_state.css_settings),
                            parse_state.file_map@.files,
                            position,
                            e,
                        )
                },
                _ => false,
            },
        },
{
    let linked_state = match LinkState::link(&parse_state.file_map) {
        Ok(state) => state,
        Err(e) => {
            return Err(ProgramError::LinkerError(e));
        },
    };
    match &parse_state.css_settings {
        Some(css_settings) => {
            output_settings.set_css(copy_settings(css_settings));
        },
        None => {},
    }
    let ghost files = parse_state.file_map@.files;
    proof {
        assert forall|i: int| 0 <= i < files.len() implies {
            &&& *(#[trigger] linked_state.file_map@[i]).1.metadata == files[i].metadata
            &&& linked_section_views(linked_state.file_map@[i].1.sections@) == section_views(
                files[i].sections@,
            )
        } by {
            assert(linked_state.file_map@[i].1.links(files[i]));
        }
    }
    match output_settings.process(&linked_state) {
        Ok(outputs) => {
            proof {
                assert forall|i: int| 0 <= i < files.len() implies !output_fails(
                    *output_settings,
                    (#[trigger] files[i]).metadata,
                    section_views(files[i].sections@),
                ) by {
                    assert(linked_state.file_map@[i].1.links(files[i]));
                }
                assert forall|i: int| 0 <= i < outputs@.len() implies output_of(
                    #[trigger] outputs@[i],
                    *output_settings,
                    parse_state.file_map@.paths[i],
                    files[i].metadata,
                    section_views(files[i].sections@),
                ) by {
                    assert(linked_state.file_map@[i].1.links(files[i]));
                }
            }
            Ok(outputs)
        },
        Err(e) => {
            proof {
                let position = choose|position: int| #[trigger]
                    output_settings.stops_at(&linked_state, position, e);
                assert(linked_state.file_map@[position].1.links(files[position]));
                assert forall|i: int| 0 <= i < position implies !output_fails(
                    *output_settings,
                    (#[trigger] files[i]).metadata,
                    section_views(files[i].sections@),
                ) by {
                    assert(linked_state.file_map@[i].1.links(files[i]));
                }
                assert(output_stops_at(*output_settings, files, position, e));
            }
            Err(ProgramError::OutputError(e))
        },
    }
}

/// A copy of `settings`.
pub fn copy_settings(settings: &CssSettings) -> (copy: CssSettings)
    ensures
        copy == *settings,
{
    CssSettings {
        custom_css: copy_css(&settings.custom_css),
        custom_colorscheme: settings.custom_colorscheme.clone(),
    }
}

/// A copy of `css`.
pub fn copy_css(css: &output::css::CustomCss) -> (copy: output::css::CustomCss)
    ensures
        copy == *css,
{
    match css {
        output::css::CustomCss::Unset => output::css::CustomCss::Unset,
        output::css::CustomCss::Add(file) => output::css::CustomCss::Add(file.clone()),
        output::css::CustomCss::Overwrite(file) => output::css::CustomCss::Overwrite(file.clone()),
    }
}

} // verus!
