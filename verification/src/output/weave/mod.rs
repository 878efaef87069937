//! Weaving: writing the documentation of a document.
//!
//! The documentation shows the document as it was written: the prose, and
//! the blocks of code with their links unexpanded.

pub mod markdown;

use vstd::prelude::*;
use crate::link::{LinkedFile, linked_section_views};
use crate::output::{OutputError, ExitStatus};
use crate::output::canon::BlockMap;
use crate::output::css::CssSettings;
use crate::output::weave::markdown::{
    EventSpec, printable, can_be_printed, MarkDown, html_of, prettified, render_html, pretty_print,
    document_events,
};

verus! {

/// In which form the documentation is written.
pub enum Type {
    /// As markdown.
    Markdown,
    /// As HTML made of markdown: by the command, where one is given, and
    /// by the library itself where none is.
    HtmlViaMarkdown(Option<String>),
}

/// What the command line says of weaving.
pub struct Settings {
    pub weave_type: Type,
    pub out_dir: String,
    pub css: CssSettings,
}

/// The documentation of one document, as far as the library makes it.
pub enum Woven {
    /// The documentation in markdown, ready to be written.
    Markdown(String),
    /// The body of the documentation in HTML.
    Html(String),
    /// The documentation in markdown, which the command is to make HTML of.
    ToCompile { command: String, markdown: String },
}

/// The documentation in HTML.
pub fn compile_markdown<'m>(markdown: MarkDown<'m>) -> (html: String)
    ensures
        html@ == html_of(markdown@),
{
    let events = markdown.into_iter();
    render_html(&events)
}

/// The documentation in markdown. It is an error to ask for it where the
/// documentation cannot be printed.
pub fn print_markdown<'m>(markdown: MarkDown<'m>) -> (r: Result<String, OutputError>)
    ensures
        match r {
            Ok(text) => printable(markdown@) && text@ == prettified(markdown@),
            Err(e) => e is UnprintableMarkdown && !printable(markdown@),
        },
{
    let events = markdown.into_iter();
    if can_be_printed(&events) {
        Ok(pretty_print(&events))
    } else {
        Err(OutputError::UnprintableMarkdown)
    }
}

/// What the way the markdown compiler ended means: with exit code 0 what
/// it wrote is the documentation in HTML; any other exit code and any signal
/// is a failure.
pub fn call_markdown_compiler(status: ExitStatus, written: String) -> (r: Result<
    String,
    OutputError,
>)
    ensures
        match status {
            ExitStatus::Exited(code) => if code == 0 {
                r == Ok::<String, OutputError>(written)
            } else {
                r == Err::<String, OutputError>(OutputError::FailedCommand(code))
            },
            ExitStatus::Signaled(signal) => r == Err::<String, OutputError>(
                OutputError::TerminatedCommand(signal),
            ),
        },
{
    match status {
        ExitStatus::Exited(code) => {
            if code == 0 {
                Ok(written)
            } else {
                Err(OutputError::FailedCommand(code))
            }
        },
        ExitStatus::Signaled(signal) => Err(OutputError::TerminatedCommand(signal)),
    }
}

/// Whether the documentation in the form `weave_type` is printed markdown.
pub open spec fn prints_markdown(weave_type: Type) -> bool {
    match weave_type {
        Type::Markdown => true,
        Type::HtmlViaMarkdown(command) => command is Some,
    }
}

/// Whether `woven` is the documentation made of `events` in the form that
/// `weave_type` names.
pub open spec fn woven_of(woven: Woven, weave_type: Type, events: Seq<EventSpec>) -> bool {
    match weave_type {
        Type::Markdown => woven is Markdown && woven->Markdown_0@ == prettified(events),
        Type::HtmlViaMarkdown(None) => woven is Html && woven->Html_0@ == html_of(events),
        Type::HtmlViaMarkdown(Some(command)) => {
            &&& woven is ToCompile
            &&& woven->command@ == command@
            &&& woven->markdown@ == prettified(events)
        },
    }
}

/// The documentation of `file` in the form that `settings` asks for. Where
/// that form is printed markdown, it is an error that the documentation
/// cannot be printed.
pub fn weave_file_with_blocks<'a>(
    settings: &Settings,
    file: &'a LinkedFile<'a>,
    block_map: &'a BlockMap,
) -> (r: Result<Woven, OutputError>)
    ensures
        ({
            let events = document_events(
                file.metadata.title@,
                file.metadata.code_type@,
                linked_section_views(file.sections@),
            );
            match r {
                Ok(woven) => {
                    &&& woven_of(woven, settings.weave_type, events)
                    &&& prints_markdown(settings.weave_type) ==> printable(events)
                },
                Err(e) => {
                    &&& e is UnprintableMarkdown
                    &&& prints_markdown(settings.weave_type)
                    &&& !printable(events)
                },
            }
        }),
{
    let markdown = MarkDown::build(settings, file, block_map);
    match &settings.weave_type {
        Type::HtmlViaMarkdown(maybe_command) => match maybe_command {
            Some(command) => {
                let printed = print_markdown(markdown)?;
                Ok(Woven::ToCompile { command: command.clone(), markdown: printed })
            },
            None => Ok(Woven::Html(compile_markdown(markdown))),
        },
        Type::Markdown => {
            let printed = print_markdown(markdown)?;
            Ok(Woven::Markdown(printed))
        },
    }
}

} // verus!
