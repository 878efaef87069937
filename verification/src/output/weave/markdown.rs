//! The documentation of a document as a run of markdown events.

use vstd::prelude::*;
use std::borrow::Cow::Borrowed;
use pulldown_cmark::Parser;
use pulldown_cmark::Event::{Start, End, Text, SoftBreak};
use pulldown_cmark::Tag::{Header, CodeBlock, List};
use pulldown_cmark::html::push_html;
use prettify_cmark::PrettyPrinter;
use crate::link::{LinkedFile, LinkedBlock, LinkedLine, line_views, linked_section_views};
use crate::output::canon::BlockMap;
use crate::output::weave::Settings;
use crate::parser::ast::{SectionSpec, BlockSpec};
use crate::parser::grammar::{lines_of, split_lines, lemma_lines_hold_no_feed};
use crate::text::views;

verus! {

/// One step of a markdown document.
pub enum DocEvent<'m> {
    /// A heading of the given level starts.
    StartHeader(i32),
    /// The heading of the given level ends.
    EndHeader(i32),
    /// A block of code starts, in the language that the text names.
    StartCode(&'m str),
    /// The block of code in that language ends.
    EndCode(&'m str),
    /// Text, to be shown as it stands.
    Text(&'m str),
    /// The end of a line, which is no end of a paragraph.
    SoftBreak,
    /// An event that the markdown parser read from prose.
    Parsed(pulldown_cmark::Event<'m>),
}

/// An event of the markdown parser. Nothing of what it holds is looked at
/// here: it is handed from the parser to what writes the documentation.
#[verifier::external_type_specification]
#[verifier::external_body]
pub struct ExParserEvent<'a>(pulldown_cmark::Event<'a>);

/// A [`DocEvent`] as the contracts see it.
pub enum EventSpec {
    StartHeader(i32),
    EndHeader(i32),
    StartCode(Seq<char>),
    EndCode(Seq<char>),
    Text(Seq<char>),
    SoftBreak,
    Parsed(pulldown_cmark::Event<'static>),
}

impl<'m> View for DocEvent<'m> {
    type V = EventSpec;

    open spec fn view(&self) -> EventSpec {
        match self {
            DocEvent::StartHeader(level) => EventSpec::StartHeader(*level),
            DocEvent::EndHeader(level) => EventSpec::EndHeader(*level),
            DocEvent::StartCode(language) => EventSpec::StartCode(language@),
            DocEvent::EndCode(language) => EventSpec::EndCode(language@),
            DocEvent::Text(text) => EventSpec::Text(text@),
            DocEvent::SoftBreak => EventSpec::SoftBreak,
            DocEvent::Parsed(event) => EventSpec::Parsed(*event),
        }
    }
}

/// The events of a list, as the contracts see them.
pub open spec fn event_views<'m>(events: Seq<DocEvent<'m>>) -> Seq<EventSpec> {
    Seq::new(events.len(), |i: int| events[i]@)
}

/// The deepest level of a heading that can be written.
pub const DEEPEST_HEADER: i32 = 207;

/// The events that the markdown parser reads from `text`, a line of text.
pub uninterp spec fn parsed_events(text: Seq<char>) -> Seq<pulldown_cmark::Event<'static>>;

/// The number that a numbered list starts at, where `event` opens one.
pub uninterp spec fn list_start_of(event: pulldown_cmark::Event<'static>) -> Option<usize>;

/// The number that a numbered list starts at, where `event` opens one: the
/// number in `Start(Tag::List(..))`, and nothing for every other event.
#[verifier::external_body]
pub(crate) fn list_start(event: &pulldown_cmark::Event) -> (start: Option<usize>)
    ensures
        start == list_start_of(*event),
{
    match event {
        Start(List(start)) => *start,
        _ => None,
    }
}

/// Whether the markdown parser reads `event` from some line of text.
pub open spec fn read_by_parser(event: pulldown_cmark::Event<'static>) -> bool {
    exists|text: Seq<char>, i: int|
        !text.contains('\n') && 0 <= i < parsed_events(text).len() && #[trigger] parsed_events(
            text,
        )[i] == event
}

/// Whether the event can be written: the level of a heading is not
/// negative and not beyond the deepest level, and an event of the parser is
/// one that the parser reads from some text.
pub open spec fn writable(event: EventSpec) -> bool {
    match event {
        EventSpec::StartHeader(level) => 0 <= level <= DEEPEST_HEADER,
        EventSpec::EndHeader(level) => 0 <= level <= DEEPEST_HEADER,
        EventSpec::Parsed(event) => read_by_parser(event),
        _ => true,
    }
}

/// Whether every one of `events` can be written.
pub open spec fn all_writable(events: Seq<EventSpec>) -> bool {
    forall|i: int| 0 <= i < events.len() ==> writable(#[trigger] events[i])
}

/// Whether a numbered list that starts at `start` can be printed as part of
/// a run of `count` events. The printer counts the items of a list up from
/// its start, and puts a tenth of the number and three more in spaces before
/// the lines of an item, for every list that is open. A run of `count`
/// events opens fewer than `count` lists with fewer than `count` items, so
/// within these bounds no number and no run of spaces passes what the
/// machine can hold.
pub open spec fn list_fits(start: usize, count: nat) -> bool {
    &&& count > 0
    &&& start + count <= usize::MAX
    &&& (start + count) / 10 + 3 <= (usize::MAX / 2 - 1) / (count as int)
}

/// Whether a run of `count` events is short enough to be printed, whatever
/// lists it opens.
pub open spec fn length_fits(count: nat) -> bool {
    count == 0 || 3 <= (usize::MAX / 2 - 1) / (count as int)
}

/// Whether the event, as one of a run of `count` events, opens no numbered
/// list that cannot be printed.
pub open spec fn event_fits(event: EventSpec, count: nat) -> bool {
    match event {
        EventSpec::Parsed(event) => match list_start_of(event) {
            Some(start) => list_fits(start, count),
            None => true,
        },
        _ => true,
    }
}

/// Whether the first `upto` of `events` fit the printer.
pub open spec fn fit_upto(events: Seq<EventSpec>, upto: int) -> bool {
    forall|i: int| 0 <= i < upto && i < events.len() ==> event_fits(#[trigger] events[i], events.len())
}

/// Whether `events` can be printed as markdown: the run is short enough,
/// and every numbered list in it starts at a number that leaves room for
/// its items.
pub open spec fn printable(events: Seq<EventSpec>) -> bool {
    length_fits(events.len()) && fit_upto(events, events.len() as int)
}

/// The HTML that `events` are rendered to.
pub uninterp spec fn html_of(events: Seq<EventSpec>) -> Seq<char>;

/// The markdown text that `events` are printed as.
pub uninterp spec fn prettified(events: Seq<EventSpec>) -> Seq<char>;

/// Reads one line of markdown: the events that `pulldown_cmark::Parser::new`
/// yields for `text`, in their order. They depend on the text alone. Only
/// text without a line feed is read.
#[verifier::external_body]
pub(crate) fn parse_markdown<'m>(text: &'m str) -> (events: Vec<pulldown_cmark::Event<'m>>)
    requires
        !text@.contains('\n'),
    ensures
        events@ == parsed_events(text@),
{
    Parser::new(text).collect()
}

/// Renders events to HTML, as `pulldown_cmark::html::push_html` does into an
/// empty string. An event of the parser is handed on as it stands. The
/// result depends on the events alone. The renderer adds the level of a
/// heading to the digit `0` in a byte, so levels that do not fit are left
/// out; the parser gives the levels 1 to 6.
#[verifier::external_body]
pub(crate) fn render_html(events: &Vec<DocEvent>) -> (out: String)
    requires
        all_writable(event_views(events@)),
    ensures
        out@ == html_of(event_views(events@)),
{
    let mut out = String::new();
    push_html(&mut out, events.iter().map(|e| match e {
        DocEvent::StartHeader(n) => Start(Header(*n)),
        DocEvent::EndHeader(n) => End(Header(*n)),
        DocEvent::StartCode(c) => Start(CodeBlock(Borrowed(*c))),
        DocEvent::EndCode(c) => End(CodeBlock(Borrowed(*c))),
        DocEvent::Text(t) => Text(Borrowed(*t)),
        DocEvent::SoftBreak => SoftBreak,
        DocEvent::Parsed(e) => e.clone(),
    }));
    out
}

/// Prints events as markdown text, as a `prettify_cmark::PrettyPrinter`
/// over an empty string does when the events are pushed into it. An event
/// of the parser is handed on as it stands. The result depends on the
/// events alone. The printer writes one `#` for each level of a heading, so
/// negative levels are left out. It adds one to the number of a list for
/// each item and writes spaces by the numbers of the open lists, so runs
/// that are not printable are left out. Writing into a string does not fail.
#[verifier::external_body]
pub(crate) fn pretty_print(events: &Vec<DocEvent>) -> (out: String)
    requires
        all_writable(event_views(events@)),
        printable(event_views(events@)),
    ensures
        out@ == prettified(event_views(events@)),
{
    let mut printer = PrettyPrinter::new(String::new());
    printer.push_events(events.iter().map(|e| match e {
        DocEvent::StartHeader(n) => Start(Header(*n)),
        DocEvent::EndHeader(n) => End(Header(*n)),
        DocEvent::StartCode(c) => Start(CodeBlock(Borrowed(*c))),
        DocEvent::EndCode(c) => End(CodeBlock(Borrowed(*c))),
        DocEvent::Text(t) => Text(Borrowed(*t)),
        DocEvent::SoftBreak => SoftBreak,
        DocEvent::Parsed(e) => e.clone(),
    })).unwrap();
    printer.into_inner()
}

/// Whether a numbered list that starts at `start` can be printed as part of
/// a run of `count` events.
pub fn list_can_be_printed(start: usize, count: usize) -> (fits: bool)
    ensures
        fits == list_fits(start, count as nat),
{
    if count == 0 || start > usize::MAX - count {
        return false;
    }
    (start + count) / 10 + 3 <= (usize::MAX / 2 - 1) / count
}

/// Whether `events` can be printed as markdown.
pub fn can_be_printed<'m>(events: &Vec<DocEvent<'m>>) -> (fits: bool)
    ensures
        fits == printable(event_views(events@)),
{
    let ghost all = event_views(events@);
    let count = events.len();
    if count > 0 && (usize::MAX / 2 - 1) / count < 3 {
        return false;
    }
    let mut i: usize = 0;
    while i < count
        invariant
            i <= count,
            count == events.len(),
            all == event_views(events@),
            length_fits(count as nat),
            fit_upto(all, i as int),
        decreases count - i,
    {
        proof {
            assert(all[i as int] == events@[i as int]@);
        }
        match &events[i] {
            DocEvent::Parsed(event) => match list_start(event) {
                Some(start) => {
                    if !list_can_be_printed(start, count) {
                        proof {
                            assert(!event_fits(all[i as int], all.len()));
                        }
                        return false;
                    }
                },
                None => {},
            },
            _ => {},
        }
        i += 1;
    }
    true
}

/// The level of the heading that stands above the documentation.
pub const TITLE_LEVEL: i32 = 1;

/// The level of the heading of a section that is nested `depth` deep: four
/// at the top, one more for each level of nesting, and never beyond the
/// deepest level that can be written.
pub open spec fn header_level(depth: usize) -> i32 {
    if depth <= DEEPEST_HEADER - 4 {
        (4 + depth) as i32
    } else {
        DEEPEST_HEADER
    }
}

/// The events of the title.
pub open spec fn title_events(title: Seq<char>) -> Seq<EventSpec> {
    seq![
        EventSpec::StartHeader(TITLE_LEVEL),
        EventSpec::Text(title),
        EventSpec::EndHeader(TITLE_LEVEL),
    ]
}

/// The events of the heading of a section: none where the section has no
/// name.
pub open spec fn section_header_events(name: Option<Seq<char>>, depth: usize) -> Seq<EventSpec> {
    match name {
        Some(name) => seq![
            EventSpec::StartHeader(header_level(depth)),
            EventSpec::Text(name),
            EventSpec::EndHeader(header_level(depth)),
        ],
        None => Seq::empty(),
    }
}

/// The events of the lines of a block of code: each line as it stands, and
/// the end of a line behind it.
pub open spec fn code_line_events(lines: Seq<Seq<char>>) -> Seq<EventSpec>
    decreases lines.len(),
{
    if lines.len() == 0 {
        Seq::empty()
    } else {
        code_line_events(lines.drop_last()).push(EventSpec::Text(lines.last())).push(
            EventSpec::SoftBreak,
        )
    }
}

/// The events of a block of code in the language `code_type`.
pub open spec fn code_block_events(lines: Seq<Seq<char>>, code_type: Seq<char>) -> Seq<EventSpec> {
    seq![EventSpec::StartCode(code_type)] + code_line_events(lines) + seq![
        EventSpec::EndCode(code_type),
        EventSpec::SoftBreak,
    ]
}

/// The events of the parser as events of the documentation.
pub open spec fn as_events(parsed: Seq<pulldown_cmark::Event<'static>>) -> Seq<EventSpec> {
    Seq::new(parsed.len(), |i: int| EventSpec::Parsed(parsed[i]))
}

/// The events of pieces of markdown, each of which is read by itself.
pub open spec fn pieces_events(pieces: Seq<Seq<char>>) -> Seq<EventSpec>
    decreases pieces.len(),
{
    if pieces.len() == 0 {
        Seq::empty()
    } else {
        pieces_events(pieces.drop_last()) + as_events(parsed_events(pieces.last()))
    }
}

/// The events of prose: every line is markdown, and is read by itself. A
/// line that holds line feeds is read piece by piece, as the lines that it
/// is made of.
pub open spec fn prose_events(lines: Seq<Seq<char>>) -> Seq<EventSpec>
    decreases lines.len(),
{
    if lines.len() == 0 {
        Seq::empty()
    } else {
        prose_events(lines.drop_last()) + pieces_events(lines_of(lines.last()))
    }
}

/// The events of one block.
pub open spec fn block_events(block: BlockSpec, code_type: Seq<char>) -> Seq<EventSpec> {
    if block.is_code {
        code_block_events(block.lines, code_type)
    } else {
        prose_events(block.lines)
    }
}

/// The events of the blocks of a section, one block after another.
pub open spec fn blocks_events(blocks: Seq<BlockSpec>, code_type: Seq<char>) -> Seq<EventSpec>
    decreases blocks.len(),
{
    if blocks.len() == 0 {
        Seq::empty()
    } else {
        blocks_events(blocks.drop_last(), code_type) + block_events(blocks.last(), code_type)
    }
}

/// The events of sections: of each its heading and then its blocks.
pub open spec fn sections_events(sections: Seq<SectionSpec>, code_type: Seq<char>) -> Seq<
    EventSpec,
>
    decreases sections.len(),
{
    if sections.len() == 0 {
        Seq::empty()
    } else {
        sections_events(sections.drop_last(), code_type) + section_header_events(
            sections.last().name,
            sections.last().depth,
        ) + blocks_events(sections.last().blocks, code_type)
    }
}

/// The events of the documentation of a document: the title, then the
/// sections. Every block of code is shown as it was written, links and all,
/// under the language of the document.
pub open spec fn document_events(
    title: Seq<char>,
    code_type: Seq<char>,
    sections: Seq<SectionSpec>,
) -> Seq<EventSpec> {
    title_events(title) + sections_events(sections, code_type)
}

/// Appends the events of `more` to `events`.
pub fn append_events<'m>(events: &mut Vec<DocEvent<'m>>, more: Vec<DocEvent<'m>>)
    ensures
        event_views(final(events)@) == event_views(old(events)@) + event_views(more@),
{
    let ghost before = events@;
    let mut more = more;
    let ghost added = more@;
    events.append(&mut more);
    proof {
        assert(event_views(events@) =~= event_views(before) + event_views(added));
    }
}

/// The level of the heading of a section that is nested `depth` deep.
pub fn level_of(depth: usize) -> (level: i32)
    ensures
        level == header_level(depth),
        4 <= level <= DEEPEST_HEADER,
{
    if depth <= 203 {
        4 + depth as i32
    } else {
        DEEPEST_HEADER
    }
}

/// The events of the title.
pub fn build_title<'a>(title: &'a str) -> (events: Vec<DocEvent<'a>>)
    ensures
        event_views(events@) == title_events(title@),
{
    let mut events: Vec<DocEvent<'a>> = Vec::new();
    events.push(DocEvent::StartHeader(TITLE_LEVEL));
    events.push(DocEvent::Text(title));
    events.push(DocEvent::EndHeader(TITLE_LEVEL));
    proof {
        assert(event_views(events@) =~= title_events(title@));
    }
    events
}

/// The events of the heading of a section.
pub fn build_section_header<'a>(settings: &Settings, name: Option<&'a str>, depth: usize) -> (events:
    Vec<DocEvent<'a>>)
    ensures
        event_views(events@) == section_header_events(
            match name {
                Some(name) => Some(name@),
                None => None,
            },
            depth,
        ),
{
    let mut events: Vec<DocEvent<'a>> = Vec::new();
    match name {
        Some(name) => {
            events.push(DocEvent::StartHeader(level_of(depth)));
            events.push(DocEvent::Text(name));
            events.push(DocEvent::EndHeader(level_of(depth)));
            proof {
                assert(event_views(events@) =~= section_header_events(Some(name@), depth));
            }
        },
        None => {
            proof {
                assert(event_views(events@) =~= Seq::<EventSpec>::empty());
            }
        },
    }
    events
}

/// The events of a block of code.
pub fn build_code_block<'a>(
    settings: &Settings,
    name: &'a str,
    lines: &'a Vec<LinkedLine<'a>>,
    block_map: &'a BlockMap,
    code_type: &'a str,
) -> (events: Vec<DocEvent<'a>>)
    ensures
        event_views(events@) == code_block_events(line_views(lines@), code_type@),
{
    let ghost texts = line_views(lines@);
    let mut events: Vec<DocEvent<'a>> = Vec::new();
    events.push(DocEvent::StartCode(code_type));
    let mut i: usize = 0;
    proof {
        assert(event_views(events@) =~= seq![EventSpec::StartCode(code_type@)] + code_line_events(
            texts.take(0),
        ));
    }
    while i < lines.len()
        invariant
            i <= lines.len(),
            texts == line_views(lines@),
            event_views(events@) == seq![EventSpec::StartCode(code_type@)] + code_line_events(
                texts.take(i as int),
            ),
        decreases lines.len() - i,
    {
        proof {
            assert(texts.take(i + 1).drop_last() =~= texts.take(i as int));
            assert(texts.take(i + 1).last() == lines@[i as int]@);
        }
        let ghost before = event_views(events@);
        events.push(DocEvent::Text(lines[i].get_text()));
        events.push(DocEvent::SoftBreak);
        proof {
            assert(event_views(events@) =~= before.push(EventSpec::Text(lines@[i as int]@)).push(
                EventSpec::SoftBreak,
            ));
            assert(before.push(EventSpec::Text(lines@[i as int]@)).push(EventSpec::SoftBreak)
                =~= seq![EventSpec::StartCode(code_type@)] + code_line_events(texts.take(i + 1)));
        }
        i += 1;
    }
    proof {
        assert(texts.take(lines.len() as int) =~= texts);
    }
    events.push(DocEvent::EndCode(code_type));
    events.push(DocEvent::SoftBreak);
    proof {
        assert(event_views(events@) =~= code_block_events(texts, code_type@));
    }
    events
}

/// The events of one line of prose.
pub fn build_prose_line<'a>(line: &'a str) -> (events: Vec<DocEvent<'a>>)
    ensures
        event_views(events@) == pieces_events(lines_of(line@)),
{
    let pieces = split_lines(line);
    let ghost texts = views(pieces@);
    let mut events: Vec<DocEvent<'a>> = Vec::new();
    let mut i: usize = 0;
    proof {
        lemma_lines_hold_no_feed(line@);
        assert(event_views(events@) =~= pieces_events(texts.take(0)));
    }
    while i < pieces.len()
        invariant
            i <= pieces.len(),
            texts == views(pieces@),
            texts == lines_of(line@),
            forall|k: int| 0 <= k < texts.len() ==> !(#[trigger] texts[k]).contains('\n'),
            event_views(events@) == pieces_events(texts.take(i as int)),
        decreases pieces.len() - i,
    {
        proof {
            assert(texts.take(i + 1).drop_last() =~= texts.take(i as int));
            assert(texts.take(i + 1).last() == pieces@[i as int]@);
            assert(texts[i as int] == pieces@[i as int]@);
        }
        let ghost before = event_views(events@);
        let parsed = parse_markdown(pieces[i]);
        let ghost read = parsed@;
        proof {
            assert(before + as_events(read.take(0)) =~= before);
        }
        for event in it: parsed
            invariant
                it.seq() == read,
                event_views(events@) == before + as_events(read.take(it.index() as int)),
        {
            let ghost so_far = event_views(events@);
            events.push(DocEvent::Parsed(event));
            proof {
                assert(event_views(events@) =~= so_far.push(EventSpec::Parsed(event)));
                assert(as_events(read.take(it.index() + 1)) =~= as_events(
                    read.take(it.index() as int),
                ).push(EventSpec::Parsed(event)));
            }
        }
        proof {
            assert(read.take(read.len() as int) =~= read);
        }
        i += 1;
    }
    proof {
        assert(texts.take(pieces.len() as int) =~= texts);
    }
    events
}

/// The events of a block of prose.
pub fn build_prose<'a>(lines: &'a Vec<LinkedLine<'a>>) -> (events: Vec<DocEvent<'a>>)
    ensures
        event_views(events@) == prose_events(line_views(lines@)),
{
    let ghost texts = line_views(lines@);
    let mut events: Vec<DocEvent<'a>> = Vec::new();
    let mut i: usize = 0;
    proof {
        assert(event_views(events@) =~= prose_events(texts.take(0)));
    }
    while i < lines.len()
        invariant
            i <= lines.len(),
            texts == line_views(lines@),
            event_views(events@) == prose_events(texts.take(i as int)),
        decreases lines.len() - i,
    {
        proof {
            assert(texts.take(i + 1).drop_last() =~= texts.take(i as int));
            assert(texts.take(i + 1).last() == lines@[i as int]@);
        }
        append_events(&mut events, build_prose_line(lines[i].get_text()));
        i += 1;
    }
    proof {
        assert(texts.take(lines.len() as int) =~= texts);
    }
    events
}

/// The events of the title can be written.
pub proof fn lemma_title_writable(title: Seq<char>)
    ensures
        all_writable(title_events(title)),
{
}

/// The events of the heading of a section can be written.
pub proof fn lemma_section_header_writable(name: Option<Seq<char>>, depth: usize)
    ensures
        all_writable(section_header_events(name, depth)),
{
}

/// The events of the lines of a block of code can be written.
pub proof fn lemma_code_lines_writable(lines: Seq<Seq<char>>)
    ensures
        all_writable(code_line_events(lines)),
    decreases lines.len(),
{
    if lines.len() > 0 {
        lemma_code_lines_writable(lines.drop_last());
    }
}

/// The events of pieces of markdown can be written, where no piece holds a
/// line feed: the parser read each of them from a line.
pub proof fn lemma_pieces_writable(pieces: Seq<Seq<char>>)
    requires
        forall|k: int| 0 <= k < pieces.len() ==> !(#[trigger] pieces[k]).contains('\n'),
    ensures
        all_writable(pieces_events(pieces)),
    decreases pieces.len(),
{
    if pieces.len() > 0 {
        assert forall|k: int| 0 <= k < pieces.drop_last().len() implies !(
        #[trigger] pieces.drop_last()[k]).contains('\n') by {
            assert(pieces.drop_last()[k] == pieces[k]);
        }
        lemma_pieces_writable(pieces.drop_last());
        let front = pieces_events(pieces.drop_last());
        let text = pieces.last();
        assert(text == pieces[pieces.len() - 1]);
        let read = parsed_events(text);
        assert forall|i: int| 0 <= i < pieces_events(pieces).len() implies writable(
            #[trigger] pieces_events(pieces)[i],
        ) by {
            if i < front.len() {
                assert(pieces_events(pieces)[i] == front[i]);
            } else {
                let k = i - front.len();
                assert(pieces_events(pieces)[i] == EventSpec::Parsed(read[k]));
                assert(parsed_events(text)[k] == read[k]);
            }
        }
    }
}

/// The events of prose can be written.
pub proof fn lemma_prose_writable(lines: Seq<Seq<char>>)
    ensures
        all_writable(prose_events(lines)),
    decreases lines.len(),
{
    if lines.len() > 0 {
        lemma_prose_writable(lines.drop_last());
        lemma_lines_hold_no_feed(lines.last());
        lemma_pieces_writable(lines_of(lines.last()));
    }
}

/// The events of blocks can be written.
pub proof fn lemma_blocks_writable(blocks: Seq<BlockSpec>, code_type: Seq<char>)
    ensures
        all_writable(blocks_events(blocks, code_type)),
    decreases blocks.len(),
{
    if blocks.len() > 0 {
        lemma_blocks_writable(blocks.drop_last(), code_type);
        lemma_code_lines_writable(blocks.last().lines);
        lemma_prose_writable(blocks.last().lines);
    }
}

/// The events of sections can be written.
pub proof fn lemma_sections_writable(sections: Seq<SectionSpec>, code_type: Seq<char>)
    ensures
        all_writable(sections_events(sections, code_type)),
    decreases sections.len(),
{
    if sections.len() > 0 {
        lemma_sections_writable(sections.drop_last(), code_type);
        lemma_section_header_writable(sections.last().name, sections.last().depth);
        lemma_blocks_writable(sections.last().blocks, code_type);
    }
}

/// Every event of the documentation of a document can be written.
pub proof fn lemma_document_writable(
    title: Seq<char>,
    code_type: Seq<char>,
    sections: Seq<SectionSpec>,
)
    ensures
        all_writable(document_events(title, code_type, sections)),
{
    lemma_title_writable(title);
    lemma_sections_writable(sections, code_type);
}

/// The documentation of one document, as a run of events, every one of
/// which can be written.
pub struct MarkDown<'m> {
    file_contents: Vec<DocEvent<'m>>,
}

impl<'m> View for MarkDown<'m> {
    type V = Seq<EventSpec>;

    closed spec fn view(&self) -> Seq<EventSpec> {
        event_views(self.file_contents@)
    }
}

impl<'m> MarkDown<'m> {
    #[verifier::type_invariant]
    closed spec fn inv(&self) -> bool {
        all_writable(event_views(self.file_contents@))
    }

    /// The documentation of `file`: its title, and section by section the
    /// heading, the blocks of code and the prose.
    pub fn build(settings: &Settings, file: &'m LinkedFile<'m>, block_map: &'m BlockMap) -> (markdown:
        Self)
        ensures
            markdown@ == document_events(
                file.metadata.title@,
                file.metadata.code_type@,
                linked_section_views(file.sections@),
            ),
            all_writable(markdown@),
    {
        let ghost sections = linked_section_views(file.sections@);
        let ghost code_type = file.metadata.code_type@;
        let mut file_contents: Vec<DocEvent<'m>> = Vec::new();
        proof {
            assert(event_views(file_contents@) =~= Seq::<EventSpec>::empty());
        }
        append_events(&mut file_contents, build_title(file.metadata.title.as_str()));
        let mut i: usize = 0;
        proof {
            assert(event_views(file_contents@) =~= title_events(file.metadata.title@)
                + sections_events(sections.take(0), code_type));
        }
        while i < file.sections.len()
            invariant
                i <= file.sections.len(),
                sections == linked_section_views(file.sections@),
                code_type == file.metadata.code_type@,
                event_views(file_contents@) == title_events(file.metadata.title@)
                    + sections_events(sections.take(i as int), code_type),
            decreases file.sections.len() - i,
        {
            let section = &file.sections[i];
            let ghost done = event_views(file_contents@);
            let ghost blocks = section@.blocks;
            proof {
                assert(sections.take(i + 1).drop_last() =~= sections.take(i as int));
                assert(sections.take(i + 1).last() == section@);
            }
            append_events(
                &mut file_contents,
                build_section_header(settings, section.name, section.depth),
            );
            let ghost headed = event_views(file_contents@);
            let mut k: usize = 0;
            proof {
                assert(headed + blocks_events(blocks.take(0), code_type) =~= headed);
            }
            while k < section.blocks.len()
                invariant
                    k <= section.blocks.len(),
                    blocks == section@.blocks,
                    blocks.len() == section.blocks.len(),
                    code_type == file.metadata.code_type@,
                    event_views(file_contents@) == headed + blocks_events(
                        blocks.take(k as int),
                        code_type,
                    ),
                decreases section.blocks.len() - k,
            {
                proof {
                    assert(blocks.take(k + 1).drop_last() =~= blocks.take(k as int));
                    assert(blocks.take(k + 1).last() == section.blocks@[k as int]@);
                }
                let ghost so_far = event_views(file_contents@);
                match &section.blocks[k] {
                    LinkedBlock::Code { name, lines, .. } => {
                        append_events(
                            &mut file_contents,
                            build_code_block(
                                settings,
                                name.as_str(),
                                lines,
                                block_map,
                                file.metadata.code_type.as_str(),
                            ),
                        );
                    },
                    LinkedBlock::Prose { lines } => {
                        append_events(&mut file_contents, build_prose(lines));
                    },
                }
                proof {
                    assert(event_views(file_contents@) =~= headed + blocks_events(
                        blocks.take(k + 1),
                        code_type,
                    ));
                }
                k += 1;
            }
            proof {
                assert(blocks.take(section.blocks.len() as int) =~= blocks);
                assert(event_views(file_contents@) =~= title_events(file.metadata.title@)
                    + sections_events(sections.take(i + 1), code_type));
            }
            i += 1;
        }
        proof {
            assert(sections.take(file.sections.len() as int) =~= sections);
            lemma_document_writable(file.metadata.title@, code_type, sections);
        }
        MarkDown { file_contents }
    }

    /// The events of the documentation.
    pub fn into_iter(self) -> (events: Vec<DocEvent<'m>>)
        ensures
            event_views(events@) == self@,
            all_writable(event_views(events@)),
    {
        proof {
            use_type_invariant(&self);
        }
        self.file_contents
    }
}

} // verus!
