//! Link resolution: splitting lines into text and links, recording which
//! block links to which, and refusing links that lead nowhere or in a circle.

pub mod grammar;
pub mod graph;
pub mod document;

use vstd::prelude::*;
use vstd::string::*;
use crate::text::{chars_of, blank, views, string_views, lemma_views_push};
use crate::link::grammar::{
    LinkPart, Part, parts_of, parts_from, text_end, link_close, name_start, name_end,
    well_formed_line, link_names, text_slices, links_of, next_link,
};
use crate::link::graph::{LinkMap, find_cycle, first_cycle};
use crate::link::document::{
    block_links, first_malformed, first_unknown, extend_graph, empty_graph, graph_of, resolution,
    Resolution, links_within, lemma_block_links_add, lemma_lines_of_blocks_add,
    lemma_lines_of_sections_add, lemma_first_malformed_add, lemma_first_unknown_add,
    lemma_extend_graph_add, lemma_with_links_within, lemma_links_within_wider,
    lemma_closed_from_pool,
};
use crate::parser::grammar::BlockModifier;
use crate::parser::ast::{
    Block, BlockSpec, Section, SectionSpec, LitFile, Metadata, Occurrence, section_views,
    lines_of_blocks, lines_of_sections, occurrences_in, occurrences,
};
use crate::parser::FileMap;

verus! {

/// Why the links of a document could not be resolved.
#[derive(Debug)]
pub enum LinkError {
    /// A line opens a link that is never closed or has no name. Holds the line.
    MalformedReferenceSyntax(String),
    /// A link names a block that the document does not define. Holds the name.
    UnknownReference(String),
    /// A chain of links comes back to a block that it has passed. Holds the
    /// chain, which ends on the repeated name.
    CyclicReference(Vec<String>),
}

/// The parts that a list of kinds and a list of slices stand for, pair by pair.
pub open spec fn paired(kinds: Seq<LinkPart>, slices: Seq<&str>) -> Seq<Part> {
    Seq::new(kinds.len(), |i: int| Part { kind: kinds[i], slice: slices[i]@ })
}

/// A line of a block, split into its parts. The line itself is kept beside
/// the parts, and the parts are always those that the grammar gives for it.
pub struct LinkedLine<'a> {
    pub(crate) parts: Vec<LinkPart>,
    pub(crate) slices: Vec<&'a str>,
    pub(crate) text: &'a str,
}

impl<'a> View for LinkedLine<'a> {
    type V = Seq<char>;

    /// A linked line is seen as its text; its parts follow from the text.
    closed spec fn view(&self) -> Seq<char> {
        self.text@
    }
}

impl<'a> LinkedLine<'a> {
    #[verifier::type_invariant]
    closed spec fn inv(&self) -> bool {
        &&& self.parts.len() == self.slices.len()
        &&& parts_of(self.text@) == Some(paired(self.parts@, self.slices@))
    }

    /// Splits `line` into its parts. `None` where a link in it is never
    /// closed or has no name.
    pub fn parse(line: &'a str) -> (r: Option<LinkedLine<'a>>)
        ensures
            r is Some <==> well_formed_line(line@),
            r is Some ==> r.unwrap()@ == line@,
    {
        let cs = chars_of(line);
        let n = cs.len();
        let mut parts: Vec<LinkPart> = Vec::new();
        let mut slices: Vec<&'a str> = Vec::new();
        let mut i: usize = 0;
        while i < n
            invariant
                n == cs.len(),
                cs@ == line@,
                i <= n,
                parts.len() == slices.len(),
                parts_of(line@) == (match parts_from(line@, i as int) {
                    Some(rest) => Some(paired(parts@, slices@) + rest),
                    None => None,
                }),
            decreases n - i,
        {
            let ghost before = paired(parts@, slices@);
            if cs[i] == '@' && i + 1 < n && cs[i + 1] == '{' {
                let mut close: usize = i + 2;
                while close < n && cs[close] != '}'
                    invariant
                        n == cs.len(),
                        cs@ == line@,
                        i + 2 <= close <= n,
                        link_close(line@, i + 2) == link_close(line@, close as int),
                    decreases n - close,
                {
                    close += 1;
                }
                let mut lo: usize = i + 2;
                while lo < close && blank(cs[lo])
                    invariant
                        n == cs.len(),
                        cs@ == line@,
                        i + 2 <= lo <= close <= n,
                        name_start(line@, i + 2, close as int) == name_start(
                            line@,
                            lo as int,
                            close as int,
                        ),
                    decreases close - lo,
                {
                    lo += 1;
                }
                let mut hi: usize = close;
                while hi > lo && blank(cs[hi - 1])
                    invariant
                        n == cs.len(),
                        cs@ == line@,
                        lo <= hi <= close <= n,
                        name_end(line@, lo as int, close as int) == name_end(
                            line@,
                            lo as int,
                            hi as int,
                        ),
                    decreases hi - lo,
                {
                    hi -= 1;
                }
                if close >= n || lo >= hi {
                    return None;
                }
                parts.push(LinkPart::Link);
                slices.push(line.substring_char(lo, hi));
                proof {
                    let rest = parts_from(line@, close + 1);
                    if rest is Some {
                        assert(paired(parts@, slices@) + rest.unwrap() =~= before + (seq![
                            Part { kind: LinkPart::Link, slice: line@.subrange(lo as int, hi as int) },
                        ] + rest.unwrap()));
                    }
                }
                i = close + 1;
            } else {
                let mut end: usize = i + 1;
                while end < n && !(cs[end] == '@' && end + 1 < n && cs[end + 1] == '{')
                    invariant
                        n == cs.len(),
                        cs@ == line@,
                        i + 1 <= end <= n,
                        text_end(line@, i + 1) == text_end(line@, end as int),
                    decreases n - end,
                {
                    end += 1;
                }
                parts.push(LinkPart::Text);
                slices.push(line.substring_char(i, end));
                proof {
                    let rest = parts_from(line@, end as int);
                    if rest is Some {
                        assert(paired(parts@, slices@) + rest.unwrap() =~= before + (seq![
                            Part { kind: LinkPart::Text, slice: line@.subrange(i as int, end as int) },
                        ] + rest.unwrap()));
                    }
                }
                i = end;
            }
        }
        proof {
            assert(paired(parts@, slices@) + Seq::<Part>::empty() =~= paired(parts@, slices@));
        }
        Some(LinkedLine { parts, slices, text: line })
    }

    /// The line as it was written.
    pub fn get_text<'b>(&'b self) -> (r: &'b str)
        ensures
            r@ == self@,
    {
        self.text
    }

    /// How many parts the line has.
    pub fn part_count(&self) -> (n: usize)
        ensures
            well_formed_line(self@),
            n == parts_of(self@).unwrap().len(),
    {
        proof {
            use_type_invariant(self);
        }
        self.parts.len()
    }

    /// The kind of the part at `index`.
    pub fn part_kind(&self, index: usize) -> (kind: LinkPart)
        requires
            index < parts_of(self@).unwrap().len(),
        ensures
            kind == parts_of(self@).unwrap()[index as int].kind,
    {
        proof {
            use_type_invariant(self);
        }
        self.parts[index]
    }

    /// The characters of the part at `index`: its text, or the name it links to.
    pub fn part_slice(&self, index: usize) -> (slice: &'a str)
        requires
            index < parts_of(self@).unwrap().len(),
        ensures
            slice@ == parts_of(self@).unwrap()[index as int].slice,
    {
        proof {
            use_type_invariant(self);
        }
        self.slices[index]
    }

    /// The names that the line links to, in the order in which they stand.
    pub fn get_links(&self) -> (links: Vec<&'a str>)
        ensures
            views(links@) == links_of(self@),
    {
        proof {
            use_type_invariant(self);
        }
        let ghost all = paired(self.parts@, self.slices@);
        let mut links: Vec<&'a str> = Vec::new();
        let mut i: usize = 0;
        while i < self.parts.len()
            invariant
                i <= self.parts.len(),
                self.parts.len() == self.slices.len(),
                all == paired(self.parts@, self.slices@),
                views(links@) == link_names(all.take(i as int)),
            decreases self.parts.len() - i,
        {
            proof {
                assert(all.take(i + 1).drop_last() =~= all.take(i as int));
            }
            if self.parts[i].is_link() {
                links.push(self.slices[i]);
                proof {
                    assert(views(links@) =~= link_names(all.take(i as int)).push(
                        self.slices@[i as int]@,
                    ));
                }
            }
            i += 1;
        }
        proof {
            assert(all.take(self.parts.len() as int) =~= all);
        }
        links
    }

    /// The literal text among the parts `from..to` of the line.
    pub fn texts_between(&self, from: usize, to: usize) -> (texts: Vec<&'a str>)
        requires
            from <= to <= parts_of(self@).unwrap().len(),
        ensures
            views(texts@) == text_slices(
                parts_of(self@).unwrap().subrange(from as int, to as int),
            ),
    {
        proof {
            use_type_invariant(self);
        }
        let ghost all = paired(self.parts@, self.slices@);
        let mut texts: Vec<&'a str> = Vec::new();
        let mut i: usize = from;
        while i < to
            invariant
                from <= i <= to <= self.parts.len(),
                self.parts.len() == self.slices.len(),
                all == paired(self.parts@, self.slices@),
                views(texts@) == text_slices(all.subrange(from as int, i as int)),
            decreases to - i,
        {
            proof {
                assert(all.subrange(from as int, i + 1).drop_last() =~= all.subrange(
                    from as int,
                    i as int,
                ));
            }
            if !self.parts[i].is_link() {
                texts.push(self.slices[i]);
                proof {
                    assert(views(texts@) =~= text_slices(
                        all.subrange(from as int, i as int),
                    ).push(self.slices@[i as int]@));
                }
            }
            i += 1;
        }
        texts
    }

    /// Starts a walk over the links of the line.
    pub fn split_links<'b>(&'b self) -> (walk: SplitLinks<'a, 'b>)
        ensures
            walk.text() == self@,
            walk.cursor() == 0,
    {
        SplitLinks { first: true, current_position: 0, line: self }
    }
}

impl<'a> Clone for LinkedLine<'a> {
    /// A copy with the same text, and so the same parts.
    fn clone(&self) -> (copy: Self)
        ensures
            copy@ == self@,
    {
        proof {
            use_type_invariant(self);
        }
        let mut parts: Vec<LinkPart> = Vec::new();
        let mut slices: Vec<&'a str> = Vec::new();
        let mut i: usize = 0;
        while i < self.parts.len()
            invariant
                i <= self.parts.len(),
                self.parts.len() == self.slices.len(),
                parts@ == self.parts@.take(i as int),
                slices@ == self.slices@.take(i as int),
            decreases self.parts.len() - i,
        {
            parts.push(self.parts[i]);
            slices.push(self.slices[i]);
            proof {
                assert(parts@ =~= self.parts@.take(i + 1));
                assert(slices@ =~= self.slices@.take(i + 1));
            }
            i += 1;
        }
        proof {
            assert(parts@ =~= self.parts@);
            assert(slices@ =~= self.slices@);
        }
        LinkedLine { parts, slices, text: self.text }
    }
}

/// A walk over the links of one line. Each step gives a link with the literal
/// text that stands before it on the line and the literal text that stands
/// after it.
pub struct SplitLinks<'a, 'b> {
    first: bool,
    current_position: usize,
    line: &'b LinkedLine<'a>,
}

impl<'a, 'b> SplitLinks<'a, 'b> {
    /// The text of the line that is walked.
    pub closed spec fn text(&self) -> Seq<char> {
        self.line@
    }

    /// The part from which the next step looks for a link.
    pub closed spec fn cursor(&self) -> int {
        if self.first {
            0
        } else {
            self.current_position + 1
        }
    }

    /// The next link of the line, or `None` when none is left.
    pub fn next(&mut self) -> (item: Option<(Vec<&'a str>, &'a str, Vec<&'a str>)>)
        ensures
            final(self).text() == old(self).text(),
            well_formed_line(old(self).text()),
            ({
                let parts = parts_of(old(self).text()).unwrap();
                let at = next_link(parts, old(self).cursor());
                if at < parts.len() {
                    &&& item is Some
                    &&& views(item.unwrap().0@) == text_slices(parts.take(at))
                    &&& item.unwrap().1@ == parts[at].slice
                    &&& views(item.unwrap().2@) == text_slices(parts.skip(at + 1))
                    &&& final(self).cursor() == at + 1
                } else {
                    &&& item is None
                    &&& final(self).cursor() >= parts.len()
                }
            }),
    {
        let count = self.line.part_count();
        let ghost parts = parts_of(self.line@).unwrap();
        let ghost start = self.cursor();
        let mut at: usize = if self.first {
            0
        } else if self.current_position < count {
            self.current_position + 1
        } else {
            count
        };
        self.first = false;
        proof {
            if start > count {
                assert(next_link(parts, start) == start);
            }
        }
        while at < count && !self.line.part_kind(at).is_link()
            invariant
                at <= count,
                count == parts.len(),
                parts == parts_of(self.line@).unwrap(),
                start <= count ==> next_link(parts, start) == next_link(parts, at as int),
                start > count ==> at == count,
            decreases count - at,
        {
            at += 1;
        }
        self.current_position = at;
        if at >= count {
            return None;
        }
        let before = self.line.texts_between(0, at);
        let name = self.line.part_slice(at);
        let after = self.line.texts_between(at + 1, count);
        proof {
            assert(parts.subrange(0, at as int) =~= parts.take(at as int));
            assert(parts.subrange(at + 1, count as int) =~= parts.skip(at + 1));
        }
        Some((before, name, after))
    }
}

/// The texts of a list of linked lines.
pub open spec fn line_views<'a>(lines: Seq<LinkedLine<'a>>) -> Seq<Seq<char>> {
    Seq::new(lines.len(), |i: int| lines[i]@)
}

/// The texts of a list with one more line are the texts of the list with one
/// more text.
pub proof fn lemma_line_views_push<'a>(lines: Seq<LinkedLine<'a>>, last: LinkedLine<'a>)
    ensures
        line_views(lines.push(last)) == line_views(lines).push(last@),
{
    assert forall|i: int| 0 <= i < lines.len() + 1 implies line_views(lines.push(last))[i]
        == line_views(lines).push(last@)[i] by {
        if i < lines.len() {
            assert(lines.push(last)[i] == lines[i]);
            assert(line_views(lines)[i] == lines[i]@);
        }
    }
    assert(line_views(lines.push(last)) =~= line_views(lines).push(last@));
}

/// A block whose lines are split into their parts.
pub enum LinkedBlock<'a> {
    Code { name: &'a String, modifiers: BlockModifier, lines: Vec<LinkedLine<'a>> },
    Prose { lines: Vec<LinkedLine<'a>> },
}

impl<'a> View for LinkedBlock<'a> {
    type V = BlockSpec;

    open spec fn view(&self) -> BlockSpec {
        match self {
            LinkedBlock::Code { name, modifiers, lines } => BlockSpec {
                is_code: true,
                name: name@,
                modifiers: *modifiers,
                lines: line_views(lines@),
            },
            LinkedBlock::Prose { lines } => BlockSpec {
                is_code: false,
                name: Seq::empty(),
                modifiers: BlockModifier { bits: 0 },
                lines: line_views(lines@),
            },
        }
    }
}

impl<'a> LinkedBlock<'a> {
    /// The lines of the block.
    pub fn get_lines(&self) -> (lines: &Vec<LinkedLine<'a>>)
        ensures
            line_views(lines@) == self@.lines,
    {
        match self {
            LinkedBlock::Code { lines, .. } => lines,
            LinkedBlock::Prose { lines } => lines,
        }
    }
}

/// The linked blocks of a list, as the contracts see them.
pub open spec fn linked_block_views<'a>(blocks: Seq<LinkedBlock<'a>>) -> Seq<BlockSpec> {
    Seq::new(blocks.len(), |i: int| blocks[i]@)
}

/// A section whose blocks are linked.
pub struct LinkedSection<'a> {
    pub id: usize,
    pub depth: usize,
    pub name: Option<&'a str>,
    pub blocks: Vec<LinkedBlock<'a>>,
}

impl<'a> View for LinkedSection<'a> {
    type V = SectionSpec;

    open spec fn view(&self) -> SectionSpec {
        SectionSpec {
            id: self.id,
            depth: self.depth,
            name: match self.name {
                Some(name) => Some(name@),
                None => None,
            },
            blocks: linked_block_views(self.blocks@),
        }
    }
}

/// The linked sections of a list, as the contracts see them.
pub open spec fn linked_section_views<'a>(sections: Seq<LinkedSection<'a>>) -> Seq<SectionSpec> {
    Seq::new(sections.len(), |i: int| sections[i]@)
}

/// A document whose links are resolved: every line is split into its parts,
/// every link names a block of the document, and no chain of links comes
/// back to where it started.
pub struct LinkedFile<'a> {
    pub metadata: &'a Metadata,
    pub sections: Vec<LinkedSection<'a>>,
    pub link_map: LinkMap<'a>,
}

/// Appends the slices of `more` to `out`.
pub fn push_slices<'a>(out: &mut Vec<&'a str>, more: &Vec<&'a str>)
    ensures
        views(final(out)@) == views(old(out)@) + views(more@),
{
    let mut i: usize = 0;
    proof {
        assert(views(out@) + views(more@).take(0) =~= views(out@));
    }
    while i < more.len()
        invariant
            i <= more.len(),
            views(out@) == views(old(out)@) + views(more@).take(i as int),
        decreases more.len() - i,
    {
        let ghost before = out@;
        proof {
            lemma_views_push(before, more[i as int]);
            assert(views(more@).take(i + 1) =~= views(more@).take(i as int).push(more@[i as int]@));
            assert((views(old(out)@) + views(more@).take(i as int)).push(more@[i as int]@) =~= views(
                old(out)@,
            ) + views(more@).take(i + 1));
        }
        out.push(more[i]);
        i += 1;
    }
    proof {
        assert(views(more@).take(more.len() as int) =~= views(more@));
    }
}

/// Splits every line of `lines` into its parts. Fails on the first line
/// that is not well formed.
pub fn link_lines<'a>(lines: &'a Vec<String>) -> (r: Result<Vec<LinkedLine<'a>>, LinkError>)
    ensures
        match r {
            Ok(linked) => {
                &&& line_views(linked@) == string_views(lines@)
                &&& first_malformed(string_views(lines@)) is None
            },
            Err(e) => {
                &&& e is MalformedReferenceSyntax
                &&& first_malformed(string_views(lines@)) == Some(e->MalformedReferenceSyntax_0@)
            },
        },
{
    let ghost texts = string_views(lines@);
    let mut linked: Vec<LinkedLine<'a>> = Vec::new();
    let mut i: usize = 0;
    proof {
        assert(line_views(linked@) =~= texts.take(0));
    }
    while i < lines.len()
        invariant
            i <= lines.len(),
            texts == string_views(lines@),
            line_views(linked@) == texts.take(i as int),
            first_malformed(texts.take(i as int)) is None,
        decreases lines.len() - i,
    {
        proof {
            assert(texts.take(i + 1).drop_last() =~= texts.take(i as int));
            assert(texts.take(i + 1).last() == lines@[i as int]@);
        }
        match LinkedLine::parse(lines[i].as_str()) {
            Some(line) => {
                let ghost before = linked@;
                proof {
                    lemma_line_views_push(before, line);
                    assert(texts.take(i + 1) =~= texts.take(i as int).push(lines@[i as int]@));
                }
                linked.push(line);
            },
            None => {
                proof {
                    lemma_first_malformed_add(texts.take(i + 1), texts.skip(i + 1));
                    assert(texts.take(i + 1) + texts.skip(i + 1) =~= texts);
                }
                return Err(LinkError::MalformedReferenceSyntax(lines[i].clone()));
            },
        }
        i += 1;
    }
    proof {
        assert(texts.take(lines.len() as int) =~= texts);
    }
    Ok(linked)
}

/// The names that `lines` link to, line after line.
pub fn links_in<'a>(lines: &Vec<LinkedLine<'a>>) -> (links: Vec<&'a str>)
    ensures
        views(links@) == block_links(line_views(lines@)),
{
    let ghost texts = line_views(lines@);
    let mut links: Vec<&'a str> = Vec::new();
    let mut i: usize = 0;
    proof {
        assert(views(links@) =~= block_links(texts.take(0)));
    }
    while i < lines.len()
        invariant
            i <= lines.len(),
            texts == line_views(lines@),
            views(links@) == block_links(texts.take(i as int)),
        decreases lines.len() - i,
    {
        proof {
            assert(texts.take(i + 1).drop_last() =~= texts.take(i as int));
            assert(texts.take(i + 1).last() == lines@[i as int]@);
        }
        let more = lines[i].get_links();
        push_slices(&mut links, &more);
        i += 1;
    }
    proof {
        assert(texts.take(lines.len() as int) =~= texts);
    }
    links
}

/// Links one block, and records in `link_map` what a code block links to.
pub fn link_block<'a>(block: &'a Block, link_map: &mut LinkMap<'a>) -> (r: Result<
    LinkedBlock<'a>,
    LinkError,
>)
    requires
        old(link_map)@.wf(),
    ensures
        final(link_map)@.wf(),
        match r {
            Ok(linked) => {
                &&& linked@ == block@
                &&& first_malformed(block@.lines) is None
                &&& final(link_map)@ == if block@.is_code {
                    old(link_map)@.with_links(block@.name, block_links(block@.lines))
                } else {
                    old(link_map)@
                }
            },
            Err(e) => {
                &&& e is MalformedReferenceSyntax
                &&& first_malformed(block@.lines) == Some(e->MalformedReferenceSyntax_0@)
                &&& final(link_map)@ == old(link_map)@
            },
        },
{
    match block {
        Block::Code { name, modifiers, lines } => {
            let linked_lines = link_lines(lines)?;
            let linked_to = links_in(&linked_lines);
            link_map.record(name.as_str(), linked_to);
            Ok(LinkedBlock::Code { name, modifiers: *modifiers, lines: linked_lines })
        },
        Block::Prose { lines } => {
            let linked_lines = link_lines(lines)?;
            Ok(LinkedBlock::Prose { lines: linked_lines })
        },
    }
}

/// Links the blocks of one section. `all_links` gathers every link of the
/// document, those of prose too.
pub fn link_section<'a>(
    section: &'a Section,
    link_map: &mut LinkMap<'a>,
    all_links: &mut Vec<&'a str>,
) -> (r: Result<LinkedSection<'a>, LinkError>)
    requires
        old(link_map)@.wf(),
        links_within(old(link_map)@, views(old(all_links)@)),
    ensures
        final(link_map)@.wf(),
        match r {
            Ok(linked) => {
                &&& linked@ == section@
                &&& first_malformed(lines_of_blocks(section@.blocks)) is None
                &&& final(link_map)@ == extend_graph(
                    old(link_map)@,
                    occurrences_in(section.id, section@.blocks),
                )
                &&& views(final(all_links)@) == views(old(all_links)@) + block_links(
                    lines_of_blocks(section@.blocks),
                )
                &&& links_within(final(link_map)@, views(final(all_links)@))
            },
            Err(e) => {
                &&& e is MalformedReferenceSyntax
                &&& first_malformed(lines_of_blocks(section@.blocks)) == Some(
                    e->MalformedReferenceSyntax_0@,
                )
            },
        },
{
    let ghost blocks = section@.blocks;
    let ghost graph0 = link_map@;
    let ghost pool0 = views(all_links@);
    let mut linked: Vec<LinkedBlock<'a>> = Vec::new();
    let mut k: usize = 0;
    proof {
        assert(linked_block_views(linked@) =~= blocks.take(0));
        assert(pool0 + block_links(lines_of_blocks(blocks.take(0))) =~= pool0);
    }
    while k < section.blocks.len()
        invariant
            k <= section.blocks.len(),
            blocks == section@.blocks,
            blocks.len() == section.blocks.len(),
            linked_block_views(linked@) == blocks.take(k as int),
            first_malformed(lines_of_blocks(blocks.take(k as int))) is None,
            link_map@ == extend_graph(graph0, occurrences_in(section.id, blocks.take(k as int))),
            link_map@.wf(),
            views(all_links@) == pool0 + block_links(lines_of_blocks(blocks.take(k as int))),
            links_within(link_map@, views(all_links@)),
        decreases section.blocks.len() - k,
    {
        let ghost done = blocks.take(k as int);
        let ghost this = blocks[k as int];
        let ghost graph = link_map@;
        let ghost pool = views(all_links@);
        proof {
            assert(this == section.blocks@[k as int]@);
            assert(blocks.take(k + 1).drop_last() =~= done);
            assert(blocks.take(k + 1).last() == this);
            lemma_first_malformed_add(lines_of_blocks(done), this.lines);
            lemma_block_links_add(lines_of_blocks(done), this.lines);
        }
        match link_block(&section.blocks[k], link_map) {
            Ok(block) => {
                let more = links_in(block.get_lines());
                push_slices(all_links, &more);
                let ghost before = linked@;
                linked.push(block);
                proof {
                    assert(linked_block_views(linked@) =~= blocks.take(k + 1)) by {
                        assert forall|i: int| 0 <= i < k + 1 implies linked_block_views(linked@)[i]
                            == blocks.take(k + 1)[i] by {
                            if i < k {
                                assert(linked@[i] == before[i]);
                                assert(linked_block_views(before)[i] == before[i]@);
                            }
                        }
                    }
                    assert(views(all_links@) =~= pool0 + block_links(
                        lines_of_blocks(blocks.take(k + 1)),
                    ));
                    if this.is_code {
                        let occs = occurrences_in(section.id, done);
                        let occ = Occurrence {
                            section: section.id,
                            name: this.name,
                            modifiers: this.modifiers,
                            lines: this.lines,
                        };
                        assert(occs.push(occ).drop_last() =~= occs);
                        lemma_with_links_within(graph, this.name, block_links(this.lines), pool);
                    } else {
                        lemma_links_within_wider(graph, pool, block_links(this.lines));
                    }
                }
            },
            Err(e) => {
                proof {
                    lemma_lines_of_blocks_add(blocks.take(k + 1), blocks.skip(k + 1));
                    assert(blocks.take(k + 1) + blocks.skip(k + 1) =~= blocks);
                    lemma_first_malformed_add(
                        lines_of_blocks(blocks.take(k + 1)),
                        lines_of_blocks(blocks.skip(k + 1)),
                    );
                }
                return Err(e);
            },
        }
        k += 1;
    }
    proof {
        assert(blocks.take(section.blocks.len() as int) =~= blocks);
    }
    Ok(LinkedSection { id: section.id, depth: section.depth, name: section.name.as_str(), blocks: linked })
}

/// Resolves the links of one document.
///
/// Every line of every block is split into its parts; every link must name
/// a code block of the document; and no chain of links may come back to a
/// block that it has passed. The first defect found, in that order, is
/// reported, and nothing is returned beside it.
pub fn link_lit_file<'a>(lit_file: &'a LitFile) -> (r: Result<LinkedFile<'a>, LinkError>)
    ensures
        match r {
            Ok(file) => {
                &&& resolution(section_views(lit_file.sections@)) is Resolved
                &&& linked_section_views(file.sections@) == section_views(lit_file.sections@)
                &&& file.link_map@ == graph_of(section_views(lit_file.sections@))
                &&& file.link_map@.wf()
                &&& file.link_map@.closed()
                &&& file.link_map@.acyclic()
                &&& *file.metadata == lit_file.metadata
            },
            Err(e) => match e {
                LinkError::MalformedReferenceSyntax(line) => resolution(
                    section_views(lit_file.sections@),
                ) == Resolution::Malformed(line@),
                LinkError::UnknownReference(name) => resolution(section_views(lit_file.sections@))
                    == Resolution::Unknown(name@),
                LinkError::CyclicReference(path) => {
                    &&& resolution(section_views(lit_file.sections@)) is Cyclic
                    &&& graph_of(section_views(lit_file.sections@)).is_cycle(string_views(path@))
                    &&& first_cycle(graph_of(section_views(lit_file.sections@))) == Some(
                        string_views(path@),
                    )
                },
            },
        },
{
    let ghost sections = section_views(lit_file.sections@);
    let mut link_map = LinkMap::new();
    let mut all_links: Vec<&'a str> = Vec::new();
    let mut linked: Vec<LinkedSection<'a>> = Vec::new();
    let mut i: usize = 0;
    proof {
        assert(link_map@ == empty_graph()) by {
            assert(link_map@.names =~= Seq::<Seq<char>>::empty());
            assert(link_map@.links =~= Seq::<Seq<Seq<char>>>::empty());
        }
        assert(linked_section_views(linked@) =~= sections.take(0));
        assert(views(all_links@) =~= block_links(lines_of_sections(sections.take(0))));
    }
    while i < lit_file.sections.len()
        invariant
            i <= lit_file.sections.len(),
            sections == section_views(lit_file.sections@),
            linked_section_views(linked@) == sections.take(i as int),
            first_malformed(lines_of_sections(sections.take(i as int))) is None,
            link_map@ == extend_graph(empty_graph(), occurrences(sections.take(i as int))),
            link_map@.wf(),
            views(all_links@) == block_links(lines_of_sections(sections.take(i as int))),
            links_within(link_map@, views(all_links@)),
        decreases lit_file.sections.len() - i,
    {
        let ghost done = sections.take(i as int);
        let ghost this = sections[i as int];
        proof {
            assert(this == lit_file.sections@[i as int]@);
            assert(sections.take(i + 1).drop_last() =~= done);
            assert(sections.take(i + 1).last() == this);
            lemma_first_malformed_add(lines_of_sections(done), lines_of_blocks(this.blocks));
            lemma_block_links_add(lines_of_sections(done), lines_of_blocks(this.blocks));
            lemma_extend_graph_add(
                empty_graph(),
                occurrences(done),
                occurrences_in(this.id, this.blocks),
            );
        }
        match link_section(&lit_file.sections[i], &mut link_map, &mut all_links) {
            Ok(section) => {
                let ghost before = linked@;
                linked.push(section);
                proof {
                    assert(linked_section_views(linked@) =~= sections.take(i + 1)) by {
                        assert forall|j: int| 0 <= j < i + 1 implies linked_section_views(linked@)[j]
                            == sections.take(i + 1)[j] by {
                            if j < i {
                                assert(linked@[j] == before[j]);
                                assert(linked_section_views(before)[j] == before[j]@);
                            }
                        }
                    }
                }
            },
            Err(e) => {
                proof {
                    lemma_lines_of_sections_add(sections.take(i + 1), sections.skip(i + 1));
                    assert(sections.take(i + 1) + sections.skip(i + 1) =~= sections);
                    lemma_first_malformed_add(
                        lines_of_sections(sections.take(i + 1)),
                        lines_of_sections(sections.skip(i + 1)),
                    );
                }
                return Err(e);
            },
        }
        i += 1;
    }
    proof {
        assert(sections.take(lit_file.sections.len() as int) =~= sections);
    }
    let ghost pool = views(all_links@);
    let ghost graph = link_map@;
    let mut t: usize = 0;
    while t < all_links.len()
        invariant
            t <= all_links.len(),
            pool == views(all_links@),
            graph == link_map@,
            graph.wf(),
            sections == section_views(lit_file.sections@),
            graph == graph_of(sections),
            pool == block_links(lines_of_sections(sections)),
            first_malformed(lines_of_sections(sections)) is None,
            first_unknown(pool.take(t as int), graph) is None,
        decreases all_links.len() - t,
    {
        proof {
            assert(pool.take(t + 1).drop_last() =~= pool.take(t as int));
            assert(pool.take(t + 1).last() == all_links@[t as int]@);
        }
        if !link_map.contains_key(all_links[t]) {
            proof {
                lemma_first_unknown_add(pool.take(t + 1), pool.skip(t + 1), graph);
                assert(pool.take(t + 1) + pool.skip(t + 1) =~= pool);
            }
            return Err(LinkError::UnknownReference(all_links[t].to_owned()));
        }
        t += 1;
    }
    proof {
        assert(pool.take(all_links.len() as int) =~= pool);
        lemma_closed_from_pool(graph, pool);
    }
    match find_cycle(&link_map) {
        Ok(_) => {},
        Err(e) => {
            return Err(e);
        },
    }
    Ok(LinkedFile { metadata: &lit_file.metadata, sections: linked, link_map })
}

impl<'a> LinkedFile<'a> {
    /// Whether the links of the document are resolved: the link map is the
    /// graph of the links of the sections, every link names a block, and no
    /// chain of links comes back to a block that it has passed.
    pub open spec fn resolved(&self) -> bool {
        &&& self.link_map@ == graph_of(linked_section_views(self.sections@))
        &&& self.link_map@.wf()
        &&& self.link_map@.closed()
        &&& self.link_map@.acyclic()
    }

    /// Whether this is the linked form of `file`.
    pub open spec fn links(&self, file: LitFile) -> bool {
        &&& self.resolved()
        &&& linked_section_views(self.sections@) == section_views(file.sections@)
        &&& *self.metadata == file.metadata
    }
}

/// Whether `error` reports that the resolution of a document ended as
/// `outcome` says.
pub open spec fn reports_resolution(
    error: LinkError,
    outcome: Resolution,
    sections: Seq<SectionSpec>,
) -> bool {
    match error {
        LinkError::MalformedReferenceSyntax(line) => outcome == Resolution::Malformed(line@),
        LinkError::UnknownReference(name) => outcome == Resolution::Unknown(name@),
        LinkError::CyclicReference(path) => {
            &&& outcome is Cyclic
            &&& graph_of(sections).is_cycle(string_views(path@))
            &&& first_cycle(graph_of(sections)) == Some(string_views(path@))
        },
    }
}

/// Whether the first `count` of `files` can be resolved.
pub open spec fn all_resolved(files: Seq<LitFile>, count: int) -> bool {
    forall|i: int|
        0 <= i < count ==> resolution(section_views((#[trigger] files[i]).sections@)) is Resolved
}

/// Whether `error` reports why the document at `position` cannot be
/// resolved, which is the first of `files` that cannot.
pub open spec fn fails_at(files: Seq<LitFile>, position: int, error: LinkError) -> bool {
    &&& 0 <= position < files.len()
    &&& all_resolved(files, position)
    &&& reports_resolution(
        error,
        resolution(section_views(files[position].sections@)),
        section_views(files[position].sections@),
    )
}

/// The linked documents of one run.
pub struct LinkState<'a> {
    /// Every document with its path, in the order in which they were parsed.
    pub file_map: Vec<(&'a str, LinkedFile<'a>)>,
}

impl<'a> LinkState<'a> {
    /// Whether this is the linked form of the documents `files`.
    pub open spec fn links(&self, files: crate::parser::FilesSpec) -> bool {
        &&& self.file_map@.len() == files.paths.len()
        &&& forall|i: int|
            0 <= i < self.file_map@.len() ==> {
                &&& (#[trigger] self.file_map@[i]).0@ == files.paths[i]
                &&& self.file_map@[i].1.links(files.files[i])
            }
    }

    /// Resolves the links of every document, in the order in which they were
    /// parsed. The first document that cannot be resolved ends the run.
    pub fn link(file_map: &'a FileMap) -> (r: Result<LinkState<'a>, LinkError>)
        requires
            file_map@.wf(),
        ensures
            match r {
                Ok(state) => {
                    &&& state.links(file_map@)
                    &&& all_resolved(file_map@.files, file_map@.files.len() as int)
                },
                Err(e) => exists|position: int| fails_at(file_map@.files, position, e),
            },
    {
        let mut linked_file_map: Vec<(&'a str, LinkedFile<'a>)> = Vec::new();
        let count = file_map.len();
        let mut i: usize = 0;
        while i < count
            invariant
                i <= count,
                count == file_map@.paths.len(),
                file_map@.wf(),
                linked_file_map@.len() == i,
                all_resolved(file_map@.files, i as int),
                forall|j: int|
                    0 <= j < i ==> {
                        &&& (#[trigger] linked_file_map@[j]).0@ == file_map@.paths[j]
                        &&& linked_file_map@[j].1.links(file_map@.files[j])
                    },
            decreases count - i,
        {
            let path = file_map.path_at(i);
            let lit_file = file_map.file_at(i);
            match link_lit_file(lit_file) {
                Ok(linked_file) => {
                    linked_file_map.push((path.as_str(), linked_file));
                },
                Err(e) => {
                    proof {
                        assert(fails_at(file_map@.files, i as int, e));
                    }
                    return Err(e);
                },
            }
            i += 1;
        }
        Ok(LinkState { file_map: linked_file_map })
    }
}

} // verus!
