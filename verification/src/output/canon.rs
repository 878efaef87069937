//! Canonical blocks: every definition of a name folded into one block.
//!
//! The first block of a name sets where the name stands. A later block of the
//! name that redefines it takes the place of what was gathered so far; any
//! other later block is put behind it.

use vstd::prelude::*;
use crate::text::{views, position};
use crate::link::{
    LinkedLine, LinkedBlock, LinkedSection, line_views, linked_section_views, lemma_line_views_push,
};
use crate::parser::grammar::{BlockModifier, APPEND, REDEF, NOTANGLE, NOWEAVE, NOHEADER};
use crate::parser::ast::{Occurrence, SectionSpec, occurrences, occurrences_in};

verus! {

/// Whether a block stands for a file of its own or for a piece of one.
#[derive(Clone, Copy, Debug, PartialEq, Eq, Structural)]
pub enum CCBForm {
    File,
    Block,
}

/// Whether `name`, read as a path, has an extension.
pub uninterp spec fn path_has_extension(name: Seq<char>) -> bool;

/// Whether `name`, read as a path, has an extension: whether
/// `std::path::Path::extension` gives one. A path without any `.` has none.
/// How a path is split into its components is that of the platform the
/// library is built for.
#[verifier::external_body]
fn has_extension(name: &str) -> (b: bool)
    ensures
        b == path_has_extension(name@),
        !name@.contains('.') ==> !b,
{
    std::path::Path::new(name).extension().is_some()
}

/// Whether a block of that name stands for a file of its own: whether the
/// name, read as a path, has an extension. A name without `.` has none.
pub open spec fn names_a_file(name: Seq<char>) -> bool {
    name.contains('.') && path_has_extension(name)
}

/// The form of a block, given whether its name has an extension.
pub fn form_of(extension: bool) -> (form: CCBForm)
    ensures
        form == if extension {
            CCBForm::File
        } else {
            CCBForm::Block
        },
{
    if extension {
        CCBForm::File
    } else {
        CCBForm::Block
    }
}

/// A canonical block as the contracts see it.
pub struct CanonicalSpec {
    pub print_header: bool,
    pub print_to_tangle: bool,
    pub print_to_weave: bool,
    pub form: CCBForm,
    pub contents: Seq<Seq<char>>,
    pub first_defined_in: usize,
    pub appended_to_in: Seq<usize>,
    pub redefined_in: Seq<usize>,
}

impl CanonicalSpec {
    /// The block with the three flags set as `modifiers` says.
    pub open spec fn with_modifiers(self, modifiers: BlockModifier) -> CanonicalSpec {
        CanonicalSpec {
            print_header: !modifiers.has(NOHEADER),
            print_to_tangle: !modifiers.has(NOTANGLE),
            print_to_weave: !modifiers.has(NOWEAVE),
            ..self
        }
    }

    /// The block with every flag cleared that `modifiers` speaks against.
    /// No flag is ever set by this.
    pub open spec fn narrowed(self, modifiers: BlockModifier) -> CanonicalSpec {
        CanonicalSpec {
            print_header: self.print_header && !modifiers.has(NOHEADER),
            print_to_tangle: self.print_to_tangle && !modifiers.has(NOTANGLE),
            print_to_weave: self.print_to_weave && !modifiers.has(NOWEAVE),
            ..self
        }
    }
}

/// The canonical block that the first block of a name makes.
pub open spec fn first_definition(block: Occurrence) -> CanonicalSpec {
    CanonicalSpec {
        print_header: !block.modifiers.has(NOHEADER),
        print_to_tangle: !block.modifiers.has(NOTANGLE),
        print_to_weave: !block.modifiers.has(NOWEAVE),
        form: if names_a_file(block.name) {
            CCBForm::File
        } else {
            CCBForm::Block
        },
        contents: block.lines,
        first_defined_in: block.section,
        appended_to_in: Seq::empty(),
        redefined_in: Seq::empty(),
    }
}

/// The canonical block once a later block of its name is folded in.
///
/// A redefinition puts its lines in the place of the old ones and sets the
/// flags anew. Any other block puts its lines behind the old ones; it
/// narrows the flags only where it is marked as an append.
pub open spec fn later_definition(canonical: CanonicalSpec, block: Occurrence) -> CanonicalSpec {
    if block.modifiers.has(REDEF) {
        CanonicalSpec {
            contents: block.lines,
            redefined_in: canonical.redefined_in.push(block.section),
            ..canonical.with_modifiers(block.modifiers)
        }
    } else {
        let flags = if block.modifiers.has(APPEND) {
            canonical.narrowed(block.modifiers)
        } else {
            canonical
        };
        CanonicalSpec {
            contents: canonical.contents + block.lines,
            appended_to_in: canonical.appended_to_in.push(block.section),
            ..flags
        }
    }
}

/// The canonical blocks of a document as the contracts see them: the names
/// in the order of first definition, and the block of each.
pub struct TableSpec {
    pub names: Seq<Seq<char>>,
    pub blocks: Seq<CanonicalSpec>,
}

impl TableSpec {
    /// Every name has its block, and no name stands twice.
    pub open spec fn wf(self) -> bool {
        &&& self.names.len() == self.blocks.len()
        &&& self.names.no_duplicates()
    }

    /// Whether the table holds a block of that name.
    pub open spec fn has(self, name: Seq<char>) -> bool {
        self.names.contains(name)
    }

    /// The block of that name.
    pub open spec fn block(self, name: Seq<char>) -> CanonicalSpec {
        self.blocks[self.names.index_of(name)]
    }

    /// Whether every block whose name holds no `.` is a piece of a file, not
    /// a file of its own.
    pub open spec fn dotless_are_blocks(self) -> bool {
        forall|i: int|
            0 <= i < self.names.len() && i < self.blocks.len() && !(#[trigger] self.names[i]).contains(
                '.',
            ) ==> self.blocks[i].form == CCBForm::Block
    }

    /// The table once `block` is folded in.
    pub open spec fn with_block(self, block: Occurrence) -> TableSpec {
        if self.has(block.name) {
            let at = self.names.index_of(block.name);
            TableSpec {
                names: self.names,
                blocks: self.blocks.update(at, later_definition(self.blocks[at], block)),
            }
        } else {
            TableSpec {
                names: self.names.push(block.name),
                blocks: self.blocks.push(first_definition(block)),
            }
        }
    }
}

/// The table without any block.
pub open spec fn empty_table() -> TableSpec {
    TableSpec { names: Seq::empty(), blocks: Seq::empty() }
}

/// `table` once the blocks `blocks` are folded in, one after another.
pub open spec fn fold_blocks(table: TableSpec, blocks: Seq<Occurrence>) -> TableSpec
    decreases blocks.len(),
{
    if blocks.len() == 0 {
        table
    } else {
        fold_blocks(table, blocks.drop_last()).with_block(blocks.last())
    }
}

/// The canonical blocks of a document: its code blocks folded in, in the
/// order in which they stand. Prose adds nothing.
pub open spec fn canonical_table(sections: Seq<SectionSpec>) -> TableSpec {
    fold_blocks(empty_table(), occurrences(sections))
}

/// Folding a block in keeps a table well formed.
pub proof fn lemma_with_block_wf(table: TableSpec, block: Occurrence)
    requires
        table.wf(),
    ensures
        table.with_block(block).wf(),
{
    if !table.has(block.name) {
        let names = table.names.push(block.name);
        assert forall|i: int, j: int| 0 <= i < names.len() && 0 <= j < names.len() && i != j implies names[i] != names[j] by {
            if i == table.names.len() {
                assert(table.names[j] == names[j]);
            } else if j == table.names.len() {
                assert(table.names[i] == names[i]);
            }
        }
    }
}

/// Folding a block in never makes a file of a block whose name holds no
/// `.`: the first block of a name sets the form by the name, and no later
/// block changes it.
pub proof fn lemma_with_block_keeps_dotless(table: TableSpec, block: Occurrence)
    requires
        table.wf(),
        table.dotless_are_blocks(),
    ensures
        table.with_block(block).dotless_are_blocks(),
{
    let after = table.with_block(block);
    assert forall|i: int|
        0 <= i < after.names.len() && i < after.blocks.len() && !(#[trigger] after.names[i]).contains(
            '.',
        ) implies after.blocks[i].form == CCBForm::Block by {
        if table.has(block.name) {
            assert(after.names[i] == table.names[i]);
        } else if i < table.names.len() {
            assert(after.names[i] == table.names[i]);
        }
    }
}

/// In a table folded from blocks, every block whose name holds no `.` is a
/// piece of a file.
pub proof fn lemma_fold_keeps_dotless(table: TableSpec, blocks: Seq<Occurrence>)
    requires
        table.wf(),
        table.dotless_are_blocks(),
    ensures
        fold_blocks(table, blocks).wf(),
        fold_blocks(table, blocks).dotless_are_blocks(),
    decreases blocks.len(),
{
    if blocks.len() > 0 {
        lemma_fold_keeps_dotless(table, blocks.drop_last());
        lemma_with_block_wf(fold_blocks(table, blocks.drop_last()), blocks.last());
        lemma_with_block_keeps_dotless(fold_blocks(table, blocks.drop_last()), blocks.last());
    }
}

/// Folding blocks in two runs gives the table that folding them in one gives.
pub proof fn lemma_fold_blocks_add(table: TableSpec, a: Seq<Occurrence>, b: Seq<Occurrence>)
    ensures
        fold_blocks(table, a + b) == fold_blocks(fold_blocks(table, a), b),
    decreases b.len(),
{
    if b.len() == 0 {
        assert(a + b =~= a);
    } else {
        assert((a + b).drop_last() =~= a + b.drop_last());
        lemma_fold_blocks_add(table, a, b.drop_last());
    }
}

/// Every definition of one name, folded into one block.
pub struct CanonicalCodeBlock<'a> {
    print_header: bool,
    print_to_tangle: bool,
    print_to_weave: bool,
    form: CCBForm,
    contents: Vec<LinkedLine<'a>>,
    pub first_defined_in: usize,
    appended_to_in: Vec<usize>,
    redefined_in: Vec<usize>,
}

impl<'a> View for CanonicalCodeBlock<'a> {
    type V = CanonicalSpec;

    closed spec fn view(&self) -> CanonicalSpec {
        CanonicalSpec {
            print_header: self.print_header,
            print_to_tangle: self.print_to_tangle,
            print_to_weave: self.print_to_weave,
            form: self.form,
            contents: line_views(self.contents@),
            first_defined_in: self.first_defined_in,
            appended_to_in: self.appended_to_in@,
            redefined_in: self.redefined_in@,
        }
    }
}

impl<'a> CanonicalCodeBlock<'a> {
    /// An empty block of the given form, first defined in `in_section`.
    /// Every flag is set.
    pub fn from_form(form: CCBForm, in_section: usize) -> (block: Self)
        ensures
            block@ == (CanonicalSpec {
                print_header: true,
                print_to_tangle: true,
                print_to_weave: true,
                form,
                contents: Seq::empty(),
                first_defined_in: in_section,
                appended_to_in: Seq::empty(),
                redefined_in: Seq::empty(),
            }),
    {
        let block = CanonicalCodeBlock {
            print_header: true,
            print_to_tangle: true,
            print_to_weave: true,
            form,
            contents: Vec::new(),
            first_defined_in: in_section,
            appended_to_in: Vec::new(),
            redefined_in: Vec::new(),
        };
        proof {
            assert(block@.contents =~= Seq::<Seq<char>>::empty());
        }
        block
    }

    /// Whether the block stands for a file of its own.
    pub fn is_file(&self) -> (b: bool)
        ensures
            b == (self@.form == CCBForm::File),
    {
        match self.form {
            CCBForm::File => true,
            _ => false,
        }
    }

    /// Whether the block goes into the generated files.
    pub fn print_to_tangle(&self) -> (b: bool)
        ensures
            b == self@.print_to_tangle,
    {
        self.print_to_tangle
    }

    /// Whether the block goes into the documentation.
    pub fn print_to_weave(&self) -> (b: bool)
        ensures
            b == self@.print_to_weave,
    {
        self.print_to_weave
    }

    /// Whether a comment naming the block is written above it.
    pub fn print_header(&self) -> (b: bool)
        ensures
            b == self@.print_header,
    {
        self.print_header
    }

    /// The lines of the block.
    pub fn contents(&self) -> (lines: &Vec<LinkedLine<'a>>)
        ensures
            line_views(lines@) == self@.contents,
    {
        &self.contents
    }

    /// The section that first defined the block.
    pub fn first_defined_in(&self) -> (section: usize)
        ensures
            section == self@.first_defined_in,
    {
        self.first_defined_in
    }

    /// The sections that put lines behind the block.
    pub fn appended_to_in(&self) -> (sections: &Vec<usize>)
        ensures
            sections@ == self@.appended_to_in,
    {
        &self.appended_to_in
    }

    /// The sections that redefined the block.
    pub fn redefined_in(&self) -> (sections: &Vec<usize>)
        ensures
            sections@ == self@.redefined_in,
    {
        &self.redefined_in
    }

    /// Puts `lines` behind the lines of the block.
    pub fn append_lines(&mut self, lines: &Vec<LinkedLine<'a>>)
        ensures
            final(self)@ == (CanonicalSpec {
                contents: old(self)@.contents + line_views(lines@),
                ..old(self)@
            }),
    {
        let ghost start = line_views(self.contents@);
        let ghost more = line_views(lines@);
        let mut i: usize = 0;
        proof {
            assert(start + more.take(0) =~= start);
        }
        while i < lines.len()
            invariant
                i <= lines.len(),
                more == line_views(lines@),
                line_views(self.contents@) == start + more.take(i as int),
                self.print_header == old(self).print_header,
                self.print_to_tangle == old(self).print_to_tangle,
                self.print_to_weave == old(self).print_to_weave,
                self.form == old(self).form,
                self.first_defined_in == old(self).first_defined_in,
                self.appended_to_in == old(self).appended_to_in,
                self.redefined_in == old(self).redefined_in,
            decreases lines.len() - i,
        {
            let line = lines[i].clone();
            let ghost before = self.contents@;
            proof {
                lemma_line_views_push(before, line);
                assert((start + more.take(i as int)).push(line@) =~= start + more.take(i + 1));
            }
            self.contents.push(line);
            i += 1;
        }
        proof {
            assert(more.take(lines.len() as int) =~= more);
        }
    }

    /// Puts `lines` in the place of the lines of the block.
    pub fn replace_lines(&mut self, lines: &Vec<LinkedLine<'a>>)
        ensures
            final(self)@ == (CanonicalSpec { contents: line_views(lines@), ..old(self)@ }),
    {
        self.contents.clear();
        proof {
            assert(line_views(self.contents@) =~= Seq::<Seq<char>>::empty());
        }
        self.append_lines(lines);
        proof {
            assert(Seq::<Seq<char>>::empty() + line_views(lines@) =~= line_views(lines@));
        }
    }

    /// Sets the three flags as `modifiers` says.
    pub fn set_modifiers(&mut self, modifiers: BlockModifier)
        ensures
            final(self)@ == old(self)@.with_modifiers(modifiers),
    {
        self.print_header = !modifiers.contains(NOHEADER);
        self.print_to_tangle = !modifiers.contains(NOTANGLE);
        self.print_to_weave = !modifiers.contains(NOWEAVE);
    }

    /// Clears every flag that `modifiers` speaks against.
    pub fn add_modifiers(&mut self, modifiers: BlockModifier)
        ensures
            final(self)@ == old(self)@.narrowed(modifiers),
    {
        self.print_header = self.print_header && !modifiers.contains(NOHEADER);
        self.print_to_tangle = self.print_to_tangle && !modifiers.contains(NOTANGLE);
        self.print_to_weave = self.print_to_weave && !modifiers.contains(NOWEAVE);
    }

    /// Notes that the section `in_section` redefined the block.
    pub fn mark_redefined(&mut self, in_section: usize)
        ensures
            final(self)@ == (CanonicalSpec {
                redefined_in: old(self)@.redefined_in.push(in_section),
                ..old(self)@
            }),
    {
        self.redefined_in.push(in_section);
    }

    /// Notes that the section `in_section` put lines behind the block.
    pub fn mark_appended(&mut self, in_section: usize)
        ensures
            final(self)@ == (CanonicalSpec {
                appended_to_in: old(self)@.appended_to_in.push(in_section),
                ..old(self)@
            }),
    {
        self.appended_to_in.push(in_section);
    }
}

/// The canonical blocks of one document, by name.
pub struct BlockMap<'a> {
    names: Vec<&'a str>,
    blocks: Vec<CanonicalCodeBlock<'a>>,
}

impl<'a> View for BlockMap<'a> {
    type V = TableSpec;

    closed spec fn view(&self) -> TableSpec {
        TableSpec {
            names: views(self.names@),
            blocks: Seq::new(self.blocks.len() as nat, |i: int| self.blocks[i]@),
        }
    }
}

impl<'a> BlockMap<'a> {
    /// A table without any block.
    pub fn new() -> (map: BlockMap<'a>)
        ensures
            map@ == empty_table(),
            map@.wf(),
    {
        let map = BlockMap { names: Vec::new(), blocks: Vec::new() };
        proof {
            assert(map@.names =~= Seq::<Seq<char>>::empty());
            assert(map@.blocks =~= Seq::<CanonicalSpec>::empty());
        }
        map
    }

    /// How many names the table holds.
    pub fn len(&self) -> (n: usize)
        requires
            self@.wf(),
        ensures
            n == self@.names.len(),
    {
        self.names.len()
    }

    /// The name at `index`, in the order of first definition.
    pub fn key_at(&self, index: usize) -> (name: &'a str)
        requires
            self@.wf(),
            index < self@.names.len(),
        ensures
            name@ == self@.names[index as int],
    {
        self.names[index]
    }

    /// The block at `index`, in the order of first definition.
    pub fn block_at(&self, index: usize) -> (block: &CanonicalCodeBlock<'a>)
        requires
            self@.wf(),
            index < self@.names.len(),
        ensures
            block@ == self@.blocks[index as int],
    {
        &self.blocks[index]
    }

    /// Whether the table holds a block of that name.
    pub fn contains_key(&self, name: &str) -> (b: bool)
        requires
            self@.wf(),
        ensures
            b == self@.has(name@),
    {
        let at = position(&self.names, name);
        proof {
            if let Some(i) = at {
                assert(self@.names[i as int] == name@);
            }
        }
        at.is_some()
    }

    /// The block of that name, if the table holds one.
    pub fn get(&self, name: &str) -> (block: Option<&CanonicalCodeBlock<'a>>)
        requires
            self@.wf(),
        ensures
            block is Some <==> self@.has(name@),
            block is Some ==> block.unwrap()@ == self@.block(name@),
    {
        match position(&self.names, name) {
            Some(i) => {
                proof {
                    assert(self@.names[i as int] == name@);
                    assert(self@.names.index_of(name@) == i);
                }
                Some(&self.blocks[i])
            },
            None => None,
        }
    }

    /// Folds one code block into the table.
    pub fn fold_in(
        &mut self,
        name: &'a str,
        modifiers: BlockModifier,
        lines: &Vec<LinkedLine<'a>>,
        in_section: usize,
    )
        requires
            old(self)@.wf(),
        ensures
            final(self)@.wf(),
            final(self)@ == old(self)@.with_block(
                Occurrence {
                    section: in_section,
                    name: name@,
                    modifiers,
                    lines: line_views(lines@),
                },
            ),
            old(self)@.dotless_are_blocks() ==> final(self)@.dotless_are_blocks(),
            !old(self)@.has(name@) && !name@.contains('.') ==> final(self)@.block(name@).form
                == CCBForm::Block,
    {
        let ghost before = self@;
        let ghost block = Occurrence {
            section: in_section,
            name: name@,
            modifiers,
            lines: line_views(lines@),
        };
        proof {
            lemma_with_block_wf(before, block);
            if before.dotless_are_blocks() {
                lemma_with_block_keeps_dotless(before, block);
            }
        }
        match position(&self.names, name) {
            Some(at) => {
                proof {
                    assert(before.names[at as int] == name@);
                    assert(before.names.index_of(name@) == at);
                }
                let canonical = &mut self.blocks[at];
                if modifiers.contains(REDEF) {
                    canonical.replace_lines(lines);
                    canonical.set_modifiers(modifiers);
                    canonical.mark_redefined(in_section);
                } else {
                    if modifiers.contains(APPEND) {
                        canonical.add_modifiers(modifiers);
                    }
                    canonical.append_lines(lines);
                    canonical.mark_appended(in_section);
                }
                proof {
                    assert(self.blocks[at as int]@ == later_definition(before.blocks[at as int], block));
                    assert(self@.blocks =~= before.with_block(block).blocks);
                }
            },
            None => {
                let form = form_of(has_extension(name));
                let mut canonical = CanonicalCodeBlock::from_form(form, in_section);
                canonical.replace_lines(lines);
                canonical.set_modifiers(modifiers);
                self.names.push(name);
                self.blocks.push(canonical);
                proof {
                    assert(self@.names =~= before.names.push(name@));
                    assert(self@.blocks =~= before.blocks.push(first_definition(block)));
                    assert(self@.names[before.names.len() as int] == name@);
                    assert(self@.names.contains(name@));
                    assert(self@.names.index_of(name@) == before.names.len());
                }
            },
        }
    }
}

/// Folds the code blocks of one section into `block_map`.
pub fn canonicalise_section<'a>(section: &LinkedSection<'a>, block_map: &mut BlockMap<'a>)
    requires
        old(block_map)@.wf(),
    ensures
        final(block_map)@.wf(),
        final(block_map)@ == fold_blocks(
            old(block_map)@,
            occurrences_in(section.id, section@.blocks),
        ),
        old(block_map)@.dotless_are_blocks() ==> final(block_map)@.dotless_are_blocks(),
{
    let ghost blocks = section@.blocks;
    let ghost table0 = block_map@;
    proof {
        if table0.dotless_are_blocks() {
            lemma_fold_keeps_dotless(table0, occurrences_in(section.id, blocks));
        }
    }
    let mut k: usize = 0;
    while k < section.blocks.len()
        invariant
            k <= section.blocks.len(),
            blocks == section@.blocks,
            blocks.len() == section.blocks.len(),
            block_map@.wf(),
            block_map@ == fold_blocks(table0, occurrences_in(section.id, blocks.take(k as int))),
        decreases section.blocks.len() - k,
    {
        let ghost done = blocks.take(k as int);
        let ghost this = blocks[k as int];
        proof {
            assert(this == section.blocks@[k as int]@);
            assert(blocks.take(k + 1).drop_last() =~= done);
            assert(blocks.take(k + 1).last() == this);
        }
        match &section.blocks[k] {
            LinkedBlock::Code { name, modifiers, lines } => {
                block_map.fold_in(name.as_str(), *modifiers, lines, section.id);
                proof {
                    let occs = occurrences_in(section.id, done);
                    let occ = Occurrence {
                        section: section.id,
                        name: this.name,
                        modifiers: this.modifiers,
                        lines: this.lines,
                    };
                    assert(occs.push(occ).drop_last() =~= occs);
                }
            },
            _ => {},
        }
        k += 1;
    }
    proof {
        assert(blocks.take(section.blocks.len() as int) =~= blocks);
    }
}

/// The canonical blocks of a document: every definition of a name folded
/// into one block, in one pass over the sections and their blocks.
pub fn canonicalise_code_blocks<'a>(sections: &[LinkedSection<'a>]) -> (block_map: BlockMap<'a>)
    ensures
        block_map@.wf(),
        block_map@ == canonical_table(linked_section_views(sections@)),
        block_map@.dotless_are_blocks(),
{
    let ghost all = linked_section_views(sections@);
    proof {
        lemma_fold_keeps_dotless(empty_table(), occurrences(all));
    }
    let mut block_map = BlockMap::new();
    let mut i: usize = 0;
    while i < sections.len()
        invariant
            i <= sections.len(),
            all == linked_section_views(sections@),
            block_map@.wf(),
            block_map@ == fold_blocks(empty_table(), occurrences(all.take(i as int))),
        decreases sections.len() - i,
    {
        let ghost done = all.take(i as int);
        let ghost this = all[i as int];
        proof {
            assert(this == sections@[i as int]@);
            assert(all.take(i + 1).drop_last() =~= done);
            assert(all.take(i + 1).last() == this);
            lemma_fold_blocks_add(
                empty_table(),
                occurrences(done),
                occurrences_in(this.id, this.blocks),
            );
        }
        canonicalise_section(&sections[i], &mut block_map);
        i += 1;
    }
    proof {
        assert(all.take(sections.len() as int) =~= all);
    }
    block_map
}

/// Canonicalising is a function of what the sections hold: two tables made
/// of sections that hold the same hold the same, name for name, body for
/// body and flag for flag. Nothing but the sections goes into a table.
pub proof fn lemma_canonicalise_repeatable<'a, 'b>(
    first_sections: Seq<LinkedSection<'a>>,
    first: BlockMap<'a>,
    second_sections: Seq<LinkedSection<'b>>,
    second: BlockMap<'b>,
)
    requires
        linked_section_views(first_sections) == linked_section_views(second_sections),
        first@ == canonical_table(linked_section_views(first_sections)),
        second@ == canonical_table(linked_section_views(second_sections)),
    ensures
        first@ == second@,
{
}

/// A later block that does not redefine puts its lines behind the lines
/// gathered so far, whether or not it is marked as an append.
pub proof fn lemma_append_extends(canonical: CanonicalSpec, block: Occurrence)
    requires
        !block.modifiers.has(REDEF),
    ensures
        later_definition(canonical, block).contents == canonical.contents + block.lines,
        later_definition(canonical, block).appended_to_in == canonical.appended_to_in.push(
            block.section,
        ),
        later_definition(canonical, block).redefined_in == canonical.redefined_in,
        later_definition(canonical, block).first_defined_in == canonical.first_defined_in,
        later_definition(canonical, block).form == canonical.form,
{
}

/// A later block that redefines leaves nothing of the lines gathered so far.
pub proof fn lemma_redefinition_replaces(canonical: CanonicalSpec, block: Occurrence)
    requires
        block.modifiers.has(REDEF),
    ensures
        later_definition(canonical, block).contents == block.lines,
        later_definition(canonical, block).redefined_in == canonical.redefined_in.push(
            block.section,
        ),
        later_definition(canonical, block).appended_to_in == canonical.appended_to_in,
        later_definition(canonical, block).first_defined_in == canonical.first_defined_in,
        later_definition(canonical, block).form == canonical.form,
{
}

/// A block that does not redefine never sets a flag that was cleared.
pub proof fn lemma_append_never_widens(canonical: CanonicalSpec, block: Occurrence)
    requires
        !block.modifiers.has(REDEF),
    ensures
        later_definition(canonical, block).print_header ==> canonical.print_header,
        later_definition(canonical, block).print_to_tangle ==> canonical.print_to_tangle,
        later_definition(canonical, block).print_to_weave ==> canonical.print_to_weave,
{
}

} // verus!
