//! Why the canonical blocks of a resolved document can be expanded: folding
//! the definitions of a name into one block adds no link that the document
//! did not hold.

use vstd::prelude::*;
use crate::link::graph::{Graph, lemma_with_links_wf};
use crate::link::document::{
    block_links, extend_graph, empty_graph, graph_of, lemma_block_links_add,
};
use crate::output::canon::{
    TableSpec, fold_blocks, empty_table, canonical_table, lemma_with_block_wf,
};
use crate::output::tangle::{table_graph, expandable};
use crate::parser::ast::{Occurrence, SectionSpec, occurrences};

verus! {

/// Whether `table` holds the names of `graph`, in the same order, and no
/// block of it links to anything that `graph` does not record for its name.
pub open spec fn within_graph(table: TableSpec, graph: Graph) -> bool {
    &&& table.wf()
    &&& graph.wf()
    &&& table.names == graph.names
    &&& forall|i: int, x: Seq<char>|
        0 <= i < table.blocks.len() && #[trigger] block_links(table.blocks[i].contents).contains(x)
            ==> graph.links[i].contains(x)
}

/// Folding a block into the table and adding it to the graph keeps the table
/// within the graph.
pub proof fn lemma_within_graph_step(table: TableSpec, graph: Graph, block: Occurrence)
    requires
        within_graph(table, graph),
    ensures
        within_graph(
            table.with_block(block),
            graph.with_links(block.name, block_links(block.lines)),
        ),
{
    let links = block_links(block.lines);
    let table2 = table.with_block(block);
    let graph2 = graph.with_links(block.name, links);
    lemma_with_block_wf(table, block);
    lemma_with_links_wf(graph, block.name, links);
    assert forall|i: int, x: Seq<char>|
        0 <= i < table2.blocks.len() && #[trigger] block_links(table2.blocks[i].contents).contains(
            x,
        ) implies graph2.links[i].contains(x) by {
        if table.has(block.name) {
            let at = table.names.index_of(block.name);
            if i == at {
                let old_lines = table.blocks[at].contents;
                lemma_block_links_add(old_lines, block.lines);
                let k = choose|k: int|
                    0 <= k < block_links(table2.blocks[i].contents).len() && block_links(
                        table2.blocks[i].contents,
                    )[k] == x;
                if table2.blocks[i].contents == block.lines {
                    assert(links[k] == x);
                    assert(graph2.links[i][graph.links[at].len() + k] == x);
                } else {
                    assert(table2.blocks[i].contents == old_lines + block.lines);
                    if k < block_links(old_lines).len() {
                        assert(block_links(old_lines)[k] == x);
                        assert(block_links(table.blocks[i].contents).contains(x));
                        let m = choose|m: int|
                            0 <= m < graph.links[i].len() && graph.links[i][m] == x;
                        assert(graph2.links[i][m] == x);
                    } else {
                        let m = k - block_links(old_lines).len();
                        assert(links[m] == x);
                        assert(graph2.links[i][graph.links[at].len() + m] == x);
                    }
                }
            } else {
                assert(table2.blocks[i] == table.blocks[i]);
                assert(block_links(table.blocks[i].contents).contains(x));
            }
        } else {
            if i < table.blocks.len() {
                assert(table2.blocks[i] == table.blocks[i]);
                assert(block_links(table.blocks[i].contents).contains(x));
            }
        }
    }
}

/// The table folded from a list of blocks stays within the graph made of it.
pub proof fn lemma_within_graph_fold(blocks: Seq<Occurrence>)
    ensures
        within_graph(fold_blocks(empty_table(), blocks), extend_graph(empty_graph(), blocks)),
    decreases blocks.len(),
{
    if blocks.len() == 0 {
    } else {
        lemma_within_graph_fold(blocks.drop_last());
        lemma_within_graph_step(
            fold_blocks(empty_table(), blocks.drop_last()),
            extend_graph(empty_graph(), blocks.drop_last()),
            blocks.last(),
        );
    }
}

/// A table within a graph that is closed and free of circles can be
/// expanded.
pub proof fn lemma_within_graph_expandable(table: TableSpec, graph: Graph)
    requires
        within_graph(table, graph),
        graph.closed(),
        graph.acyclic(),
    ensures
        expandable(table),
{
    let inner = table_graph(table);
    assert forall|from: Seq<char>, to: Seq<char>| inner.edge(from, to) implies graph.edge(
        from,
        to,
    ) by {
        let at = inner.names.index_of(from);
        assert(block_links(table.blocks[at].contents).contains(to));
    }
    assert forall|i: int, j: int|
        0 <= i < inner.links.len() && 0 <= j < inner.links[i].len() implies inner.has(
        #[trigger] inner.links[i][j],
    ) by {
        let x = inner.links[i][j];
        assert(block_links(table.blocks[i].contents).contains(x));
        let m = choose|m: int| 0 <= m < graph.links[i].len() && graph.links[i][m] == x;
        assert(graph.has(graph.links[i][m]));
    }
    assert forall|path: Seq<Seq<char>>| #[trigger] inner.is_path(path) implies path.no_duplicates() by {
        assert(graph.is_path(path)) by {
            assert forall|i: int| 0 <= i < path.len() - 1 implies graph.edge(
                #[trigger] path[i],
                path[i + 1],
            ) by {
                assert(inner.edge(path[i], path[i + 1]));
            }
        }
    }
}

/// The canonical blocks of a document whose links are resolved can be
/// expanded: every link in them names one of them, and no chain of links
/// among them comes back to a block that it has passed.
pub proof fn lemma_resolved_is_expandable(sections: Seq<SectionSpec>)
    requires
        graph_of(sections).closed(),
        graph_of(sections).acyclic(),
    ensures
        expandable(canonical_table(sections)),
        canonical_table(sections).names == graph_of(sections).names,
{
    lemma_within_graph_fold(occurrences(sections));
    lemma_within_graph_expandable(canonical_table(sections), graph_of(sections));
}

} // verus!
