//! What resolving the links of a document means: which links it holds, which
//! graph they make, and which defect, if any, is reported.

use vstd::prelude::*;
use crate::link::grammar::{links_of, well_formed_line};
use crate::link::graph::Graph;
use crate::parser::ast::{
    Occurrence, SectionSpec, BlockSpec, lines_of_sections, lines_of_blocks, occurrences,
};

verus! {

/// The names that `lines` link to, line after line.
pub open spec fn block_links(lines: Seq<Seq<char>>) -> Seq<Seq<char>>
    decreases lines.len(),
{
    if lines.len() == 0 {
        Seq::empty()
    } else {
        block_links(lines.drop_last()) + links_of(lines.last())
    }
}

/// `graph` once the blocks `blocks` are added to it, one after another.
pub open spec fn extend_graph(graph: Graph, blocks: Seq<Occurrence>) -> Graph
    decreases blocks.len(),
{
    if blocks.len() == 0 {
        graph
    } else {
        extend_graph(graph, blocks.drop_last()).with_links(
            blocks.last().name,
            block_links(blocks.last().lines),
        )
    }
}

/// The graph without any block.
pub open spec fn empty_graph() -> Graph {
    Graph { names: Seq::empty(), links: Seq::empty() }
}

/// The graph of the links of a document: every name that a code block
/// carries, with the links of all the blocks of that name.
pub open spec fn graph_of(sections: Seq<SectionSpec>) -> Graph {
    extend_graph(empty_graph(), occurrences(sections))
}

/// The first of `lines` that is not well formed.
pub open spec fn first_malformed(lines: Seq<Seq<char>>) -> Option<Seq<char>>
    decreases lines.len(),
{
    if lines.len() == 0 {
        None
    } else if first_malformed(lines.drop_last()) is Some {
        first_malformed(lines.drop_last())
    } else if !well_formed_line(lines.last()) {
        Some(lines.last())
    } else {
        None
    }
}

/// The first of `links` that names no block of `graph`.
pub open spec fn first_unknown(links: Seq<Seq<char>>, graph: Graph) -> Option<Seq<char>>
    decreases links.len(),
{
    if links.len() == 0 {
        None
    } else if first_unknown(links.drop_last(), graph) is Some {
        first_unknown(links.drop_last(), graph)
    } else if !graph.has(links.last()) {
        Some(links.last())
    } else {
        None
    }
}

/// How the resolution of a document ends.
pub enum Resolution {
    /// A line is not well formed; this is the first such line.
    Malformed(Seq<char>),
    /// A link names no block; this is the first such name.
    Unknown(Seq<char>),
    /// Every link names a block, but some chain of links runs in a circle.
    Cyclic,
    /// Every link names a block and no chain of links runs in a circle.
    Resolved,
}

/// How the resolution of the document `sections` ends. The lines are looked
/// at first, then the names, then the chains.
pub open spec fn resolution(sections: Seq<SectionSpec>) -> Resolution {
    let lines = lines_of_sections(sections);
    let graph = graph_of(sections);
    if first_malformed(lines) is Some {
        Resolution::Malformed(first_malformed(lines).unwrap())
    } else if first_unknown(block_links(lines), graph) is Some {
        Resolution::Unknown(first_unknown(block_links(lines), graph).unwrap())
    } else if !graph.acyclic() {
        Resolution::Cyclic
    } else {
        Resolution::Resolved
    }
}

/// Every link that `graph` records is one of `pool`.
pub open spec fn links_within(graph: Graph, pool: Seq<Seq<char>>) -> bool {
    forall|i: int, j: int|
        0 <= i < graph.links.len() && 0 <= j < graph.links[i].len() ==> pool.contains(
            #[trigger] graph.links[i][j],
        )
}

pub proof fn lemma_block_links_add(a: Seq<Seq<char>>, b: Seq<Seq<char>>)
    ensures
        block_links(a + b) == block_links(a) + block_links(b),
    decreases b.len(),
{
    if b.len() == 0 {
        assert(a + b =~= a);
        assert(block_links(a) + block_links(b) =~= block_links(a));
    } else {
        assert((a + b).drop_last() =~= a + b.drop_last());
        lemma_block_links_add(a, b.drop_last());
        assert(block_links(a + b) =~= block_links(a) + block_links(b));
    }
}

pub proof fn lemma_lines_of_blocks_add(a: Seq<BlockSpec>, b: Seq<BlockSpec>)
    ensures
        lines_of_blocks(a + b) == lines_of_blocks(a) + lines_of_blocks(b),
    decreases b.len(),
{
    if b.len() == 0 {
        assert(a + b =~= a);
        assert(lines_of_blocks(a) + lines_of_blocks(b) =~= lines_of_blocks(a));
    } else {
        assert((a + b).drop_last() =~= a + b.drop_last());
        lemma_lines_of_blocks_add(a, b.drop_last());
        assert(lines_of_blocks(a + b) =~= lines_of_blocks(a) + lines_of_blocks(b));
    }
}

pub proof fn lemma_lines_of_sections_add(a: Seq<SectionSpec>, b: Seq<SectionSpec>)
    ensures
        lines_of_sections(a + b) == lines_of_sections(a) + lines_of_sections(b),
    decreases b.len(),
{
    if b.len() == 0 {
        assert(a + b =~= a);
        assert(lines_of_sections(a) + lines_of_sections(b) =~= lines_of_sections(a));
    } else {
        assert((a + b).drop_last() =~= a + b.drop_last());
        lemma_lines_of_sections_add(a, b.drop_last());
        assert(lines_of_sections(a + b) =~= lines_of_sections(a) + lines_of_sections(b));
    }
}

/// The first malformed line of two lists on end is that of the first list,
/// or else that of the second.
pub proof fn lemma_first_malformed_add(a: Seq<Seq<char>>, b: Seq<Seq<char>>)
    ensures
        first_malformed(a + b) == if first_malformed(a) is Some {
            first_malformed(a)
        } else {
            first_malformed(b)
        },
    decreases b.len(),
{
    if b.len() == 0 {
        assert(a + b =~= a);
    } else {
        assert((a + b).drop_last() =~= a + b.drop_last());
        lemma_first_malformed_add(a, b.drop_last());
    }
}

/// The first unknown name of two lists on end is that of the first list, or
/// else that of the second.
pub proof fn lemma_first_unknown_add(a: Seq<Seq<char>>, b: Seq<Seq<char>>, graph: Graph)
    ensures
        first_unknown(a + b, graph) == if first_unknown(a, graph) is Some {
            first_unknown(a, graph)
        } else {
            first_unknown(b, graph)
        },
    decreases b.len(),
{
    if b.len() == 0 {
        assert(a + b =~= a);
    } else {
        assert((a + b).drop_last() =~= a + b.drop_last());
        lemma_first_unknown_add(a, b.drop_last(), graph);
    }
}

/// No name is reported exactly when every name is defined.
pub proof fn lemma_first_unknown_none(links: Seq<Seq<char>>, graph: Graph)
    ensures
        first_unknown(links, graph) is None <==> forall|i: int|
            0 <= i < links.len() ==> graph.has(#[trigger] links[i]),
    decreases links.len(),
{
    if links.len() > 0 {
        lemma_first_unknown_none(links.drop_last(), graph);
        if first_unknown(links, graph) is None {
            assert forall|i: int| 0 <= i < links.len() implies graph.has(#[trigger] links[i]) by {
                if i < links.len() - 1 {
                    assert(links.drop_last()[i] == links[i]);
                }
            }
        } else {
            if first_unknown(links.drop_last(), graph) is Some {
                let i = choose|i: int|
                    0 <= i < links.drop_last().len() && !graph.has(
                        #[trigger] links.drop_last()[i],
                    );
                assert(links.drop_last()[i] == links[i]);
            }
        }
    }
}

/// Adding blocks in two runs gives the graph that adding them in one gives.
pub proof fn lemma_extend_graph_add(graph: Graph, a: Seq<Occurrence>, b: Seq<Occurrence>)
    ensures
        extend_graph(graph, a + b) == extend_graph(extend_graph(graph, a), b),
    decreases b.len(),
{
    if b.len() == 0 {
        assert(a + b =~= a);
    } else {
        assert((a + b).drop_last() =~= a + b.drop_last());
        lemma_extend_graph_add(graph, a, b.drop_last());
    }
}

/// A block's links join the pool with it.
pub proof fn lemma_with_links_within(
    graph: Graph,
    name: Seq<char>,
    links: Seq<Seq<char>>,
    pool: Seq<Seq<char>>,
)
    requires
        graph.wf(),
        links_within(graph, pool),
    ensures
        links_within(graph.with_links(name, links), pool + links),
{
    let after = graph.with_links(name, links);
    let wider = pool + links;
    assert forall|i: int, j: int|
        0 <= i < after.links.len() && 0 <= j < after.links[i].len() implies wider.contains(
        #[trigger] after.links[i][j],
    ) by {
        let x = after.links[i][j];
        if graph.has(name) {
            let at = graph.names.index_of(name);
            if i == at {
                if j < graph.links[at].len() {
                    assert(x == graph.links[at][j]);
                    let k = choose|k: int| 0 <= k < pool.len() && pool[k] == x;
                    assert(wider[k] == x);
                } else {
                    let k = j - graph.links[at].len();
                    assert(x == links[k]);
                    assert(wider[pool.len() + k] == x);
                }
            } else {
                assert(x == graph.links[i][j]);
                let k = choose|k: int| 0 <= k < pool.len() && pool[k] == x;
                assert(wider[k] == x);
            }
        } else {
            if i < graph.links.len() {
                assert(x == graph.links[i][j]);
                let k = choose|k: int| 0 <= k < pool.len() && pool[k] == x;
                assert(wider[k] == x);
            } else {
                assert(x == links[j]);
                assert(wider[pool.len() + j] == x);
            }
        }
    }
}

/// A pool may grow.
pub proof fn lemma_links_within_wider(graph: Graph, pool: Seq<Seq<char>>, more: Seq<Seq<char>>)
    requires
        links_within(graph, pool),
    ensures
        links_within(graph, pool + more),
{
    assert forall|i: int, j: int|
        0 <= i < graph.links.len() && 0 <= j < graph.links[i].len() implies (pool + more).contains(
        #[trigger] graph.links[i][j],
    ) by {
        let x = graph.links[i][j];
        let k = choose|k: int| 0 <= k < pool.len() && pool[k] == x;
        assert((pool + more)[k] == x);
    }
}

/// Where every link of the pool is defined, the graph is closed.
pub proof fn lemma_closed_from_pool(graph: Graph, pool: Seq<Seq<char>>)
    requires
        links_within(graph, pool),
        first_unknown(pool, graph) is None,
    ensures
        graph.closed(),
{
    lemma_first_unknown_none(pool, graph);
    assert forall|i: int, j: int|
        0 <= i < graph.links.len() && 0 <= j < graph.links[i].len() implies graph.has(
        #[trigger] graph.links[i][j],
    ) by {
        let x = graph.links[i][j];
        let k = choose|k: int| 0 <= k < pool.len() && pool[k] == x;
        assert(graph.has(pool[k]));
    }
}

/// Whether one of `blocks` carries the name `name`.
pub open spec fn defines(blocks: Seq<Occurrence>, name: Seq<char>) -> bool {
    exists|i: int| 0 <= i < blocks.len() && (#[trigger] blocks[i]).name == name
}

/// The graph of a list of blocks is well formed, and the names it holds
/// are the names that the blocks carry.
pub proof fn lemma_graph_names(blocks: Seq<Occurrence>, name: Seq<char>)
    ensures
        extend_graph(empty_graph(), blocks).wf(),
        extend_graph(empty_graph(), blocks).has(name) <==> defines(blocks, name),
    decreases blocks.len(),
{
    if blocks.len() == 0 {
    } else {
        let front = blocks.drop_last();
        let before = extend_graph(empty_graph(), front);
        let last = blocks.last();
        lemma_graph_names(front, name);
        crate::link::graph::lemma_with_links_wf(before, last.name, block_links(last.lines));
        let after = before.with_links(last.name, block_links(last.lines));
        if after.has(name) {
            if before.has(name) {
                let i = choose|i: int| 0 <= i < front.len() && (#[trigger] front[i]).name == name;
                assert(blocks[i].name == name);
            } else {
                let k = choose|k: int| 0 <= k < after.names.len() && after.names[k] == name;
                if before.has(last.name) {
                    assert(before.names[k] == name);
                } else if k < before.names.len() {
                    assert(before.names[k] == name);
                }
                assert(blocks[blocks.len() - 1].name == name);
            }
        }
        if defines(blocks, name) {
            let i = choose|i: int| 0 <= i < blocks.len() && (#[trigger] blocks[i]).name == name;
            if i < front.len() {
                assert(front[i].name == name);
                let k = choose|k: int| 0 <= k < before.names.len() && before.names[k] == name;
                assert(after.names[k] == name);
            } else {
                if before.has(last.name) {
                } else {
                    assert(after.names[before.names.len() as int] == name);
                }
            }
        }
    }
}

/// A link is known in a document exactly when some code block of the
/// document carries its name.
pub proof fn lemma_known_names(sections: Seq<SectionSpec>, name: Seq<char>)
    ensures
        graph_of(sections).has(name) <==> defines(occurrences(sections), name),
{
    lemma_graph_names(occurrences(sections), name);
}

} // verus!
