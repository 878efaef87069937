//! Why the number of names is depth enough: in a table that can be
//! expanded, no chain of links is longer than that, so going deeper finds
//! nothing more.

use vstd::prelude::*;
use crate::link::grammar::{Part, LinkPart, parts_of, links_of};
use crate::link::graph::{lemma_path_push, lemma_simple_path_is_short};
use crate::output::canon::TableSpec;
use crate::output::tangle::{
    table_graph, expandable, all_text, expansion, expand_block, expand_lines, expand_line,
    expand_links, lemma_link_names_contains, lemma_block_links_contains,
};

verus! {

/// How deep the expansion must be able to go below the block that `path`
/// ends on.
pub open spec fn room(table: TableSpec, path: Seq<Seq<char>>) -> nat {
    (table.names.len() - path.len()) as nat
}

/// Whether `path` is a chain of links of `table` without repetition.
pub open spec fn chain(table: TableSpec, path: Seq<Seq<char>>) -> bool {
    &&& path.len() >= 1
    &&& table_graph(table).is_path(path)
    &&& path.no_duplicates()
}

/// Below a chain of links, a block expands to the same lines at every depth
/// that leaves room for the chains that are left.
pub proof fn lemma_block_depth(
    table: TableSpec,
    comment: Option<Seq<char>>,
    name: Seq<char>,
    prefix: Seq<Seq<char>>,
    suffix: Seq<Seq<char>>,
    path: Seq<Seq<char>>,
    depth: nat,
)
    requires
        expandable(table),
        chain(table, path),
        path.last() == name,
        depth >= room(table, path) + 1,
    ensures
        expand_block(table, comment, name, prefix, suffix, depth) == expand_block(
            table,
            comment,
            name,
            prefix,
            suffix,
            room(table, path) + 1,
        ),
    decreases table.names.len() - path.len(), 4nat, 0nat,
{
    let graph = table_graph(table);
    lemma_simple_path_is_short(graph, path);
    assert(graph.has(path[path.len() - 1]));
    let lines = table.block(name).contents;
    assert forall|k: int, x: Seq<char>|
        0 <= k < lines.len() && #[trigger] links_of(lines[k]).contains(x) implies graph.edge(
        name,
        x,
    ) by {
        lemma_block_links_contains(lines, k, x);
    }
    lemma_lines_depth(table, comment, lines, lines.len(), prefix, suffix, path, (depth - 1) as nat);
    assert(lines.take(lines.len() as int) =~= lines);
    assert(graph.has(name));
    assert(table.has(name));
    assert((room(table, path) + 1 - 1) as nat == room(table, path));
}

/// As [`lemma_block_depth`], for the first `upto` lines of the block that
/// the chain ends on.
pub proof fn lemma_lines_depth(
    table: TableSpec,
    comment: Option<Seq<char>>,
    lines: Seq<Seq<char>>,
    upto: nat,
    prefix: Seq<Seq<char>>,
    suffix: Seq<Seq<char>>,
    path: Seq<Seq<char>>,
    depth: nat,
)
    requires
        expandable(table),
        chain(table, path),
        upto <= lines.len(),
        forall|k: int, x: Seq<char>|
            0 <= k < lines.len() && #[trigger] links_of(lines[k]).contains(x) ==> table_graph(
                table,
            ).edge(path.last(), x),
        depth >= room(table, path),
    ensures
        expand_lines(table, comment, lines.take(upto as int), prefix, suffix, depth)
            == expand_lines(
            table,
            comment,
            lines.take(upto as int),
            prefix,
            suffix,
            room(table, path),
        ),
    decreases table.names.len() - path.len(), 3nat, upto,
{
    if upto > 0 {
        let first = lines.take(upto as int);
        assert(first.drop_last() =~= lines.take(upto - 1));
        assert(first.last() == lines[upto - 1]);
        lemma_lines_depth(
            table,
            comment,
            lines,
            (upto - 1) as nat,
            prefix,
            suffix,
            path,
            depth,
        );
        lemma_line_depth(table, comment, lines[upto - 1], prefix, suffix, path, depth);
    }
}

/// As [`lemma_block_depth`], for one line of the block that the chain ends
/// on.
pub proof fn lemma_line_depth(
    table: TableSpec,
    comment: Option<Seq<char>>,
    line: Seq<char>,
    prefix: Seq<Seq<char>>,
    suffix: Seq<Seq<char>>,
    path: Seq<Seq<char>>,
    depth: nat,
)
    requires
        expandable(table),
        chain(table, path),
        forall|x: Seq<char>| #[trigger]
            links_of(line).contains(x) ==> table_graph(table).edge(path.last(), x),
        depth >= room(table, path),
    ensures
        expand_line(table, comment, line, prefix, suffix, depth) == expand_line(
            table,
            comment,
            line,
            prefix,
            suffix,
            room(table, path),
        ),
    decreases table.names.len() - path.len(), 2nat, 0nat,
{
    match parts_of(line) {
        Some(parts) => {
            if !all_text(parts) {
                lemma_links_depth(
                    table,
                    comment,
                    line,
                    parts,
                    parts.len(),
                    prefix,
                    suffix,
                    path,
                    depth,
                );
            }
        },
        None => {},
    }
}

/// As [`lemma_block_depth`], for the links among the first `upto` parts of a
/// line of the block that the chain ends on.
pub proof fn lemma_links_depth(
    table: TableSpec,
    comment: Option<Seq<char>>,
    line: Seq<char>,
    parts: Seq<Part>,
    upto: nat,
    prefix: Seq<Seq<char>>,
    suffix: Seq<Seq<char>>,
    path: Seq<Seq<char>>,
    depth: nat,
)
    requires
        expandable(table),
        chain(table, path),
        parts_of(line) == Some(parts),
        forall|x: Seq<char>| #[trigger]
            links_of(line).contains(x) ==> table_graph(table).edge(path.last(), x),
        depth >= room(table, path),
    ensures
        expand_links(table, comment, parts, upto, prefix, suffix, depth) == expand_links(
            table,
            comment,
            parts,
            upto,
            prefix,
            suffix,
            room(table, path),
        ),
    decreases table.names.len() - path.len(), 1nat, upto,
{
    if upto == 0 || upto > parts.len() {
    } else {
        let at = (upto - 1) as nat;
        lemma_links_depth(table, comment, line, parts, at, prefix, suffix, path, depth);
        if parts[at as int].kind == LinkPart::Link {
            let graph = table_graph(table);
            let name = parts[at as int].slice;
            let longer = path.push(name);
            lemma_link_names_contains(parts, at as int);
            assert(links_of(line).contains(name));
            lemma_path_push(graph, path, name);
            assert(longer.no_duplicates());
            lemma_simple_path_is_short(graph, longer);
            let left = prefix + crate::link::grammar::text_slices(parts.take(at as int));
            let right = crate::link::grammar::text_slices(parts.skip(at as int + 1)) + suffix;
            assert(room(table, longer) + 1 == room(table, path));
            lemma_block_depth(table, comment, name, left, right, longer, depth);
        }
    }
}

/// In a table that can be expanded, the lines of a file are found at a depth
/// of as many levels as there are names, and no greater depth finds other
/// lines.
pub proof fn lemma_depth_suffices(
    table: TableSpec,
    comment: Option<Seq<char>>,
    name: Seq<char>,
    depth: nat,
)
    requires
        expandable(table),
        table.has(name),
        depth >= table.names.len(),
    ensures
        expand_block(table, comment, name, Seq::empty(), Seq::empty(), depth) == expansion(
            table,
            comment,
            name,
        ),
{
    let path = seq![name];
    assert(table_graph(table).is_path(path));
    lemma_block_depth(table, comment, name, Seq::empty(), Seq::empty(), path, depth);
}

} // verus!
