//! How the text around a link reaches the block that the link names: every
//! line of the expanded block stands between the text before the link and
//! the text after it.

use vstd::prelude::*;
use crate::text::{concat_all, lemma_concat_all_add};
use crate::link::grammar::{Part, LinkPart, parts_of, text_slices};
use crate::output::canon::TableSpec;
use crate::output::tangle::{
    rendered_line, all_text, header_lines, expand_block, expand_lines, expand_line, expand_links,
};

verus! {

/// Every one of `lines` with `before` in front of it and `after` behind it.
pub open spec fn wrapped(lines: Seq<Seq<char>>, before: Seq<char>, after: Seq<char>) -> Seq<
    Seq<char>,
> {
    Seq::new(lines.len(), |i: int| before + lines[i] + after)
}

/// No pieces at all.
pub open spec fn nothing() -> Seq<Seq<char>> {
    Seq::empty()
}

/// Wrapping two runs of lines on end wraps each of them.
pub proof fn lemma_wrapped_add(
    a: Seq<Seq<char>>,
    b: Seq<Seq<char>>,
    before: Seq<char>,
    after: Seq<char>,
)
    ensures
        wrapped(a + b, before, after) == wrapped(a, before, after) + wrapped(b, before, after),
{
    assert(wrapped(a + b, before, after) =~= wrapped(a, before, after) + wrapped(
        b,
        before,
        after,
    ));
}

/// Wrapping what is wrapped puts the outer text outside the inner text.
pub proof fn lemma_wrapped_twice(
    lines: Seq<Seq<char>>,
    inner_before: Seq<char>,
    inner_after: Seq<char>,
    before: Seq<char>,
    after: Seq<char>,
)
    ensures
        wrapped(wrapped(lines, inner_before, inner_after), before, after) == wrapped(
            lines,
            before + inner_before,
            inner_after + after,
        ),
{
    let twice = wrapped(wrapped(lines, inner_before, inner_after), before, after);
    let once = wrapped(lines, before + inner_before, inner_after + after);
    assert forall|i: int| 0 <= i < lines.len() implies twice[i] == once[i] by {
        assert(before + (inner_before + lines[i] + inner_after) + after =~= (before + inner_before)
            + lines[i] + (inner_after + after));
    }
    assert(twice =~= once);
}

/// The lines that a block expands to in a context are the lines that it
/// expands to by itself, each between what the context puts in front and
/// what it puts behind. So the text before a link is put in front of every
/// line of the block that is linked, and of no other line.
pub proof fn lemma_block_context(
    table: TableSpec,
    comment: Option<Seq<char>>,
    name: Seq<char>,
    prefix: Seq<Seq<char>>,
    suffix: Seq<Seq<char>>,
    depth: nat,
)
    ensures
        expand_block(table, comment, name, prefix, suffix, depth) == wrapped(
            expand_block(table, comment, name, nothing(), nothing(), depth),
            concat_all(prefix),
            concat_all(suffix),
        ),
    decreases depth, 0nat, 0nat,
{
    let before = concat_all(prefix);
    let after = concat_all(suffix);
    if depth == 0 || !table.has(name) {
        assert(wrapped(Seq::<Seq<char>>::empty(), before, after) =~= Seq::<Seq<char>>::empty());
    } else {
        let block = table.block(name);
        let head = header_lines(block, comment, name, prefix, suffix);
        let bare_head = header_lines(block, comment, name, nothing(), nothing());
        assert(concat_all(nothing()) =~= Seq::<char>::empty());
        assert(head =~= wrapped(bare_head, before, after)) by {
            if block.print_header && comment is Some {
                let text = crate::parser::format::substituted(comment.unwrap(), 's', name);
                assert(rendered_line(nothing(), text, nothing()) =~= text);
                assert(wrapped(bare_head, before, after)[0] == before + bare_head[0] + after);
            }
        }
        lemma_lines_context(
            table,
            comment,
            block.contents,
            prefix,
            suffix,
            (depth - 1) as nat,
        );
        lemma_wrapped_add(
            bare_head,
            expand_lines(
                table,
                comment,
                block.contents,
                nothing(),
                nothing(),
                (depth - 1) as nat,
            ),
            before,
            after,
        );
    }
}

/// As [`lemma_block_context`], for a run of lines.
pub proof fn lemma_lines_context(
    table: TableSpec,
    comment: Option<Seq<char>>,
    lines: Seq<Seq<char>>,
    prefix: Seq<Seq<char>>,
    suffix: Seq<Seq<char>>,
    depth: nat,
)
    ensures
        expand_lines(table, comment, lines, prefix, suffix, depth) == wrapped(
            expand_lines(table, comment, lines, nothing(), nothing(), depth),
            concat_all(prefix),
            concat_all(suffix),
        ),
    decreases depth, 3nat, lines.len(),
{
    let before = concat_all(prefix);
    let after = concat_all(suffix);
    if lines.len() == 0 {
        assert(wrapped(Seq::<Seq<char>>::empty(), before, after) =~= Seq::<Seq<char>>::empty());
    } else {
        lemma_lines_context(table, comment, lines.drop_last(), prefix, suffix, depth);
        lemma_line_context(table, comment, lines.last(), prefix, suffix, depth);
        lemma_wrapped_add(
            expand_lines(table, comment, lines.drop_last(), nothing(), nothing(), depth),
            expand_line(table, comment, lines.last(), nothing(), nothing(), depth),
            before,
            after,
        );
    }
}

/// As [`lemma_block_context`], for one line.
pub proof fn lemma_line_context(
    table: TableSpec,
    comment: Option<Seq<char>>,
    line: Seq<char>,
    prefix: Seq<Seq<char>>,
    suffix: Seq<Seq<char>>,
    depth: nat,
)
    ensures
        expand_line(table, comment, line, prefix, suffix, depth) == wrapped(
            expand_line(table, comment, line, nothing(), nothing(), depth),
            concat_all(prefix),
            concat_all(suffix),
        ),
    decreases depth, 2nat, 0nat,
{
    let before = concat_all(prefix);
    let after = concat_all(suffix);
    match parts_of(line) {
        Some(parts) => {
            if all_text(parts) {
                assert(concat_all(nothing()) =~= Seq::<char>::empty());
                assert(rendered_line(nothing(), line, nothing()) =~= line);
                assert(seq![rendered_line(prefix, line, suffix)] =~= wrapped(
                    seq![line],
                    before,
                    after,
                ));
            } else {
                lemma_links_context(table, comment, parts, parts.len(), prefix, suffix, depth);
            }
        },
        None => {
            assert(wrapped(Seq::<Seq<char>>::empty(), before, after) =~= Seq::<
                Seq<char>,
            >::empty());
        },
    }
}

/// As [`lemma_block_context`], for the links of one line.
pub proof fn lemma_links_context(
    table: TableSpec,
    comment: Option<Seq<char>>,
    parts: Seq<Part>,
    upto: nat,
    prefix: Seq<Seq<char>>,
    suffix: Seq<Seq<char>>,
    depth: nat,
)
    ensures
        expand_links(table, comment, parts, upto, prefix, suffix, depth) == wrapped(
            expand_links(table, comment, parts, upto, nothing(), nothing(), depth),
            concat_all(prefix),
            concat_all(suffix),
        ),
    decreases depth, 1nat, upto,
{
    let before = concat_all(prefix);
    let after = concat_all(suffix);
    if upto == 0 || upto > parts.len() {
        assert(wrapped(Seq::<Seq<char>>::empty(), before, after) =~= Seq::<Seq<char>>::empty());
    } else {
        let at = (upto - 1) as nat;
        lemma_links_context(table, comment, parts, at, prefix, suffix, depth);
        if parts[at as int].kind == LinkPart::Link {
            let name = parts[at as int].slice;
            let left = text_slices(parts.take(at as int));
            let right = text_slices(parts.skip(at as int + 1));
            let bare = expand_block(table, comment, name, nothing(), nothing(), depth);
            lemma_block_context(table, comment, name, prefix + left, right + suffix, depth);
            lemma_block_context(table, comment, name, nothing() + left, right + nothing(), depth);
            lemma_concat_all_add(prefix, left);
            lemma_concat_all_add(right, suffix);
            assert(nothing() + left =~= left);
            assert(right + nothing() =~= right);
            lemma_wrapped_twice(bare, concat_all(left), concat_all(right), before, after);
            lemma_wrapped_add(
                expand_links(table, comment, parts, at, nothing(), nothing(), depth),
                expand_block(table, comment, name, nothing() + left, right + nothing(), depth),
                before,
                after,
            );
        }
    }
}

} // verus!
