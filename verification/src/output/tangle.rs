//! Tangling: writing out the source files that a document describes.
//!
//! A file block is expanded line by line. A line without links is written as
//! it stands. A line with links is not written itself: for each of its links
//! the block that the link names is expanded in its place, and every line of
//! that expansion gets the literal text that stood before the link on the
//! line in front of it and the literal text that stood after the link behind
//! it. So a block linked to from an indented line comes out indented.

use vstd::prelude::*;
use vstd::string::*;
use crate::text::{views, string_views, concat_all, push_all, lemma_string_views_push};
use crate::link::{LinkedLine, line_views, push_slices};
use crate::link::grammar::{LinkPart, Part, parts_of, next_link, text_slices, link_names, links_of};
use crate::link::graph::{Graph, lemma_path_push, lemma_simple_path_is_short};
use crate::link::document::block_links;
use crate::output::canon::{TableSpec, CanonicalSpec, CanonicalCodeBlock, BlockMap, CCBForm};
use crate::parser::format::{CommentFormat, substituted, LineNumberFormat};
use crate::parser::ast::CompilerSettings;
use crate::output::{OutputError, ExitStatus};

verus! {

/// One line of output: what stands in front, the text, what stands behind.
pub open spec fn rendered_line(
    prefix: Seq<Seq<char>>,
    text: Seq<char>,
    suffix: Seq<Seq<char>>,
) -> Seq<char> {
    concat_all(prefix) + text + concat_all(suffix)
}

/// Whether none of `parts` is a link.
pub open spec fn all_text(parts: Seq<Part>) -> bool {
    forall|i: int| 0 <= i < parts.len() ==> (#[trigger] parts[i]).kind != LinkPart::Link
}

/// The comment line above an expanded block, where the block asks for one
/// and the document says how comments are written; else nothing.
pub open spec fn header_lines(
    block: CanonicalSpec,
    comment: Option<Seq<char>>,
    name: Seq<char>,
    prefix: Seq<Seq<char>>,
    suffix: Seq<Seq<char>>,
) -> Seq<Seq<char>> {
    if block.print_header && comment is Some {
        seq![rendered_line(prefix, substituted(comment.unwrap(), 's', name), suffix)]
    } else {
        Seq::empty()
    }
}

/// The lines that the block called `name` expands to between `prefix` and
/// `suffix`. `depth` bounds how many links deep the expansion goes; where
/// no chain of links runs in a circle, no chain is longer than the number of
/// names, and that many levels reach every block.
pub open spec fn expand_block(
    table: TableSpec,
    comment: Option<Seq<char>>,
    name: Seq<char>,
    prefix: Seq<Seq<char>>,
    suffix: Seq<Seq<char>>,
    depth: nat,
) -> Seq<Seq<char>>
    decreases depth, 0nat, 0nat,
{
    if depth == 0 || !table.has(name) {
        Seq::empty()
    } else {
        header_lines(table.block(name), comment, name, prefix, suffix) + expand_lines(
            table,
            comment,
            table.block(name).contents,
            prefix,
            suffix,
            (depth - 1) as nat,
        )
    }
}

/// The lines that `lines` expand to, one after another.
pub open spec fn expand_lines(
    table: TableSpec,
    comment: Option<Seq<char>>,
    lines: Seq<Seq<char>>,
    prefix: Seq<Seq<char>>,
    suffix: Seq<Seq<char>>,
    depth: nat,
) -> Seq<Seq<char>>
    decreases depth, 3nat, lines.len(),
{
    if lines.len() == 0 {
        Seq::empty()
    } else {
        expand_lines(table, comment, lines.drop_last(), prefix, suffix, depth) + expand_line(
            table,
            comment,
            lines.last(),
            prefix,
            suffix,
            depth,
        )
    }
}

/// The lines that one line expands to: itself between `prefix` and `suffix`
/// where it holds no link, else the expansions of its links.
pub open spec fn expand_line(
    table: TableSpec,
    comment: Option<Seq<char>>,
    line: Seq<char>,
    prefix: Seq<Seq<char>>,
    suffix: Seq<Seq<char>>,
    depth: nat,
) -> Seq<Seq<char>>
    decreases depth, 2nat, 0nat,
{
    match parts_of(line) {
        Some(parts) => if all_text(parts) {
            seq![rendered_line(prefix, line, suffix)]
        } else {
            expand_links(table, comment, parts, parts.len(), prefix, suffix, depth)
        },
        None => Seq::empty(),
    }
}

/// The expansions of the links among the first `upto` of `parts`, from left
/// to right. Each link is expanded between the literal text before it on
/// the line and the literal text after it.
pub open spec fn expand_links(
    table: TableSpec,
    comment: Option<Seq<char>>,
    parts: Seq<Part>,
    upto: nat,
    prefix: Seq<Seq<char>>,
    suffix: Seq<Seq<char>>,
    depth: nat,
) -> Seq<Seq<char>>
    decreases depth, 1nat, upto,
{
    if upto == 0 || upto > parts.len() {
        Seq::empty()
    } else {
        let at = (upto - 1) as nat;
        let before = expand_links(table, comment, parts, at, prefix, suffix, depth);
        if parts[at as int].kind == LinkPart::Link {
            before + expand_block(
                table,
                comment,
                parts[at as int].slice,
                prefix + text_slices(parts.take(at as int)),
                text_slices(parts.skip(at as int + 1)) + suffix,
                depth,
            )
        } else {
            before
        }
    }
}

/// The lines of the file that the block called `name` describes.
pub open spec fn expansion(table: TableSpec, comment: Option<Seq<char>>, name: Seq<char>) -> Seq<
    Seq<char>,
> {
    expand_block(table, comment, name, Seq::empty(), Seq::empty(), table.names.len())
}

/// The graph of the links between canonical blocks.
pub open spec fn table_graph(table: TableSpec) -> Graph {
    Graph {
        names: table.names,
        links: Seq::new(table.blocks.len(), |i: int| block_links(table.blocks[i].contents)),
    }
}

/// Whether a table can be expanded: every link in it names a block of it,
/// and no chain of links comes back to a block that it has passed.
pub open spec fn expandable(table: TableSpec) -> bool {
    &&& table.wf()
    &&& table_graph(table).closed()
    &&& table_graph(table).acyclic()
}

/// The pattern of a comment format, if there is a format.
pub open spec fn pattern_of(comment_formatter: Option<&CommentFormat>) -> Option<Seq<char>> {
    match comment_formatter {
        Some(format) => Some(format.pattern@),
        None => None,
    }
}

/// Where the next link stands: not before `from`, with nothing but text
/// between.
pub proof fn lemma_next_link(parts: Seq<Part>, from: int)
    requires
        0 <= from <= parts.len(),
    ensures
        from <= next_link(parts, from) <= parts.len(),
        next_link(parts, from) < parts.len() ==> parts[next_link(parts, from)].kind
            == LinkPart::Link,
        forall|i: int|
            from <= i < next_link(parts, from) ==> (#[trigger] parts[i]).kind != LinkPart::Link,
    decreases parts.len() - from,
{
    if from < parts.len() && parts[from].kind != LinkPart::Link {
        lemma_next_link(parts, from + 1);
    }
}

/// Text adds nothing to the expansion of the links of a line.
pub proof fn lemma_expand_links_skip(
    table: TableSpec,
    comment: Option<Seq<char>>,
    parts: Seq<Part>,
    from: nat,
    upto: nat,
    prefix: Seq<Seq<char>>,
    suffix: Seq<Seq<char>>,
    depth: nat,
)
    requires
        from <= upto <= parts.len(),
        forall|i: int| from <= i < upto ==> (#[trigger] parts[i]).kind != LinkPart::Link,
    ensures
        expand_links(table, comment, parts, upto, prefix, suffix, depth) == expand_links(
            table,
            comment,
            parts,
            from,
            prefix,
            suffix,
            depth,
        ),
    decreases upto - from,
{
    if from < upto {
        assert(parts[upto - 1].kind != LinkPart::Link);
        lemma_expand_links_skip(
            table,
            comment,
            parts,
            from,
            (upto - 1) as nat,
            prefix,
            suffix,
            depth,
        );
    }
}

/// The name of every link of a line is among the links of the line.
pub proof fn lemma_link_names_contains(parts: Seq<Part>, at: int)
    requires
        0 <= at < parts.len(),
        parts[at].kind == LinkPart::Link,
    ensures
        link_names(parts).contains(parts[at].slice),
    decreases parts.len(),
{
    let front = link_names(parts.drop_last());
    if at == parts.len() - 1 {
        assert(link_names(parts) == front.push(parts[at].slice));
        assert(link_names(parts)[front.len() as int] == parts[at].slice);
    } else {
        lemma_link_names_contains(parts.drop_last(), at);
        let i = choose|i: int| 0 <= i < front.len() && front[i] == parts[at].slice;
        if parts.last().kind == LinkPart::Link {
            assert(link_names(parts)[i] == front[i]);
        }
    }
}

/// The links of every line of a block are among the links of the block.
pub proof fn lemma_block_links_contains(lines: Seq<Seq<char>>, k: int, link: Seq<char>)
    requires
        0 <= k < lines.len(),
        links_of(lines[k]).contains(link),
    ensures
        block_links(lines).contains(link),
    decreases lines.len(),
{
    let front = block_links(lines.drop_last());
    let back = links_of(lines.last());
    if k == lines.len() - 1 {
        let i = choose|i: int| 0 <= i < back.len() && back[i] == link;
        assert((front + back)[front.len() + i] == link);
    } else {
        lemma_block_links_contains(lines.drop_last(), k, link);
        let i = choose|i: int| 0 <= i < front.len() && front[i] == link;
        assert((front + back)[i] == link);
    }
}

/// Writes one line: the pieces of `prependix`, the line, the pieces of
/// `appendix`.
pub fn print_line(out: &mut Vec<String>, prependix: &Vec<&str>, line: &str, appendix: &Vec<&str>)
    ensures
        string_views(final(out)@) == string_views(old(out)@).push(
            rendered_line(views(prependix@), line@, views(appendix@)),
        ),
{
    let mut text = String::new();
    push_all(&mut text, prependix);
    text.append(line);
    push_all(&mut text, appendix);
    let ghost before = out@;
    proof {
        lemma_string_views_push(before, text);
        assert(text@ =~= rendered_line(views(prependix@), line@, views(appendix@)));
    }
    out.push(text);
}

/// How many of the parts of a line a walk has passed.
pub open spec fn passed(cursor: int, count: nat) -> nat {
    if cursor <= 0 {
        0
    } else if cursor <= count {
        cursor as nat
    } else {
        count
    }
}

/// Expands one line of the block that `path` ends on.
fn print_expanded_line<'a>(
    out: &mut Vec<String>,
    comment_formatter: Option<&CommentFormat>,
    line: &LinkedLine<'a>,
    blocks: &BlockMap<'a>,
    prependix: &Vec<&'a str>,
    appendix: &Vec<&'a str>,
    Ghost(path): Ghost<Seq<Seq<char>>>,
)
    requires
        expandable(blocks@),
        path.len() >= 1,
        table_graph(blocks@).is_path(path),
        path.no_duplicates(),
        forall|x: Seq<char>| #[trigger]
            links_of(line@).contains(x) ==> table_graph(blocks@).edge(path.last(), x),
    ensures
        string_views(final(out)@) == string_views(old(out)@) + expand_line(
            blocks@,
            pattern_of(comment_formatter),
            line@,
            views(prependix@),
            views(appendix@),
            (blocks@.names.len() - path.len()) as nat,
        ),
    decreases blocks@.names.len() - path.len(), 0nat,
{
    let ghost table = blocks@;
    let ghost graph = table_graph(table);
    let ghost comment = pattern_of(comment_formatter);
    let ghost pre = views(prependix@);
    let ghost post = views(appendix@);
    let ghost start = string_views(out@);
    proof {
        lemma_simple_path_is_short(graph, path);
    }
    let ghost depth = (table.names.len() - path.len()) as nat;
    let count = line.part_count();
    let ghost parts = parts_of(line@).unwrap();
    let mut walk = line.split_links();
    let mut printed_link = false;
    let mut done = false;
    proof {
        assert(start + expand_links(table, comment, parts, 0, pre, post, depth) =~= start);
    }
    while !done
        invariant
            expandable(table),
            table == blocks@,
            graph == table_graph(table),
            comment == pattern_of(comment_formatter),
            pre == views(prependix@),
            post == views(appendix@),
            depth == table.names.len() - path.len(),
            path.len() >= 1,
            graph.is_path(path),
            path.no_duplicates(),
            forall|x: Seq<char>| #[trigger]
                links_of(line@).contains(x) ==> graph.edge(path.last(), x),
            parts_of(line@) == Some(parts),
            walk.text() == line@,
            0 <= walk.cursor(),
            !done ==> walk.cursor() <= parts.len(),
            done ==> walk.cursor() >= parts.len(),
            string_views(out@) == start + expand_links(
                table,
                comment,
                parts,
                passed(walk.cursor(), parts.len()),
                pre,
                post,
                depth,
            ),
            printed_link ==> !all_text(parts),
            !printed_link ==> forall|j: int|
                0 <= j < passed(walk.cursor(), parts.len()) ==> (#[trigger] parts[j]).kind
                    != LinkPart::Link,
        decreases
                (if done {
                    0
                } else {
                    parts.len() - walk.cursor() + 1
                }),
    {
        let ghost cursor = walk.cursor();
        let ghost so_far = string_views(out@);
        proof {
            lemma_next_link(parts, cursor);
        }
        match walk.next() {
            Some((pre_link, link, post_link)) => {
                let ghost at = next_link(parts, cursor);
                printed_link = true;
                let mut sub_pre: Vec<&'a str> = Vec::new();
                let mut sub_app: Vec<&'a str> = Vec::new();
                proof {
                    assert(views(sub_pre@) =~= Seq::<Seq<char>>::empty());
                    assert(views(sub_app@) =~= Seq::<Seq<char>>::empty());
                }
                push_slices(&mut sub_pre, prependix);
                push_slices(&mut sub_pre, &pre_link);
                push_slices(&mut sub_app, &post_link);
                push_slices(&mut sub_app, appendix);
                proof {
                    assert(views(sub_pre@) =~= pre + text_slices(parts.take(at)));
                    assert(views(sub_app@) =~= text_slices(parts.skip(at + 1)) + post);
                    assert(parts[at].kind == LinkPart::Link);
                    lemma_link_names_contains(parts, at);
                    assert(links_of(line@).contains(link@));
                    assert(graph.edge(path.last(), link@));
                    lemma_path_push(graph, path, link@);
                    assert(path.push(link@).no_duplicates());
                    lemma_simple_path_is_short(graph, path.push(link@));
                    assert(graph.has(path.push(link@)[path.len() as int]));
                    assert(table.has(link@));
                    lemma_expand_links_skip(
                        table,
                        comment,
                        parts,
                        cursor as nat,
                        at as nat,
                        pre,
                        post,
                        depth,
                    );
                    assert(passed(at + 1, parts.len()) == at + 1);
                    assert(passed(cursor, parts.len()) == cursor);
                }
                let child = blocks.get(link).unwrap();
                print_block(
                    out,
                    comment_formatter,
                    link,
                    child,
                    blocks,
                    &sub_pre,
                    &sub_app,
                    Ghost(path.push(link@)),
                );
                proof {
                    assert(string_views(out@) =~= start + expand_links(
                        table,
                        comment,
                        parts,
                        (at + 1) as nat,
                        pre,
                        post,
                        depth,
                    ));
                    assert(!all_text(parts));
                }
            },
            None => {
                done = true;
                proof {
                    if cursor <= parts.len() {
                        lemma_expand_links_skip(
                            table,
                            comment,
                            parts,
                            cursor as nat,
                            parts.len(),
                            pre,
                            post,
                            depth,
                        );
                    }
                }
            },
        }
    }
    if !printed_link {
        print_line(out, prependix, line.get_text(), appendix);
        proof {
            assert(all_text(parts));
            lemma_expand_links_skip(table, comment, parts, 0, parts.len(), pre, post, depth);
            assert(string_views(out@) =~= start + seq![rendered_line(pre, line@, post)]);
        }
    }
}

/// Expands the block called `name` between `prependix` and `appendix`:
/// first the comment that names it, where one is asked for, then its lines.
/// `path` is the chain of links that led to the block.
fn print_block<'a>(
    out: &mut Vec<String>,
    comment_formatter: Option<&CommentFormat>,
    name: &str,
    block: &CanonicalCodeBlock<'a>,
    blocks: &BlockMap<'a>,
    prependix: &Vec<&'a str>,
    appendix: &Vec<&'a str>,
    Ghost(path): Ghost<Seq<Seq<char>>>,
)
    requires
        expandable(blocks@),
        blocks@.has(name@),
        block@ == blocks@.block(name@),
        path.len() >= 1,
        path.last() == name@,
        table_graph(blocks@).is_path(path),
        path.no_duplicates(),
    ensures
        string_views(final(out)@) == string_views(old(out)@) + expand_block(
            blocks@,
            pattern_of(comment_formatter),
            name@,
            views(prependix@),
            views(appendix@),
            (blocks@.names.len() - path.len() + 1) as nat,
        ),
    decreases blocks@.names.len() - path.len(), 1nat,
{
    let ghost table = blocks@;
    let ghost graph = table_graph(table);
    let ghost comment = pattern_of(comment_formatter);
    let ghost pre = views(prependix@);
    let ghost post = views(appendix@);
    let ghost start = string_views(out@);
    proof {
        lemma_simple_path_is_short(graph, path);
    }
    let ghost depth = (table.names.len() - path.len()) as nat;
    if block.print_header() {
        if let Some(format) = comment_formatter {
            let header = format.format(name);
            print_line(out, prependix, header.as_str(), appendix);
        }
    }
    let ghost head = header_lines(table.block(name@), comment, name@, pre, post);
    proof {
        assert(string_views(out@) =~= start + head);
    }
    let contents = block.contents();
    let ghost lines = line_views(contents@);
    let mut i: usize = 0;
    proof {
        assert(start + head + expand_lines(table, comment, lines.take(0), pre, post, depth)
            =~= start + head);
    }
    while i < contents.len()
        invariant
            i <= contents.len(),
            expandable(table),
            table == blocks@,
            graph == table_graph(table),
            comment == pattern_of(comment_formatter),
            pre == views(prependix@),
            post == views(appendix@),
            depth == table.names.len() - path.len(),
            table.has(name@),
            lines == line_views(contents@),
            lines == table.block(name@).contents,
            path.len() >= 1,
            path.last() == name@,
            graph.is_path(path),
            path.no_duplicates(),
            string_views(out@) == start + head + expand_lines(
                table,
                comment,
                lines.take(i as int),
                pre,
                post,
                depth,
            ),
        decreases contents.len() - i,
    {
        let line = &contents[i];
        let ghost so_far = string_views(out@);
        proof {
            assert(lines[i as int] == line@);
            assert(lines.take(i + 1).drop_last() =~= lines.take(i as int));
            assert(lines.take(i + 1).last() == line@);
            assert forall|x: Seq<char>| #[trigger] links_of(line@).contains(x) implies graph.edge(
                name@,
                x,
            ) by {
                lemma_block_links_contains(lines, i as int, x);
            }
        }
        print_expanded_line(
            out,
            comment_formatter,
            line,
            blocks,
            prependix,
            appendix,
            Ghost(path),
        );
        proof {
            assert(string_views(out@) =~= start + head + expand_lines(
                table,
                comment,
                lines.take(i + 1),
                pre,
                post,
                depth,
            ));
        }
        i += 1;
    }
    proof {
        assert(lines.take(contents.len() as int) =~= lines);
    }
}

/// The lines of the file that the block called `name` describes: the block
/// expanded with nothing in front of its lines and nothing behind them.
pub fn print_file<'a>(
    comment_formatter: Option<&CommentFormat>,
    name: &str,
    file_block: &CanonicalCodeBlock<'a>,
    blocks: &BlockMap<'a>,
) -> (lines: Vec<String>)
    requires
        expandable(blocks@),
        blocks@.has(name@),
        file_block@ == blocks@.block(name@),
    ensures
        string_views(lines@) == expansion(blocks@, pattern_of(comment_formatter), name@),
{
    let mut out: Vec<String> = Vec::new();
    let prependix: Vec<&'a str> = Vec::new();
    let appendix: Vec<&'a str> = Vec::new();
    let ghost path = seq![name@];
    proof {
        assert(string_views(out@) =~= Seq::<Seq<char>>::empty());
        assert(views(prependix@) =~= Seq::<Seq<char>>::empty());
        assert(views(appendix@) =~= Seq::<Seq<char>>::empty());
        assert(table_graph(blocks@).is_path(path));
    }
    print_block(
        &mut out,
        comment_formatter,
        name,
        file_block,
        blocks,
        &prependix,
        &appendix,
        Ghost(path),
    );
    proof {
        assert(Seq::<Seq<char>>::empty() + expansion(
            blocks@,
            pattern_of(comment_formatter),
            name@,
        ) =~= expansion(blocks@, pattern_of(comment_formatter), name@));
    }
    out
}

/// What the command line says of tangling.
pub struct Globals {
    pub compile: bool,
    pub line_numbers: Option<LineNumberFormat>,
    pub out_dir: String,
}

/// What holds for the tangling of one document.
pub struct Settings<'borrow> {
    pub global_settings: &'borrow Globals,
    pub relative_directory: &'borrow str,
    pub line_numbers: Option<&'borrow LineNumberFormat>,
    pub comment_formatter: Option<&'borrow CommentFormat>,
    pub compiler: &'borrow Option<CompilerSettings>,
}

/// What is to be done for one file block.
pub enum TangleAction {
    /// Write these lines to the file of this name.
    Write { name: String, lines: Vec<String> },
    /// Run this command in place of writing the file of this name.
    Compile { name: String, command: String },
}

/// A [`TangleAction`] as the contracts see it.
pub enum TangleStep {
    Write { name: Seq<char>, lines: Seq<Seq<char>> },
    Compile { name: Seq<char>, command: Seq<char> },
}

impl View for TangleAction {
    type V = TangleStep;

    open spec fn view(&self) -> TangleStep {
        match self {
            TangleAction::Write { name, lines } => TangleStep::Write {
                name: name@,
                lines: string_views(lines@),
            },
            TangleAction::Compile { name, command } => TangleStep::Compile {
                name: name@,
                command: command@,
            },
        }
    }
}

/// The actions of a list, as the contracts see them.
pub open spec fn action_views(actions: Seq<TangleAction>) -> Seq<TangleStep> {
    Seq::new(actions.len(), |i: int| actions[i]@)
}

/// Whether a block is written out as a file.
pub open spec fn tangled(block: CanonicalSpec) -> bool {
    block.form == CCBForm::File && block.print_to_tangle
}

/// Whether any of the first `upto` blocks of `table` is written out.
pub open spec fn any_tangled(table: TableSpec, upto: nat) -> bool {
    exists|i: int| 0 <= i < upto && i < table.blocks.len() && tangled(#[trigger] table.blocks[i])
}

/// What is to be done for the first `upto` blocks of `table`, in the order
/// of first definition: one action for each block that is written out. With
/// `command` the command is to be run; without it the file is to be written.
pub open spec fn tangle_steps(
    table: TableSpec,
    comment: Option<Seq<char>>,
    command: Option<Seq<char>>,
    upto: nat,
) -> Seq<TangleStep>
    decreases upto,
{
    if upto == 0 || upto > table.names.len() || upto > table.blocks.len() {
        Seq::empty()
    } else {
        let at = upto - 1;
        let before = tangle_steps(table, comment, command, at as nat);
        if tangled(table.blocks[at]) {
            before.push(
                match command {
                    Some(command) => TangleStep::Compile { name: table.names[at], command },
                    None => TangleStep::Write {
                        name: table.names[at],
                        lines: expansion(table, comment, table.names[at]),
                    },
                },
            )
        } else {
            before
        }
    }
}

/// The command of the compiler, if the document names one.
pub open spec fn command_of(compiler: Option<CompilerSettings>) -> Option<Seq<char>> {
    match compiler {
        Some(settings) => Some(settings.command@),
        None => None,
    }
}

/// The command that compiles the generated files. It is an error to ask for
/// it where the document names no compiler.
pub fn compile_file(compiler_settings: &Option<CompilerSettings>) -> (r: Result<&str, OutputError>)
    ensures
        match r {
            Ok(command) => Some(command@) == command_of(*compiler_settings),
            Err(e) => e is NoCompilerCommand && compiler_settings is None,
        },
{
    match compiler_settings {
        Some(settings) => Ok(settings.command.as_str()),
        None => Err(OutputError::NoCompilerCommand),
    }
}

/// What the way the compiler ended means: exit code 0 is success, any other
/// exit code and any signal is a failure.
pub fn compiler_result(status: ExitStatus) -> (r: Result<(), OutputError>)
    ensures
        match status {
            ExitStatus::Exited(code) => if code == 0 {
                r is Ok
            } else {
                r == Err::<(), OutputError>(OutputError::FailedCommand(code))
            },
            ExitStatus::Signaled(signal) => r == Err::<(), OutputError>(
                OutputError::TerminatedCommand(signal),
            ),
        },
{
    match status {
        ExitStatus::Exited(code) => {
            if code == 0 {
                Ok(())
            } else {
                Err(OutputError::FailedCommand(code))
            }
        },
        ExitStatus::Signaled(signal) => Err(OutputError::TerminatedCommand(signal)),
    }
}

/// What is to be done to tangle a document: for every file block that goes
/// into the generated files, in the order of first definition, either the
/// lines to write or, when compiling, the command to run.
pub fn tangle_blocks<'a>(settings: &Settings<'a>, canonical_code_blocks: &BlockMap) -> (r: Result<
    Vec<TangleAction>,
    OutputError,
>)
    requires
        expandable(canonical_code_blocks@),
    ensures
        match r {
            Ok(actions) => {
                &&& action_views(actions@) == tangle_steps(
                    canonical_code_blocks@,
                    pattern_of(settings.comment_formatter),
                    if settings.global_settings.compile {
                        command_of(*settings.compiler)
                    } else {
                        None
                    },
                    canonical_code_blocks@.names.len(),
                )
                &&& !(settings.global_settings.compile && settings.compiler is None && any_tangled(
                    canonical_code_blocks@,
                    canonical_code_blocks@.names.len(),
                ))
            },
            Err(e) => {
                &&& e is NoCompilerCommand
                &&& settings.global_settings.compile
                &&& settings.compiler is None
                &&& any_tangled(canonical_code_blocks@, canonical_code_blocks@.names.len())
            },
        },
{
    let ghost table = canonical_code_blocks@;
    let ghost comment = pattern_of(settings.comment_formatter);
    let ghost command = if settings.global_settings.compile {
        command_of(*settings.compiler)
    } else {
        None
    };
    let mut actions: Vec<TangleAction> = Vec::new();
    let count = canonical_code_blocks.len();
    let mut i: usize = 0;
    proof {
        assert(action_views(actions@) =~= tangle_steps(table, comment, command, 0));
    }
    while i < count
        invariant
            i <= count,
            count == table.names.len(),
            table == canonical_code_blocks@,
            expandable(table),
            comment == pattern_of(settings.comment_formatter),
            command == if settings.global_settings.compile {
                command_of(*settings.compiler)
            } else {
                None
            },
            action_views(actions@) == tangle_steps(table, comment, command, i as nat),
            !(settings.global_settings.compile && settings.compiler is None && any_tangled(
                table,
                i as nat,
            )),
        decreases count - i,
    {
        let name = canonical_code_blocks.key_at(i);
        let block = canonical_code_blocks.block_at(i);
        let ghost before = actions@;
        if block.is_file() && block.print_to_tangle() {
            proof {
                assert(tangled(table.blocks[i as int]));
            }
            if settings.global_settings.compile {
                match compile_file(settings.compiler) {
                    Ok(run) => {
                        actions.push(
                            TangleAction::Compile { name: name.to_owned(), command: run.to_owned() },
                        );
                    },
                    Err(e) => {
                        proof {
                            assert(any_tangled(table, count as nat));
                        }
                        return Err(e);
                    },
                }
            } else {
                proof {
                    assert(table.names[i as int] == name@);
                    assert(table.names.contains(name@));
                    assert(table.names.index_of(name@) == i);
                }
                let lines = print_file(
                    settings.comment_formatter,
                    name,
                    block,
                    canonical_code_blocks,
                );
                actions.push(TangleAction::Write { name: name.to_owned(), lines });
            }
            proof {
                assert(action_views(actions@) =~= action_views(before).push(
                    actions@[before.len() as int]@,
                ));
            }
        } else {
            proof {
                assert forall|j: int|
                    0 <= j < i + 1 && j < table.blocks.len() implies !tangled(
                    #[trigger] table.blocks[j],
                ) || !(settings.global_settings.compile && settings.compiler is None) by {
                    if j < i {
                        if settings.global_settings.compile && settings.compiler is None {
                            assert(!any_tangled(table, i as nat));
                        }
                    }
                }
            }
        }
        i += 1;
    }
    Ok(actions)
}

} // verus!
