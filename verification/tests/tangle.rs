use rliterate::link::link_lit_file;
use rliterate::output::canon::canonicalise_code_blocks;
use rliterate::output::tangle::compile_file;
use rliterate::output::tangle::compiler_result;
use rliterate::output::tangle::print_file;
use rliterate::output::tangle::print_line;
use rliterate::output::tangle::tangle_blocks;
use rliterate::output::tangle::Globals;
use rliterate::output::tangle::Settings;
use rliterate::output::tangle::TangleAction;
use rliterate::output::ExitStatus;
use rliterate::output::OutputError;
use rliterate::parser::ast::Block;
use rliterate::parser::ast::BookStatus;
use rliterate::parser::ast::CompilerSettings;
use rliterate::parser::ast::LitFile;
use rliterate::parser::ast::Metadata;
use rliterate::parser::ast::Section;
use rliterate::parser::ast::SectionName;
use rliterate::parser::format::generate_comment_type;
use rliterate::parser::format::generate_error_format;
use rliterate::parser::grammar::BlockModifier;
use rliterate::parser::grammar::NOHEADER;
use rliterate::parser::grammar::NOTANGLE;

fn block(name: &str, bits: u32, lines: &[&str]) -> Block {
    Block::Code {
        name: name.to_string(),
        modifiers: BlockModifier::from_bits(bits),
        lines: lines.iter().map(|line| line.to_string()).collect(),
    }
}

fn file_of(blocks: Vec<Block>) -> LitFile {
    LitFile {
        metadata: Metadata {
            relative_directory: String::new(),
            title: "Test".to_string(),
            code_type: "c".to_string(),
            file_extension: ".c".to_string(),
            comment_type: None,
            line_number_format: None,
            compiler: None,
            book_status: BookStatus::NotBook,
        },
        sections: vec![Section { id: 0, depth: 0, name: SectionName::Implicit, blocks }],
    }
}

fn expand(file: &LitFile, name: &str, comment: Option<&str>) -> Vec<String> {
    let linked = link_lit_file(file).ok().unwrap();
    let table = canonicalise_code_blocks(&linked.sections);
    let format = comment.map(generate_comment_type);
    print_file(format.as_ref(), name, table.get(name).unwrap(), &table)
}

#[test]
fn prefix_is_put_before_every_line_of_a_linked_block() {
    let file = file_of(vec![
        block("file.c", NOHEADER, &["    @{body}"]),
        block("body", NOHEADER, &["x++;", "y++;"]),
    ]);
    assert_eq!(expand(&file, "file.c", None), vec!["    x++;", "    y++;"]);
}

#[test]
fn only_the_linking_line_is_affected() {
    let file = file_of(vec![
        block("file.c", 0, &["{", "    @{body}", "}"]),
        block("body", 0, &["x++;", "y++;"]),
    ]);
    assert_eq!(expand(&file, "file.c", None), vec!["{", "    x++;", "    y++;", "}"]);
}

#[test]
fn suffix_is_put_behind_every_line() {
    let file = file_of(vec![
        block("file.c", 0, &["f(@{args});"]),
        block("args", 0, &["a,", "b"]),
    ]);
    assert_eq!(expand(&file, "file.c", None), vec!["f(a,);", "f(b);"]);
}

#[test]
fn context_is_handed_down_through_nested_links() {
    let file = file_of(vec![
        block("file.c", 0, &["  @{outer} // o"]),
        block("outer", 0, &["<@{inner}>"]),
        block("inner", 0, &["1", "2"]),
    ]);
    assert_eq!(expand(&file, "file.c", None), vec!["  <1> // o", "  <2> // o"]);
}

#[test]
fn each_link_of_a_line_is_expanded_by_itself() {
    let file = file_of(vec![
        block("file.c", 0, &["a @{x} b @{y} c"]),
        block("x", 0, &["X1", "X2"]),
        block("y", 0, &["Y"]),
    ]);
    assert_eq!(expand(&file, "file.c", None), vec!["a X1 b  c", "a X2 b  c", "a  b Y c"]);
}

#[test]
fn header_is_written_above_each_block_that_asks_for_it() {
    let file = file_of(vec![
        block("file.c", 0, &["  @{body}"]),
        block("body", 0, &["x"]),
        block("quiet", NOHEADER, &["y"]),
    ]);
    assert_eq!(
        expand(&file, "file.c", Some("// %s")),
        vec!["// file.c", "  // body", "  x"]
    );
    assert_eq!(expand(&file, "quiet", Some("/* %s */")), vec!["y"]);
    assert_eq!(expand(&file, "body", Some("/* %s */")), vec!["/* body */", "x"]);
}

#[test]
fn no_header_without_a_comment_format() {
    let file = file_of(vec![block("file.c", 0, &["x"])]);
    assert_eq!(expand(&file, "file.c", None), vec!["x"]);
}

#[test]
fn empty_block_expands_to_nothing() {
    let file = file_of(vec![block("file.c", 0, &["a", "@{empty}", "b"]), block("empty", 0, &[])]);
    assert_eq!(expand(&file, "file.c", None), vec!["a", "b"]);
}

#[test]
fn shared_block_is_expanded_at_every_link() {
    let file = file_of(vec![
        block("file.c", 0, &["1 @{s}", "2 @{s}"]),
        block("s", 0, &["x"]),
    ]);
    assert_eq!(expand(&file, "file.c", None), vec!["1 x", "2 x"]);
}

#[test]
fn print_line_joins_the_pieces() {
    let mut out = vec!["first".to_string()];
    print_line(&mut out, &vec!["a", "b"], "-", &vec!["c", "d"]);
    print_line(&mut out, &vec![], "", &vec![]);
    assert_eq!(out, vec!["first", "ab-cd", ""]);
}

#[test]
fn file_blocks_are_written_in_order_of_definition() {
    let file = file_of(vec![
        block("b.c", 0, &["@{part}"]),
        block("part", 0, &["p"]),
        block("a.c", 0, &["q"]),
        block("c.c", NOTANGLE, &["r"]),
    ]);
    let linked = link_lit_file(&file).ok().unwrap();
    let table = canonicalise_code_blocks(&linked.sections);
    let globals = Globals { compile: false, line_numbers: None, out_dir: "out".to_string() };
    let settings = Settings {
        global_settings: &globals,
        relative_directory: "",
        line_numbers: None,
        comment_formatter: None,
        compiler: &None,
    };
    let actions = tangle_blocks(&settings, &table).ok().unwrap();
    assert_eq!(actions.len(), 2);
    match &actions[0] {
        TangleAction::Write { name, lines } => {
            assert_eq!(name, "b.c");
            assert_eq!(lines, &vec!["p"]);
        }
        _ => panic!("a file was to be written"),
    }
    match &actions[1] {
        TangleAction::Write { name, lines } => {
            assert_eq!(name, "a.c");
            assert_eq!(lines, &vec!["q"]);
        }
        _ => panic!("a file was to be written"),
    }
}

#[test]
fn compiling_runs_the_command_for_each_file() {
    let file = file_of(vec![block("a.c", 0, &["q"]), block("b", 0, &["r"])]);
    let linked = link_lit_file(&file).ok().unwrap();
    let table = canonicalise_code_blocks(&linked.sections);
    let globals = Globals { compile: true, line_numbers: None, out_dir: "out".to_string() };
    let compiler = Some(CompilerSettings {
        command: "cc -c a.c".to_string(),
        formatter: generate_error_format("%f:%l"),
    });
    let settings = Settings {
        global_settings: &globals,
        relative_directory: "",
        line_numbers: None,
        comment_formatter: None,
        compiler: &compiler,
    };
    let actions = tangle_blocks(&settings, &table).ok().unwrap();
    assert_eq!(actions.len(), 1);
    match &actions[0] {
        TangleAction::Compile { name, command } => {
            assert_eq!(name, "a.c");
            assert_eq!(command, "cc -c a.c");
        }
        _ => panic!("the compiler was to be run"),
    }
}

#[test]
fn compiling_without_a_compiler_fails() {
    let file = file_of(vec![block("a.c", 0, &["q"])]);
    let linked = link_lit_file(&file).ok().unwrap();
    let table = canonicalise_code_blocks(&linked.sections);
    let globals = Globals { compile: true, line_numbers: None, out_dir: "out".to_string() };
    let settings = Settings {
        global_settings: &globals,
        relative_directory: "",
        line_numbers: None,
        comment_formatter: None,
        compiler: &None,
    };
    assert!(matches!(tangle_blocks(&settings, &table), Err(OutputError::NoCompilerCommand)));
    assert!(matches!(compile_file(&None), Err(OutputError::NoCompilerCommand)));
}

#[test]
fn compiling_without_files_needs_no_compiler() {
    let file = file_of(vec![block("a", 0, &["q"])]);
    let linked = link_lit_file(&file).ok().unwrap();
    let table = canonicalise_code_blocks(&linked.sections);
    let globals = Globals { compile: true, line_numbers: None, out_dir: "out".to_string() };
    let settings = Settings {
        global_settings: &globals,
        relative_directory: "",
        line_numbers: None,
        comment_formatter: None,
        compiler: &None,
    };
    assert!(tangle_blocks(&settings, &table).ok().unwrap().is_empty());
}

#[test]
fn exit_status_of_the_compiler_decides() {
    assert!(compiler_result(ExitStatus::Exited(0)).is_ok());
    assert!(matches!(compiler_result(ExitStatus::Exited(2)), Err(OutputError::FailedCommand(2))));
    assert!(matches!(
        compiler_result(ExitStatus::Signaled(9)),
        Err(OutputError::TerminatedCommand(9))
    ));
}
