use rliterate::parser::grammar::lit_file;
use rliterate::parser::grammar::lit_line;
use rliterate::parser::grammar::parse_lines;
use rliterate::parser::grammar::partial_line;
use rliterate::parser::grammar::partial_lines;
use rliterate::parser::grammar::split_lines;
use rliterate::parser::grammar::BlockModifier;
use rliterate::parser::grammar::Command;
use rliterate::parser::grammar::LitBlock;
use rliterate::parser::grammar::LitLine;
use rliterate::parser::grammar::PartialLitLine;
use rliterate::parser::grammar::APPEND;
use rliterate::parser::grammar::NOHEADER;
use rliterate::parser::grammar::NOTANGLE;
use rliterate::parser::grammar::NOWEAVE;
use rliterate::parser::grammar::REDEF;
use rliterate::parser::ParseError;

fn command(line: &str) -> Command<'_> {
    match lit_line(line) {
        Some(LitLine::Command(command)) => command,
        _ => panic!("no command: {}", line),
    }
}

fn prose(line: &str) -> &str {
    match lit_line(line) {
        Some(LitLine::Prose(text)) => text,
        _ => panic!("no prose: {}", line),
    }
}

fn start(line: &str) -> (&str, u32) {
    match partial_line(line) {
        Some(PartialLitLine::CodeBlockStart(name, modifiers)) => (name, modifiers.bits),
        _ => panic!("no block header: {}", line),
    }
}

#[test]
fn title_command_takes_a_name() {
    assert!(matches!(command("@title My Title"), Command::Title("My Title")));
    assert!(matches!(command("@title   Spaced   out  "), Command::Title("Spaced   out")));
    assert!(matches!(command("@title A // B"), Command::Title("A // B")));
}

#[test]
fn section_command_counts_its_depth() {
    assert!(matches!(command("@s Intro"), Command::Section { name: Some("Intro"), depth: 0 }));
    assert!(matches!(
        command("@sss Deep down"),
        Command::Section { name: Some("Deep down"), depth: 2 }
    ));
    assert!(matches!(command("@s "), Command::Section { name: None, depth: 0 }));
    assert!(matches!(command("@ss \t"), Command::Section { name: None, depth: 1 }));
    assert!(lit_line("@s").is_none());
    assert!(lit_line("@section x").is_none());
}

#[test]
fn code_type_command_takes_language_and_extension() {
    assert!(matches!(
        command("@code_type c .c"),
        Command::CodeType { code_type: "c", file_extension: ".c" }
    ));
    assert!(matches!(
        command("@code_type rust.rs"),
        Command::CodeType { code_type: "rust", file_extension: ".rs" }
    ));
    assert!(lit_line("@code_type c").is_none());
    assert!(lit_line("@code_type c .").is_none());
    assert!(lit_line("@code_type .c").is_none());
}

#[test]
fn rest_of_line_commands_take_the_rest_of_the_line() {
    assert!(matches!(command("@comment_type // %s"), Command::CommentType("// %s")));
    assert!(matches!(command("@line_numbers #line %l"), Command::LineNumbers("#line %l")));
    assert!(matches!(command("@compiler cc -c x.c"), Command::Compiler("cc -c x.c")));
    assert!(matches!(command("@error_format %f:%l"), Command::ErrorFormat("%f:%l")));
    assert!(matches!(command("@add_css style.css"), Command::AddCss("style.css")));
    assert!(matches!(command("@overwrite_css new.css"), Command::OverwriteCss("new.css")));
    assert!(matches!(command("@colorscheme dark.css"), Command::Colorscheme("dark.css")));
    assert!(lit_line("@compiler ").is_none());
    assert!(lit_line("@compiler").is_none());
}

#[test]
fn book_command_needs_a_blank() {
    assert!(matches!(command("@book "), Command::Book));
    assert!(matches!(command("@book  // a book"), Command::Book));
    assert!(lit_line("@book").is_none());
}

#[test]
fn unknown_command_is_refused() {
    assert!(lit_line("@unknown x").is_none());
    assert!(lit_line("@").is_none());
    assert!(lit_line("@title").is_none());
    assert!(lit_line("@title ---").is_none());
}

#[test]
fn command_must_fill_the_line() {
    assert!(lit_line("@title Foo --- bar").is_none());
    assert!(matches!(command("@title Foo"), Command::Title("Foo")));
}

#[test]
fn prose_ends_at_a_comment() {
    assert_eq!(prose("hello world"), "hello world");
    assert_eq!(prose("hello // comment"), "hello ");
    assert_eq!(prose("// only a comment"), "");
    assert_eq!(prose(""), "");
    assert_eq!(prose("mail@host"), "mail@host");
}

#[test]
fn chapter_link_is_read_as_prose() {
    assert_eq!(prose("[Intro ](intro.lit)"), "[Intro ](intro.lit)");
    assert_eq!(prose("[Intro](intro.lit)"), "[Intro](intro.lit)");
}

#[test]
fn line_with_a_line_break_is_refused() {
    assert!(lit_line("a\nb").is_none());
    assert!(partial_line("a\nb").is_none());
    assert!(partial_line("\n").is_none());
}

#[test]
fn block_header_takes_a_name() {
    assert_eq!(start("--- file.c"), ("file.c", 0));
    assert_eq!(start("---file.c"), ("file.c", 0));
    assert_eq!(start("--- a block of code  "), ("a block of code", 0));
    assert_eq!(start("--- name // comment"), ("name // comment", 0));
}

#[test]
fn block_header_takes_modifiers() {
    assert_eq!(start("--- body +="), ("body", APPEND));
    assert_eq!(start("--- body -="), ("body", REDEF));
    assert_eq!(start("--- body+="), ("body", APPEND));
    assert_eq!(start("--- a b --- noTangle noWeave"), ("a b", NOTANGLE | NOWEAVE));
    assert_eq!(start("--- x --- noHeader"), ("x", NOHEADER));
    assert_eq!(start("--- x --- += noHeader -="), ("x", APPEND | NOHEADER | REDEF));
    assert_eq!(start("--- x -= // again"), ("x", REDEF));
    assert_eq!(start("--- x ---noTangle"), ("x", NOTANGLE));
}

#[test]
fn block_header_must_fill_the_line() {
    assert!(partial_line("--- x --- bogus").is_none());
    assert!(partial_line("--- x += more").is_none());
    assert!(partial_line("--- x --- noTangle, noWeave").is_none());
}

#[test]
fn three_dashes_alone_end_a_block() {
    assert!(matches!(partial_line("---"), Some(PartialLitLine::CodeBlockEnd)));
    assert!(matches!(partial_line("---   "), Some(PartialLitLine::CodeBlockEnd)));
    assert!(matches!(partial_line("--- \t"), Some(PartialLitLine::CodeBlockEnd)));
}

#[test]
fn other_lines_are_plain() {
    assert!(matches!(partial_line("int x = 0;"), Some(PartialLitLine::Line("int x = 0;"))));
    assert!(matches!(partial_line(""), Some(PartialLitLine::Line(""))));
    assert!(matches!(partial_line("@title T"), Some(PartialLitLine::Line("@title T"))));
    assert!(matches!(partial_line(" --- x"), Some(PartialLitLine::Line(" --- x"))));
}

#[test]
fn lines_are_split_at_line_feeds() {
    assert_eq!(split_lines("a\r\nb\n\nc"), vec!["a", "b", "", "c"]);
    assert_eq!(split_lines("a\n"), vec!["a"]);
    assert_eq!(split_lines("\n"), vec![""]);
    assert_eq!(split_lines("a\r"), vec!["a\r"]);
    assert_eq!(split_lines("\r\n\r\n"), vec!["", ""]);
    assert!(split_lines("").is_empty());
    let text = "one\ntwo\r\nthree\n\nlast";
    assert_eq!(split_lines(text), text.lines().collect::<Vec<_>>());
}

#[test]
fn document_is_gathered_into_units() {
    let text = "@title T\n@code_type c .c\n\nprose\n--- f.c +=\nint x;\n\n---\nmore";
    let blocks = lit_file(text).ok().unwrap();
    assert_eq!(blocks.len(), 6);
    assert!(matches!(&blocks[0], LitBlock::Prose(lines) if lines.is_empty()));
    assert!(matches!(&blocks[1], LitBlock::Command(Command::Title("T"))));
    assert!(matches!(&blocks[2], LitBlock::Prose(lines) if lines.is_empty()));
    assert!(matches!(
        &blocks[3],
        LitBlock::Command(Command::CodeType { code_type: "c", file_extension: ".c" })
    ));
    assert!(matches!(&blocks[4], LitBlock::Prose(lines) if lines == &vec!["", "prose"]));
    match &blocks[5] {
        LitBlock::Code(code) => {
            assert_eq!(code.block_name, "f.c");
            assert_eq!(code.modifiers, BlockModifier::from_bits(APPEND));
            assert_eq!(code.contents, vec!["int x;", ""]);
        }
        _ => panic!("a block of code was expected"),
    }
}

#[test]
fn commands_inside_a_block_are_code() {
    let blocks = lit_file("--- a\n@title T\n// c\n---").ok().unwrap();
    assert_eq!(blocks.len(), 2);
    match &blocks[1] {
        LitBlock::Code(code) => assert_eq!(code.contents, vec!["@title T", "// c"]),
        _ => panic!("a block of code was expected"),
    }
}

#[test]
fn open_block_at_the_end_is_kept() {
    let blocks = lit_file("--- a\nx").ok().unwrap();
    assert_eq!(blocks.len(), 2);
    assert!(matches!(&blocks[1], LitBlock::Code(code) if code.contents == vec!["x"]));
}

#[test]
fn prose_at_the_end_is_not_kept() {
    let blocks = lit_file("@book \nlast words").ok().unwrap();
    assert_eq!(blocks.len(), 2);
    assert!(matches!(&blocks[1], LitBlock::Command(Command::Book)));
    assert!(lit_file("only prose").ok().unwrap().is_empty());
}

#[test]
fn bad_line_is_reported_by_its_number() {
    assert!(matches!(lit_file("ok\n@bad"), Err(ParseError::GrammarError(2))));
    assert!(matches!(lit_file("ok\n--- x --- y\n@bad"), Err(ParseError::GrammarError(2))));
    assert!(matches!(lit_file("@bad\n--- x --- y"), Err(ParseError::GrammarError(2))));
    assert!(matches!(partial_lines("a\n--- x += y\n"), Err(ParseError::GrammarError(2))));
    assert_eq!(start("--- x +"), ("x +", 0));
    assert_eq!(partial_lines("a\nb").ok().unwrap().len(), 2);
}

#[test]
fn misplaced_block_delimiters_are_refused() {
    assert!(matches!(lit_file("--- a\n--- b"), Err(ParseError::FormatError)));
    assert!(matches!(lit_file("---"), Err(ParseError::FormatError)));
    assert!(matches!(lit_file("--- a\n---\n---"), Err(ParseError::FormatError)));
    assert!(matches!(
        parse_lines(vec![PartialLitLine::CodeBlockEnd]),
        Err(ParseError::FormatError)
    ));
}
