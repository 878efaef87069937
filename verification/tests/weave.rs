use rliterate::link::link_lit_file;
use rliterate::output::canon::canonicalise_code_blocks;
use rliterate::output::css::CssSettings;
use rliterate::output::weave::call_markdown_compiler;
use rliterate::output::weave::compile_markdown;
use rliterate::output::weave::markdown::build_code_block;
use rliterate::output::weave::markdown::build_prose;
use rliterate::output::weave::markdown::build_prose_line;
use rliterate::output::weave::markdown::can_be_printed;
use rliterate::output::weave::markdown::list_can_be_printed;
use rliterate::output::weave::markdown::build_section_header;
use rliterate::output::weave::markdown::build_title;
use rliterate::output::weave::markdown::level_of;
use rliterate::output::weave::markdown::DocEvent;
use rliterate::output::weave::markdown::MarkDown;
use rliterate::output::weave::print_markdown;
use rliterate::output::weave::weave_file_with_blocks;
use rliterate::output::weave::Settings;
use rliterate::output::weave::Type;
use rliterate::output::weave::Woven;
use rliterate::output::ExitStatus;
use rliterate::output::OutputError;
use rliterate::parser::ast::Block;
use rliterate::parser::ast::LitFile;
use rliterate::parser::ast::Section;
use rliterate::parser::ast::SectionName;
use rliterate::parser::read_source;

const TEXT: &str = "@title T\n@code_type c .c\n@s Intro\n--- main.c\nx\n@{y}\n---\n--- y\nz\n---\nhello *world*\n@s \n";

fn document() -> LitFile {
    read_source(TEXT).ok().unwrap().0
}

fn settings(weave_type: Type) -> Settings {
    Settings { weave_type, out_dir: "out".to_string(), css: CssSettings::default() }
}

fn shape(event: &DocEvent) -> String {
    match event {
        DocEvent::StartHeader(level) => format!("<h{}>", level),
        DocEvent::EndHeader(level) => format!("</h{}>", level),
        DocEvent::StartCode(language) => format!("<code {}>", language),
        DocEvent::EndCode(language) => format!("</code {}>", language),
        DocEvent::Text(text) => format!("text({})", text),
        DocEvent::SoftBreak => "break".to_string(),
        DocEvent::Parsed(event) => format!("parsed({:?})", event),
    }
}

fn shapes(events: &[DocEvent]) -> Vec<String> {
    events.iter().map(shape).collect()
}

#[test]
fn title_is_a_heading_of_the_first_level() {
    assert_eq!(shapes(&build_title("My Title")), vec!["<h1>", "text(My Title)", "</h1>"]);
}

#[test]
fn section_heading_follows_the_depth() {
    let s = settings(Type::Markdown);
    assert_eq!(
        shapes(&build_section_header(&s, Some("Intro"), 0)),
        vec!["<h4>", "text(Intro)", "</h4>"]
    );
    assert_eq!(
        shapes(&build_section_header(&s, Some("Deep"), 2)),
        vec!["<h6>", "text(Deep)", "</h6>"]
    );
    assert!(build_section_header(&s, None, 0).is_empty());
    assert_eq!(level_of(0), 4);
    assert_eq!(level_of(203), 207);
    assert_eq!(level_of(204), 207);
    assert_eq!(level_of(usize::MAX), 207);
}

#[test]
fn documentation_shows_the_blocks_as_written() {
    let file = document();
    let linked = link_lit_file(&file).ok().unwrap();
    let table = canonicalise_code_blocks(&linked.sections);
    let s = settings(Type::Markdown);
    let events = MarkDown::build(&s, &linked, &table).into_iter();
    assert_eq!(
        shapes(&events),
        vec![
            "<h1>",
            "text(T)",
            "</h1>",
            "<h4>",
            "text(Intro)",
            "</h4>",
            "<code c>",
            "text(x)",
            "break",
            "text(@{y})",
            "break",
            "</code c>",
            "break",
            "<code c>",
            "text(z)",
            "break",
            "</code c>",
            "break",
            "parsed(Start(Paragraph))",
            "parsed(Text(\"hello \"))",
            "parsed(Start(Emphasis))",
            "parsed(Text(\"world\"))",
            "parsed(End(Emphasis))",
            "parsed(End(Paragraph))",
        ]
    );
}

#[test]
fn blocks_are_built_from_their_lines() {
    let file = document();
    let linked = link_lit_file(&file).ok().unwrap();
    let table = canonicalise_code_blocks(&linked.sections);
    let s = settings(Type::Markdown);
    let lines = linked.sections[1].blocks[1].get_lines();
    assert_eq!(
        shapes(&build_code_block(&s, "main.c", lines, &table, "rust")),
        vec!["<code rust>", "text(x)", "break", "text(@{y})", "break", "</code rust>", "break"]
    );
    assert_eq!(
        shapes(&build_prose(lines)),
        vec![
            "parsed(Start(Paragraph))",
            "parsed(Text(\"x\"))",
            "parsed(End(Paragraph))",
            "parsed(Start(Paragraph))",
            "parsed(Text(\"@{y}\"))",
            "parsed(End(Paragraph))",
        ]
    );
}

#[test]
fn documentation_is_rendered_to_html() {
    let file = document();
    let linked = link_lit_file(&file).ok().unwrap();
    let table = canonicalise_code_blocks(&linked.sections);
    let s = settings(Type::HtmlViaMarkdown(None));
    let html = compile_markdown(MarkDown::build(&s, &linked, &table));
    assert_eq!(
        html,
        "<h1>T</h1>\n<h4>Intro</h4>\n<pre><code class=\"language-c\">x\n@{y}\n</code></pre>\n\n<pre><code class=\"language-c\">z\n</code></pre>\n\n<p>hello <em>world</em></p>\n"
    );
    match weave_file_with_blocks(&s, &linked, &table).ok().unwrap() {
        Woven::Html(body) => assert_eq!(body, html),
        _ => panic!("HTML was expected"),
    }
}

#[test]
fn documentation_is_printed_as_markdown() {
    let file = document();
    let linked = link_lit_file(&file).ok().unwrap();
    let table = canonicalise_code_blocks(&linked.sections);
    let s = settings(Type::Markdown);
    let text = print_markdown(MarkDown::build(&s, &linked, &table)).ok().unwrap();
    assert_eq!(
        text,
        "# T\n\n#### Intro\n\n```c\nx @{y} ``` \n\n```c\nz ``` \n\nhello *world*"
    );
    match weave_file_with_blocks(&s, &linked, &table).ok().unwrap() {
        Woven::Markdown(printed) => assert_eq!(printed, text),
        _ => panic!("markdown was expected"),
    }
}

#[test]
fn markdown_is_handed_to_the_command() {
    let file = document();
    let linked = link_lit_file(&file).ok().unwrap();
    let table = canonicalise_code_blocks(&linked.sections);
    let s = settings(Type::HtmlViaMarkdown(Some("pandoc".to_string())));
    match weave_file_with_blocks(&s, &linked, &table).ok().unwrap() {
        Woven::ToCompile { command, markdown } => {
            assert_eq!(command, "pandoc");
            assert!(markdown.starts_with("# T\n\n#### Intro"));
        }
        _ => panic!("a command was expected"),
    }
}

#[test]
fn exit_status_of_the_markdown_compiler_decides() {
    assert_eq!(
        call_markdown_compiler(ExitStatus::Exited(0), "<p>x</p>".to_string()).ok().unwrap(),
        "<p>x</p>"
    );
    assert!(matches!(
        call_markdown_compiler(ExitStatus::Exited(3), String::new()),
        Err(OutputError::FailedCommand(3))
    ));
    assert!(matches!(
        call_markdown_compiler(ExitStatus::Signaled(15), String::new()),
        Err(OutputError::TerminatedCommand(15))
    ));
}

fn with_prose(line: &str) -> LitFile {
    let mut file = read_source("@title T\n@code_type c .c\n").ok().unwrap().0;
    file.sections = vec![Section {
        id: 0,
        depth: 0,
        name: SectionName::Implicit,
        blocks: vec![Block::Prose { lines: vec![line.to_string()] }],
    }];
    file
}

#[test]
fn numbered_list_in_prose_is_printed() {
    let file = with_prose("5. x");
    let linked = link_lit_file(&file).ok().unwrap();
    let table = canonicalise_code_blocks(&linked.sections);
    let s = settings(Type::Markdown);
    let events = MarkDown::build(&s, &linked, &table).into_iter();
    assert!(can_be_printed(&events));
    let text = print_markdown(MarkDown::build(&s, &linked, &table)).ok().unwrap();
    assert_eq!(text, "# T\n\n5. x");
}

#[test]
fn list_that_starts_too_high_is_not_printed() {
    let line = format!("{}. x", usize::MAX);
    let file = with_prose(&line);
    let linked = link_lit_file(&file).ok().unwrap();
    let table = canonicalise_code_blocks(&linked.sections);
    let events = MarkDown::build(&settings(Type::Markdown), &linked, &table).into_iter();
    assert!(!can_be_printed(&events));
    assert!(matches!(
        print_markdown(MarkDown::build(&settings(Type::Markdown), &linked, &table)),
        Err(OutputError::UnprintableMarkdown)
    ));
    assert!(matches!(
        weave_file_with_blocks(&settings(Type::Markdown), &linked, &table),
        Err(OutputError::UnprintableMarkdown)
    ));
    assert!(matches!(
        weave_file_with_blocks(
            &settings(Type::HtmlViaMarkdown(Some("pandoc".to_string()))),
            &linked,
            &table
        ),
        Err(OutputError::UnprintableMarkdown)
    ));
    match weave_file_with_blocks(&settings(Type::HtmlViaMarkdown(None)), &linked, &table) {
        Ok(Woven::Html(body)) => {
            assert!(body.contains(&format!("<ol start=\"{}\">", usize::MAX)))
        }
        _ => panic!("HTML was expected"),
    }
}

#[test]
fn room_for_a_list_follows_its_start_and_the_length_of_the_run() {
    assert!(list_can_be_printed(1, 1));
    assert!(list_can_be_printed(1_000_000, 100));
    assert!(!list_can_be_printed(5, 0));
    assert!(!list_can_be_printed(usize::MAX, 1));
    assert!(!list_can_be_printed(usize::MAX - 3, 4));
    assert!(!list_can_be_printed(10, usize::MAX / 2));
    assert!(can_be_printed(&vec![]));
    assert!(can_be_printed(&build_title("T")));
}

#[test]
fn prose_with_line_feeds_is_read_line_by_line() {
    let joined = shapes(&build_prose_line("a\nb"));
    assert_eq!(
        joined,
        vec![
            "parsed(Start(Paragraph))",
            "parsed(Text(\"a\"))",
            "parsed(End(Paragraph))",
            "parsed(Start(Paragraph))",
            "parsed(Text(\"b\"))",
            "parsed(End(Paragraph))",
        ]
    );
    assert!(build_prose_line("").is_empty());
    assert_eq!(shapes(&build_prose_line("# h")).len(), 3);
}
