use rliterate::input::InputSettings;
use rliterate::output::css::CssSettings;
use rliterate::output::css::CustomCss;
use rliterate::parser::ast::Block;
use rliterate::parser::ast::BookStatus;
use rliterate::parser::ast::Draft;
use rliterate::parser::ast::LitFile;
use rliterate::parser::ast::SectionName;
use rliterate::parser::format::decimal_chars;
use rliterate::parser::format::generate_comment_type;
use rliterate::parser::format::generate_error_format;
use rliterate::parser::format::generate_line_number_format;
use rliterate::parser::format::substitute;
use rliterate::parser::format::try_guess_error_format;
use rliterate::parser::grammar::lit_file;
use rliterate::parser::grammar::BlockModifier;
use rliterate::parser::grammar::CodeBlock;
use rliterate::parser::grammar::Command;
use rliterate::parser::grammar::LitBlock;
use rliterate::parser::grammar::REDEF;
use rliterate::parser::read_source;
use rliterate::parser::FileMap;
use rliterate::parser::ParseError;
use rliterate::parser::ParseState;
use rliterate::parser::SourceFile;

const HEAD: &str = "@title Test\n@code_type c .c\n";

fn parse(text: &str) -> Result<LitFile, ParseError> {
    read_source(text).map(|(file, _, _)| file)
}

#[test]
fn document_needs_a_title() {
    assert!(matches!(parse("@code_type c .c\n"), Err(ParseError::MissingCommand("title"))));
    assert!(matches!(parse(""), Err(ParseError::MissingCommand("title"))));
}

#[test]
fn document_needs_a_code_type() {
    assert!(matches!(
        parse("@title T\n"),
        Err(ParseError::MissingCommand("code_type_and_file_extension"))
    ));
}

#[test]
fn commands_may_stand_once() {
    assert!(matches!(parse("@title A\n@title B\n"), Err(ParseError::DuplicateCommand)));
    assert!(matches!(
        parse("@code_type c .c\n@code_type d .d\n"),
        Err(ParseError::DuplicateCommand)
    ));
    assert!(matches!(
        parse("@comment_type # %s\n@comment_type // %s\n"),
        Err(ParseError::DuplicateCommand)
    ));
    assert!(matches!(parse("@compiler a\n@compiler b\n"), Err(ParseError::DuplicateCommand)));
    assert!(matches!(
        parse("@error_format a\n@error_format b\n"),
        Err(ParseError::DuplicateCommand)
    ));
    assert!(matches!(
        parse("@line_numbers a\n@line_numbers b\n"),
        Err(ParseError::DuplicateCommand)
    ));
    assert!(matches!(
        parse("@colorscheme a\n@colorscheme b\n"),
        Err(ParseError::DuplicateCommand)
    ));
}

#[test]
fn one_style_sheet_command_may_stand() {
    assert!(matches!(parse("@add_css a\n@add_css b\n"), Err(ParseError::DuplicateCssCommand)));
    assert!(matches!(
        parse("@add_css a\n@overwrite_css b\n"),
        Err(ParseError::DuplicateCssCommand)
    ));
    assert!(matches!(
        parse("@overwrite_css a\n@add_css b\n"),
        Err(ParseError::DuplicateCssCommand)
    ));
}

#[test]
fn duplicate_is_reported_before_missing() {
    assert!(matches!(parse("@book \n@compiler a\n@compiler b\n"), Err(ParseError::DuplicateCommand)));
}

#[test]
fn book_may_stand_twice() {
    let file = parse("@title T\n@code_type c .c\n@book \n@book \n").ok().unwrap();
    assert!(matches!(file.metadata.book_status, BookStatus::IsBook(ref files) if files.is_empty()));
}

#[test]
fn metadata_is_taken_from_the_commands() {
    let text = "@title My Title\n@code_type rust .rs\n@comment_type // %s\n@line_numbers #%l\n";
    let (file, css, chapters) = read_source(text).ok().unwrap();
    assert_eq!(file.metadata.title, "My Title");
    assert_eq!(file.metadata.code_type, "rust");
    assert_eq!(file.metadata.file_extension, ".rs");
    assert_eq!(file.metadata.relative_directory, "");
    assert_eq!(file.metadata.comment_type.as_ref().unwrap().pattern, "// %s");
    assert_eq!(file.metadata.line_number_format.as_ref().unwrap().pattern, "#%l");
    assert!(file.metadata.compiler.is_none());
    assert!(matches!(file.metadata.book_status, BookStatus::NotBook));
    assert!(css.is_default());
    assert!(chapters.is_empty());
}

#[test]
fn compiler_is_kept_with_an_error_format_only() {
    let alone = parse("@title T\n@code_type c .c\n@compiler cc x.c\n").ok().unwrap();
    assert!(alone.metadata.compiler.is_none());
    let both = parse("@title T\n@code_type c .c\n@compiler cc x.c\n@error_format %f:%l\n")
        .ok()
        .unwrap();
    let compiler = both.metadata.compiler.unwrap();
    assert_eq!(compiler.command, "cc x.c");
    assert_eq!(compiler.formatter.pattern, "%f:%l");
    let format_alone = parse("@title T\n@code_type c .c\n@error_format %f\n").ok().unwrap();
    assert!(format_alone.metadata.compiler.is_none());
    assert!(try_guess_error_format(&"cc".to_string()).is_none());
    assert_eq!(generate_error_format("%f").pattern, "%f");
}

#[test]
fn style_sheets_stand_beside_the_document() {
    let (_, css, _) = read_source("@title T\n@code_type c .c\n@add_css a.css\n").ok().unwrap();
    assert!(matches!(css.custom_css, CustomCss::Add(ref file) if file == "a.css"));
    assert!(css.custom_colorscheme.is_none());
    assert!(!css.is_default());
    let (_, css, _) =
        read_source("@title T\n@code_type c .c\n@overwrite_css b.css\n@colorscheme c.css\n")
            .ok()
            .unwrap();
    assert!(matches!(css.custom_css, CustomCss::Overwrite(ref file) if file == "b.css"));
    assert_eq!(css.custom_colorscheme.as_deref(), Some("c.css"));
    let (_, css, _) = read_source("@title T\n@code_type c .c\n@colorscheme c.css\n").ok().unwrap();
    assert!(!css.is_default());
}

#[test]
fn sections_are_numbered_from_zero() {
    let text = format!("{}before\n@s One\n--- a\nx\n---\n@ss \n@s Three\n", HEAD);
    let file = parse(&text).ok().unwrap();
    assert_eq!(file.sections.len(), 4);
    let ids: Vec<usize> = file.sections.iter().map(|section| section.id).collect();
    assert_eq!(ids, vec![0, 1, 2, 3]);
    let depths: Vec<usize> = file.sections.iter().map(|section| section.depth).collect();
    assert_eq!(depths, vec![0, 0, 1, 0]);
    assert!(matches!(file.sections[0].name, SectionName::Implicit));
    assert!(matches!(file.sections[1].name, SectionName::Declared(ref name) if name == "One"));
    assert!(matches!(file.sections[2].name, SectionName::Unnamed));
    assert!(matches!(file.sections[3].name, SectionName::Declared(ref name) if name == "Three"));
    assert_eq!(file.sections[0].name.as_str(), None);
    assert_eq!(file.sections[1].name.as_str(), Some("One"));
    assert_eq!(file.sections[2].name.as_str(), None);
}

#[test]
fn blocks_join_the_section_they_stand_in() {
    let text = format!("{}before\n@s One\nprose\n--- a -=\nx\ny\n---\n", HEAD);
    let file = parse(&text).ok().unwrap();
    assert_eq!(file.sections[0].blocks.len(), 3);
    assert!(matches!(&file.sections[0].blocks[2], Block::Prose { lines } if lines == &vec!["before"]));
    assert_eq!(file.sections[1].blocks.len(), 2);
    assert!(matches!(&file.sections[1].blocks[0], Block::Prose { lines } if lines == &vec!["prose"]));
    match &file.sections[1].blocks[1] {
        Block::Code { name, modifiers, lines } => {
            assert_eq!(name, "a");
            assert_eq!(*modifiers, BlockModifier::from_bits(REDEF));
            assert_eq!(lines, &vec!["x", "y"]);
        }
        _ => panic!("a block of code was expected"),
    }
}

#[test]
fn chapters_make_a_book() {
    let blocks = vec![
        LitBlock::Command(Command::Title("T")),
        LitBlock::Command(Command::CodeType { code_type: "c", file_extension: ".c" }),
        LitBlock::Chapter { title: "One", file_name: "one.lit" },
        LitBlock::Chapter { title: "Two", file_name: "two.lit" },
    ];
    let (file, _, chapters) = LitFile::parse(blocks).ok().unwrap();
    assert!(matches!(
        file.metadata.book_status,
        BookStatus::IsBook(ref files) if files == &vec!["one.lit", "two.lit"]
    ));
    assert_eq!(chapters.len(), 2);
    assert_eq!(chapters[0].title, "One");
    assert_eq!(chapters[1].file_name, "two.lit");
}

#[test]
fn units_are_taken_in_one_by_one() {
    let mut draft = Draft::new();
    assert!(draft.apply(LitBlock::Command(Command::Title("A"))).is_ok());
    assert!(matches!(
        draft.apply_command(Command::Title("B")),
        Err(ParseError::DuplicateCommand)
    ));
    assert!(draft.apply(LitBlock::Prose(vec!["p"])).is_ok());
    assert!(draft.apply_command(Command::Section { name: Some("S"), depth: 3 }).is_ok());
    let code = CodeBlock { block_name: "c", modifiers: BlockModifier::empty(), contents: vec!["x"] };
    assert!(draft.apply(LitBlock::Code(code)).is_ok());
    assert_eq!(draft.title.as_deref(), Some("A"));
    assert_eq!(draft.sections.len(), 1);
    assert_eq!(draft.sections[0].blocks.len(), 1);
    assert_eq!(draft.current_section.id, 1);
    assert_eq!(draft.current_section.depth, 3);
    assert_eq!(draft.current_section.blocks.len(), 1);
    assert!(matches!(
        draft.finish(),
        Err(ParseError::MissingCommand("code_type_and_file_extension"))
    ));
}

#[test]
fn blocks_are_copied_from_the_units() {
    let code = CodeBlock {
        block_name: "name",
        modifiers: BlockModifier::from_bits(5),
        contents: vec!["a", "b"],
    };
    match Block::parse_code(code) {
        Block::Code { name, modifiers, lines } => {
            assert_eq!(name, "name");
            assert_eq!(modifiers.bits, 5);
            assert_eq!(lines, vec!["a", "b"]);
        }
        _ => panic!("a block of code was expected"),
    }
    assert!(matches!(Block::parse_prose(vec!["p", "q"]), Block::Prose { lines } if lines == vec!["p", "q"]));
    assert!(matches!(SectionName::parse(Some("x")), SectionName::Declared(ref name) if name == "x"));
    assert!(matches!(SectionName::parse(None), SectionName::Unnamed));
}

#[test]
fn title_can_be_set_afterwards() {
    let mut file = parse(HEAD).ok().unwrap();
    file.set_title("Other".to_string());
    assert_eq!(file.metadata.title, "Other");
    assert_eq!(file.metadata.code_type, "c");
}

#[test]
fn comment_format_replaces_every_marker() {
    assert_eq!(generate_comment_type("// %s").format("name"), "// name");
    assert_eq!(generate_comment_type("/* %s */").format("a b"), "/* a b */");
    assert_eq!(generate_comment_type("%s%s").format("x"), "xx");
    assert_eq!(generate_comment_type("%%s").format("x"), "%x");
    assert_eq!(generate_comment_type("100% %l").format("x"), "100% %l");
    assert_eq!(generate_comment_type("").format("x"), "");
    assert_eq!(generate_comment_type("%").format("x"), "%");
    assert_eq!(generate_comment_type("%s").format("%s"), "%s");
    for pattern in ["// %s", "%%s%", "a%sb%sc", "%s%", "%%", "s%s"] {
        assert_eq!(generate_comment_type(pattern).format("<v>"), pattern.replace("%s", "<v>"));
    }
}

#[test]
fn line_number_format_writes_the_number() {
    assert_eq!(generate_line_number_format("#line %l").format(42), "#line 42");
    assert_eq!(generate_line_number_format("%l:%l").format(0), "0:0");
    assert_eq!(generate_line_number_format("%s").format(7), "%s");
    assert_eq!(decimal_chars(0), vec!['0']);
    assert_eq!(decimal_chars(9), vec!['9']);
    assert_eq!(decimal_chars(10), vec!['1', '0']);
    assert_eq!(decimal_chars(12345).iter().collect::<String>(), "12345");
    assert_eq!(decimal_chars(usize::MAX).iter().collect::<String>(), usize::MAX.to_string());
    assert_eq!(substitute("a%xb", 'x', &vec!['1', '2']), "a12b");
}

#[test]
fn style_sheets_are_described_in_words() {
    assert_eq!(CssSettings::default().describe(), "css file: none, colorscheme file: none");
    assert!(CssSettings::default().is_default());
    let add = CssSettings {
        custom_css: CustomCss::Add("a.css".to_string()),
        custom_colorscheme: Some("dark.css".to_string()),
    };
    assert_eq!(add.describe(), "css file: appending a.css, colorscheme file: dark.css");
    assert_eq!(CustomCss::Overwrite("o.css".to_string()).describe(), "overwriting by o.css");
    assert_eq!(CustomCss::Unset.describe(), "none");
    assert!(!CustomCss::Unset.is_not_none());
    assert!(CustomCss::Add(String::new()).is_not_none());
    assert!(CustomCss::Overwrite(String::new()).is_not_none());
}

#[test]
fn input_settings_recurse() {
    let settings = InputSettings::recurse("lit");
    assert_eq!(settings.input_path, "lit");
    assert!(settings.recurse);
}

#[test]
fn parsed_documents_are_kept_by_path() {
    let mut state = ParseState::new();
    assert!(state.parse_file("a.lit", HEAD).ok().unwrap().is_empty());
    assert!(state.parse_file("b.lit", "@title B\n@code_type c .c\n").is_ok());
    assert_eq!(state.file_map.len(), 2);
    assert_eq!(state.file_map.path_at(0), "a.lit");
    assert_eq!(state.file_map.file_at(1).metadata.title, "B");
    assert!(state.file_map.contains_key("b.lit"));
    assert!(!state.file_map.contains_key("c.lit"));
    assert_eq!(state.file_map.get("a.lit").unwrap().metadata.title, "Test");
    assert!(state.file_map.get("c.lit").is_none());
    assert!(state.css_settings.is_none());
    assert!(state.in_progress.is_empty());
}

#[test]
fn document_is_parsed_once() {
    let mut state = ParseState::new();
    assert!(state.parse_file("a.lit", HEAD).is_ok());
    assert!(matches!(state.parse_file("a.lit", HEAD), Err(ParseError::FileRepeat)));
    assert!(state.enter("b.lit").is_ok());
    assert!(matches!(state.enter("b.lit"), Err(ParseError::FileLoop)));
    assert!(matches!(state.parse_file("b.lit", HEAD), Err(ParseError::FileLoop)));
    assert!(matches!(state.enter("a.lit"), Err(ParseError::FileRepeat)));
    assert_eq!(state.in_progress, vec!["b.lit"]);
    let (file, css, _) = read_source(HEAD).ok().unwrap();
    assert!(state.leave("b.lit", file, css).is_ok());
    assert!(state.in_progress.is_empty());
    assert_eq!(state.file_map.len(), 2);
}

#[test]
fn one_document_may_ask_for_style_sheets() {
    let mut state = ParseState::new();
    assert!(state.parse_file("a.lit", "@title A\n@code_type c .c\n@add_css a.css\n").is_ok());
    assert!(state.parse_file("b.lit", HEAD).is_ok());
    assert!(matches!(
        state.parse_file("c.lit", "@title C\n@code_type c .c\n@colorscheme c.css\n"),
        Err(ParseError::ConflictingCss)
    ));
    assert!(matches!(
        state.css_settings.as_ref().unwrap().custom_css,
        CustomCss::Add(ref file) if file == "a.css"
    ));
    assert_eq!(state.file_map.len(), 2);
}

#[test]
fn errors_of_a_document_end_its_parsing() {
    let mut state = ParseState::new();
    assert!(matches!(state.parse_file("a.lit", "@bad"), Err(ParseError::GrammarError(1))));
    assert!(matches!(state.parse_file("b.lit", "---"), Err(ParseError::FormatError)));
    assert!(matches!(
        state.parse_file("c.lit", "@title T\n"),
        Err(ParseError::MissingCommand("code_type_and_file_extension"))
    ));
    assert_eq!(state.file_map.len(), 0);
}

#[test]
fn sources_are_parsed_in_order() {
    let sources = vec![
        SourceFile { path: "b.lit".to_string(), contents: "@title B\n@code_type c .c\n".to_string() },
        SourceFile { path: "a.lit".to_string(), contents: "@title A\n@code_type c .c\n".to_string() },
    ];
    let state = ParseState::from_input(&sources).ok().unwrap();
    assert_eq!(state.file_map.len(), 2);
    assert_eq!(state.file_map.path_at(0), "b.lit");
    assert_eq!(state.file_map.path_at(1), "a.lit");
    let twice = vec![
        SourceFile { path: "a.lit".to_string(), contents: HEAD.to_string() },
        SourceFile { path: "a.lit".to_string(), contents: HEAD.to_string() },
    ];
    assert!(matches!(ParseState::from_input(&twice), Err(ParseError::FileRepeat)));
    assert_eq!(ParseState::from_input(&vec![]).ok().unwrap().file_map.len(), 0);
}

#[test]
fn title_of_a_chapter_can_be_set() {
    let mut map = FileMap::new();
    map.insert("a.lit".to_string(), parse(HEAD).ok().unwrap());
    map.insert("b.lit".to_string(), parse(HEAD).ok().unwrap());
    assert!(map.set_title("b.lit", "Chapter".to_string()));
    assert!(!map.set_title("c.lit", "Chapter".to_string()));
    assert_eq!(map.get("a.lit").unwrap().metadata.title, "Test");
    assert_eq!(map.get("b.lit").unwrap().metadata.title, "Chapter");
}

#[test]
fn units_of_a_text_are_read_before_its_commands() {
    assert!(matches!(
        read_source("@title A\n@title B\n@bad"),
        Err(ParseError::GrammarError(3))
    ));
    assert_eq!(lit_file("@title A\n@title B\n").ok().unwrap().len(), 4);
}
