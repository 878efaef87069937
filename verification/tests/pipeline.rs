use rliterate::link::LinkError;
use rliterate::link::LinkState;
use rliterate::output::css::CssSettings;
use rliterate::output::css::CustomCss;
use rliterate::output::tangle::TangleAction;
use rliterate::output::run_outcome;
use rliterate::output::weave::Type;
use rliterate::output::weave::Woven;
use rliterate::output::Globals;
use rliterate::output::OutputError;
use rliterate::parser::ParseState;
use rliterate::run;
use rliterate::ProgramError;

const TEXT: &str = "@title Test\n@code_type c .c\n@comment_type // %s\n\n@s Intro\nSome prose.\n--- main.c\nint main() {\n    @{body}\n}\n---\n--- body\nreturn 0;\n---\n";

fn globals(compile: bool) -> Globals {
    Globals {
        generate_output: true,
        weave: Some(rliterate::output::weave::Settings {
            weave_type: Type::Markdown,
            out_dir: "doc".to_string(),
            css: CssSettings::default(),
        }),
        tangle: Some(rliterate::output::tangle::Globals {
            compile,
            line_numbers: None,
            out_dir: "src".to_string(),
        }),
    }
}

fn parsed(texts: &[(&str, &str)]) -> ParseState {
    let mut state = ParseState::new();
    for (path, text) in texts {
        assert!(state.parse_file(path, text).is_ok());
    }
    state
}

#[test]
fn document_is_tangled_and_woven() {
    let state = parsed(&[("test.lit", TEXT)]);
    let mut settings = globals(false);
    let outputs = run(&state, &mut settings).ok().unwrap();
    assert_eq!(outputs.len(), 1);
    assert_eq!(outputs[0].path, "test.lit");
    assert_eq!(outputs[0].relative_directory, "");
    assert_eq!(outputs[0].tangle.len(), 1);
    match &outputs[0].tangle[0] {
        TangleAction::Write { name, lines } => {
            assert_eq!(name, "main.c");
            assert_eq!(
                lines,
                &vec!["// main.c", "int main() {", "    // body", "    return 0;", "}"]
            );
        }
        _ => panic!("a file was to be written"),
    }
    match outputs[0].woven.as_ref().unwrap() {
        Woven::Markdown(text) => assert!(text.starts_with("# Test\n\n")),
        _ => panic!("markdown was expected"),
    }
}

#[test]
fn no_output_is_made_when_none_is_wanted() {
    let state = parsed(&[("test.lit", TEXT)]);
    let mut settings = globals(false);
    settings.generate_output = false;
    let outputs = run(&state, &mut settings).ok().unwrap();
    assert_eq!(outputs.len(), 1);
    assert!(outputs[0].tangle.is_empty());
    assert!(outputs[0].woven.is_none());
}

#[test]
fn only_what_is_wanted_is_made() {
    let state = parsed(&[("test.lit", TEXT)]);
    let mut settings = globals(false);
    settings.weave = None;
    let outputs = run(&state, &mut settings).ok().unwrap();
    assert_eq!(outputs[0].tangle.len(), 1);
    assert!(outputs[0].woven.is_none());
    let mut settings = globals(false);
    settings.tangle = None;
    let outputs = run(&state, &mut settings).ok().unwrap();
    assert!(outputs[0].tangle.is_empty());
    assert!(outputs[0].woven.is_some());
}

#[test]
fn compiling_needs_a_compiler() {
    let state = parsed(&[("test.lit", TEXT)]);
    let mut settings = globals(true);
    assert!(matches!(
        run(&state, &mut settings),
        Err(ProgramError::OutputError(OutputError::NoCompilerCommand))
    ));
}

#[test]
fn unresolved_document_ends_the_run() {
    let bad = "@title B\n@code_type c .c\n--- a\n@{missing}\n---\n";
    let state = parsed(&[("good.lit", TEXT), ("bad.lit", bad)]);
    let mut settings = globals(false);
    match run(&state, &mut settings) {
        Err(ProgramError::LinkerError(LinkError::UnknownReference(name))) => {
            assert_eq!(name, "missing")
        }
        _ => panic!("the unknown name was not found"),
    }
    assert!(matches!(
        LinkState::link(&state.file_map),
        Err(LinkError::UnknownReference(_))
    ));
}

#[test]
fn documents_are_linked_in_order() {
    let state = parsed(&[("b.lit", TEXT), ("a.lit", TEXT)]);
    let linked = LinkState::link(&state.file_map).ok().unwrap();
    assert_eq!(linked.file_map.len(), 2);
    assert_eq!(linked.file_map[0].0, "b.lit");
    assert_eq!(linked.file_map[1].0, "a.lit");
    assert_eq!(linked.file_map[1].1.sections.len(), 2);
    assert_eq!(linked.file_map[0].1.metadata.title, "Test");
}

#[test]
fn style_sheets_of_a_document_reach_the_settings() {
    let text = "@title T\n@code_type c .c\n@add_css mine.css\n";
    let state = parsed(&[("a.lit", text)]);
    let mut settings = globals(false);
    assert!(run(&state, &mut settings).is_ok());
    assert!(matches!(
        settings.weave.as_ref().unwrap().css.custom_css,
        CustomCss::Add(ref file) if file == "mine.css"
    ));
    let mut tangle_only = globals(false);
    tangle_only.weave = None;
    assert!(run(&state, &mut tangle_only).is_ok());
    assert!(tangle_only.weave.is_none());
    let mut direct = globals(false);
    direct.set_css(CssSettings {
        custom_css: CustomCss::Overwrite("o.css".to_string()),
        custom_colorscheme: None,
    });
    assert!(matches!(
        direct.weave.as_ref().unwrap().css.custom_css,
        CustomCss::Overwrite(ref file) if file == "o.css"
    ));
    assert_eq!(direct.weave.as_ref().unwrap().out_dir, "doc");
}

#[test]
fn first_failure_of_a_document_is_the_failure_of_the_run() {
    assert!(run_outcome(vec![]).is_ok());
    assert!(run_outcome(vec![Ok(()), Ok(())]).is_ok());
    assert!(matches!(
        run_outcome(vec![
            Ok(()),
            Err(OutputError::FailedCommand(2)),
            Ok(()),
            Err(OutputError::TerminatedCommand(9)),
        ]),
        Err(OutputError::FailedCommand(2))
    ));
    assert!(matches!(
        run_outcome(vec![Err(OutputError::NoCompilerCommand)]),
        Err(OutputError::NoCompilerCommand)
    ));
}

#[test]
fn unprintable_documentation_ends_the_run() {
    let text = format!("@title T\n@code_type c .c\n{}. x\n@s \n", usize::MAX);
    let state = parsed(&[("good.lit", TEXT), ("list.lit", text.as_str())]);
    let mut settings = globals(false);
    assert!(matches!(
        run(&state, &mut settings),
        Err(ProgramError::OutputError(OutputError::UnprintableMarkdown))
    ));
    let mut html = globals(false);
    html.weave.as_mut().unwrap().weave_type = Type::HtmlViaMarkdown(None);
    assert_eq!(run(&state, &mut html).ok().unwrap().len(), 2);
}
