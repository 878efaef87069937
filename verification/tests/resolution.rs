use rliterate::link::link_lit_file;
use rliterate::link::LinkError;
use rliterate::link::LinkedBlock;
use rliterate::parser::ast::Block;
use rliterate::parser::ast::BookStatus;
use rliterate::parser::ast::LitFile;
use rliterate::parser::ast::Metadata;
use rliterate::parser::ast::Section;
use rliterate::parser::ast::SectionName;
use rliterate::parser::grammar::BlockModifier;

fn code(name: &str, lines: &[&str]) -> Block {
    Block::Code {
        name: name.to_string(),
        modifiers: BlockModifier::empty(),
        lines: lines.iter().map(|line| line.to_string()).collect(),
    }
}

fn prose(lines: &[&str]) -> Block {
    Block::Prose { lines: lines.iter().map(|line| line.to_string()).collect() }
}

fn document(sections: Vec<Vec<Block>>) -> LitFile {
    let mut id = 0;
    let mut made = Vec::new();
    for blocks in sections {
        made.push(Section { id, depth: 0, name: SectionName::Implicit, blocks });
        id += 1;
    }
    LitFile {
        metadata: Metadata {
            relative_directory: String::new(),
            title: "Test".to_string(),
            code_type: "c".to_string(),
            file_extension: ".c".to_string(),
            comment_type: None,
            line_number_format: None,
            compiler: None,
            book_status: BookStatus::NotBook,
        },
        sections: made,
    }
}

#[test]
fn cycle_of_three_is_refused() {
    let file = document(vec![vec![
        code("a", &["@{b}"]),
        code("b", &["@{c}"]),
        code("c", &["@{a}"]),
    ]]);
    match link_lit_file(&file) {
        Err(LinkError::CyclicReference(path)) => {
            assert_eq!(path, vec!["a", "b", "c", "a"]);
        }
        _ => panic!("the cycle was not found"),
    }
}

#[test]
fn cycle_is_found_from_any_start() {
    let file = document(vec![vec![
        code("start", &["@{a}"]),
        code("a", &["x", "@{b}"]),
        code("b", &["@{a}"]),
    ]]);
    match link_lit_file(&file) {
        Err(LinkError::CyclicReference(path)) => {
            assert_eq!(path, vec!["start", "a", "b", "a"]);
        }
        _ => panic!("the cycle was not found"),
    }
}

#[test]
fn self_link_is_a_cycle() {
    let file = document(vec![vec![code("a", &["@{a}"])]]);
    match link_lit_file(&file) {
        Err(LinkError::CyclicReference(path)) => assert_eq!(path, vec!["a", "a"]),
        _ => panic!("the cycle was not found"),
    }
}

#[test]
fn unknown_link_is_refused() {
    let file = document(vec![vec![code("a", &["@{nope}"])]]);
    match link_lit_file(&file) {
        Err(LinkError::UnknownReference(name)) => assert_eq!(name, "nope"),
        _ => panic!("the unknown name was not found"),
    }
}

#[test]
fn unknown_link_in_prose_is_refused() {
    let file = document(vec![vec![code("a", &["x"]), prose(&["see @{b}"])]]);
    match link_lit_file(&file) {
        Err(LinkError::UnknownReference(name)) => assert_eq!(name, "b"),
        _ => panic!("the unknown name was not found"),
    }
}

#[test]
fn first_unknown_link_is_reported() {
    let file = document(vec![vec![code("a", &["@{b} @{c}"])], vec![code("d", &["@{e}"])]]);
    match link_lit_file(&file) {
        Err(LinkError::UnknownReference(name)) => assert_eq!(name, "b"),
        _ => panic!("the unknown name was not found"),
    }
}

#[test]
fn malformed_line_is_refused_first() {
    let file = document(vec![vec![code("a", &["@{nope}", "@{open"])]]);
    match link_lit_file(&file) {
        Err(LinkError::MalformedReferenceSyntax(line)) => assert_eq!(line, "@{open"),
        _ => panic!("the malformed line was not found"),
    }
}

#[test]
fn links_of_all_definitions_are_gathered() {
    let file = document(vec![
        vec![code("a", &["@{b}"]), code("b", &["1"]), code("c", &["2"])],
        vec![code("a", &["@{c} @{b}"])],
    ]);
    let linked = link_lit_file(&file).ok().unwrap();
    assert_eq!(linked.link_map.len(), 3);
    assert_eq!(linked.link_map.keys(), &vec!["a", "b", "c"]);
    assert_eq!(linked.link_map.get("a").unwrap(), &vec!["b", "c", "b"]);
    assert!(linked.link_map.get("b").unwrap().is_empty());
    assert!(linked.link_map.contains_key("c"));
    assert!(!linked.link_map.contains_key("d"));
    assert!(linked.link_map.get("d").is_none());
    assert_eq!(linked.link_map.key_at(1), "b");
}

#[test]
fn linked_sections_mirror_the_document() {
    let file = document(vec![vec![code("a", &["x @{b}"]), prose(&["hello"])], vec![code("b", &[])]]);
    let linked = link_lit_file(&file).ok().unwrap();
    assert_eq!(linked.sections.len(), 2);
    assert_eq!(linked.sections[0].id, 0);
    assert_eq!(linked.sections[1].id, 1);
    assert_eq!(linked.sections[0].blocks.len(), 2);
    match &linked.sections[0].blocks[0] {
        LinkedBlock::Code { name, lines, .. } => {
            assert_eq!(name.as_str(), "a");
            assert_eq!(lines.len(), 1);
            assert_eq!(lines[0].get_text(), "x @{b}");
        }
        _ => panic!("a code block was expected"),
    }
    assert_eq!(linked.sections[0].blocks[1].get_lines()[0].get_text(), "hello");
    assert_eq!(linked.metadata.title, "Test");
}

#[test]
fn diamond_is_no_cycle() {
    let file = document(vec![vec![
        code("top", &["@{left}", "@{right}"]),
        code("left", &["@{bottom}"]),
        code("right", &["@{bottom}"]),
        code("bottom", &["x"]),
    ]]);
    assert!(link_lit_file(&file).is_ok());
}
