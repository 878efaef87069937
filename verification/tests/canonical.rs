use rliterate::link::link_lit_file;
use rliterate::output::canon::canonicalise_code_blocks;
use rliterate::output::canon::form_of;
use rliterate::output::canon::CCBForm;
use rliterate::output::canon::CanonicalCodeBlock;
use rliterate::parser::ast::Block;
use rliterate::parser::ast::BookStatus;
use rliterate::parser::ast::LitFile;
use rliterate::parser::ast::Metadata;
use rliterate::parser::ast::Section;
use rliterate::parser::ast::SectionName;
use rliterate::parser::grammar::BlockModifier;
use rliterate::parser::grammar::APPEND;
use rliterate::parser::grammar::NOHEADER;
use rliterate::parser::grammar::NOTANGLE;
use rliterate::parser::grammar::NOWEAVE;
use rliterate::parser::grammar::REDEF;

fn block(name: &str, bits: u32, lines: &[&str]) -> Block {
    Block::Code {
        name: name.to_string(),
        modifiers: BlockModifier::from_bits(bits),
        lines: lines.iter().map(|line| line.to_string()).collect(),
    }
}

fn file_of(sections: Vec<Vec<Block>>) -> LitFile {
    let mut id = 0;
    let mut made = Vec::new();
    for blocks in sections {
        made.push(Section { id, depth: 0, name: SectionName::Implicit, blocks });
        id += 1;
    }
    LitFile {
        metadata: Metadata {
            relative_directory: String::new(),
            title: "Test".to_string(),
            code_type: "c".to_string(),
            file_extension: ".c".to_string(),
            comment_type: None,
            line_number_format: None,
            compiler: None,
            book_status: BookStatus::NotBook,
        },
        sections: made,
    }
}

fn body(block: &CanonicalCodeBlock) -> Vec<String> {
    block.contents().iter().map(|line| line.get_text().to_string()).collect()
}

#[test]
fn later_block_is_appended_by_default() {
    let file = file_of(vec![vec![block("x", 0, &["1", "2"])], vec![block("x", 0, &["3", "4"])]]);
    let linked = link_lit_file(&file).ok().unwrap();
    let table = canonicalise_code_blocks(&linked.sections);
    assert_eq!(table.len(), 1);
    let x = table.get("x").unwrap();
    assert_eq!(body(x), vec!["1", "2", "3", "4"]);
    assert_eq!(x.first_defined_in(), 0);
    assert_eq!(x.appended_to_in(), &vec![1]);
    assert!(x.redefined_in().is_empty());
}

#[test]
fn redefinition_replaces_the_body() {
    let file = file_of(vec![vec![block("x", 0, &["1", "2"])], vec![block("x", REDEF, &["5", "6"])]]);
    let linked = link_lit_file(&file).ok().unwrap();
    let table = canonicalise_code_blocks(&linked.sections);
    let x = table.get("x").unwrap();
    assert_eq!(body(x), vec!["5", "6"]);
    assert_eq!(x.first_defined_in(), 0);
    assert!(x.appended_to_in().is_empty());
    assert_eq!(x.redefined_in(), &vec![1]);
}

#[test]
fn append_after_redefinition_extends_the_new_body() {
    let file = file_of(vec![vec![
        block("x", 0, &["1"]),
        block("x", REDEF, &["2"]),
        block("x", APPEND, &["3"]),
    ]]);
    let linked = link_lit_file(&file).ok().unwrap();
    let table = canonicalise_code_blocks(&linked.sections);
    assert_eq!(body(table.get("x").unwrap()), vec!["2", "3"]);
}

#[test]
fn first_block_sets_the_flags() {
    let file = file_of(vec![vec![
        block("plain", 0, &[]),
        block("quiet", NOHEADER | NOWEAVE, &[]),
        block("hidden", NOTANGLE, &[]),
    ]]);
    let linked = link_lit_file(&file).ok().unwrap();
    let table = canonicalise_code_blocks(&linked.sections);
    let plain = table.get("plain").unwrap();
    assert!(plain.print_header() && plain.print_to_tangle() && plain.print_to_weave());
    let quiet = table.get("quiet").unwrap();
    assert!(!quiet.print_header() && quiet.print_to_tangle() && !quiet.print_to_weave());
    let hidden = table.get("hidden").unwrap();
    assert!(hidden.print_header() && !hidden.print_to_tangle() && hidden.print_to_weave());
}

#[test]
fn marked_append_narrows_the_flags() {
    let file = file_of(vec![vec![
        block("x", NOHEADER, &["1"]),
        block("x", APPEND | NOTANGLE, &["2"]),
    ]]);
    let linked = link_lit_file(&file).ok().unwrap();
    let table = canonicalise_code_blocks(&linked.sections);
    let x = table.get("x").unwrap();
    assert!(!x.print_header());
    assert!(!x.print_to_tangle());
    assert!(x.print_to_weave());
}

#[test]
fn unmarked_append_leaves_the_flags() {
    let file = file_of(vec![vec![block("x", 0, &["1"]), block("x", NOTANGLE | NOHEADER, &["2"])]]);
    let linked = link_lit_file(&file).ok().unwrap();
    let table = canonicalise_code_blocks(&linked.sections);
    let x = table.get("x").unwrap();
    assert!(x.print_header() && x.print_to_tangle() && x.print_to_weave());
    assert_eq!(body(x), vec!["1", "2"]);
}

#[test]
fn redefinition_sets_the_flags_anew() {
    let file = file_of(vec![vec![
        block("x", NOHEADER | NOTANGLE, &["1"]),
        block("x", REDEF | NOWEAVE, &["2"]),
    ]]);
    let linked = link_lit_file(&file).ok().unwrap();
    let table = canonicalise_code_blocks(&linked.sections);
    let x = table.get("x").unwrap();
    assert!(x.print_header() && x.print_to_tangle() && !x.print_to_weave());
}

#[test]
fn name_with_extension_is_a_file() {
    let file = file_of(vec![vec![
        block("file.c", 0, &[]),
        block("body", 0, &[]),
        block("src/main.rs", 0, &[]),
        block(".hidden", 0, &[]),
    ]]);
    let linked = link_lit_file(&file).ok().unwrap();
    let table = canonicalise_code_blocks(&linked.sections);
    assert!(table.get("file.c").unwrap().is_file());
    assert!(!table.get("body").unwrap().is_file());
    assert!(table.get("src/main.rs").unwrap().is_file());
    assert!(!table.get(".hidden").unwrap().is_file());
    assert_eq!(table.key_at(0), "file.c");
    assert!(table.block_at(0).is_file());
    assert!(table.contains_key("body"));
    assert!(!table.contains_key("nobody"));
}

#[test]
fn form_follows_the_extension() {
    assert_eq!(form_of(true), CCBForm::File);
    assert_eq!(form_of(false), CCBForm::Block);
}

#[test]
fn canonicalising_twice_gives_the_same_table() {
    let file = file_of(vec![
        vec![block("a.c", 0, &["1", "@{b}"]), block("b", NOHEADER, &["2"])],
        vec![block("b", APPEND | NOWEAVE, &["3"]), block("a.c", REDEF, &["@{b}"])],
    ]);
    let linked = link_lit_file(&file).ok().unwrap();
    let first = canonicalise_code_blocks(&linked.sections);
    let second = canonicalise_code_blocks(&linked.sections);
    assert_eq!(first.len(), second.len());
    for i in 0..first.len() {
        assert_eq!(first.key_at(i), second.key_at(i));
        let (x, y) = (first.block_at(i), second.block_at(i));
        assert_eq!(body(x), body(y));
        assert_eq!(x.is_file(), y.is_file());
        assert_eq!(x.print_header(), y.print_header());
        assert_eq!(x.print_to_tangle(), y.print_to_tangle());
        assert_eq!(x.print_to_weave(), y.print_to_weave());
        assert_eq!(x.first_defined_in(), y.first_defined_in());
        assert_eq!(x.appended_to_in(), y.appended_to_in());
        assert_eq!(x.redefined_in(), y.redefined_in());
    }
}

#[test]
fn prose_adds_no_block() {
    let file = file_of(vec![vec![Block::Prose { lines: vec!["text".to_string()] }]]);
    let linked = link_lit_file(&file).ok().unwrap();
    let table = canonicalise_code_blocks(&linked.sections);
    assert_eq!(table.len(), 0);
}

#[test]
fn modifiers_are_sets_of_bits() {
    let m = BlockModifier::empty().union(BlockModifier::from_bits(APPEND)).union(
        BlockModifier::from_bits(NOWEAVE),
    );
    assert!(m.contains(APPEND));
    assert!(m.contains(NOWEAVE));
    assert!(m.contains(APPEND | NOWEAVE));
    assert!(!m.contains(REDEF));
    assert!(!m.contains(NOWEAVE | NOHEADER));
    assert_eq!(m.bits, 9);
}
