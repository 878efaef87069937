use rliterate::link::grammar::LinkPart;
use rliterate::link::LinkedLine;

fn parts_of<'a>(line: &LinkedLine<'a>) -> Vec<(LinkPart, &'a str)> {
    let mut parts = Vec::new();
    for i in 0..line.part_count() {
        parts.push((line.part_kind(i), line.part_slice(i)));
    }
    parts
}

#[test]
fn splits_text_and_links() {
    let line = LinkedLine::parse("  @{foo} and @{ bar baz }").unwrap();
    assert_eq!(
        parts_of(&line),
        vec![
            (LinkPart::Text, "  "),
            (LinkPart::Link, "foo"),
            (LinkPart::Text, " and "),
            (LinkPart::Link, "bar baz"),
        ]
    );
    assert_eq!(line.get_text(), "  @{foo} and @{ bar baz }");
    assert_eq!(line.get_links(), vec!["foo", "bar baz"]);
}

#[test]
fn line_without_links_is_one_text() {
    let line = LinkedLine::parse("int main() { return 0; }").unwrap();
    assert_eq!(parts_of(&line), vec![(LinkPart::Text, "int main() { return 0; }")]);
    assert!(line.get_links().is_empty());
}

#[test]
fn empty_line_has_no_parts() {
    let line = LinkedLine::parse("").unwrap();
    assert_eq!(line.part_count(), 0);
    assert_eq!(line.get_text(), "");
}

#[test]
fn unclosed_link_is_refused() {
    assert!(LinkedLine::parse("a @{b").is_none());
    assert!(LinkedLine::parse("@{").is_none());
}

#[test]
fn link_without_name_is_refused() {
    assert!(LinkedLine::parse("@{}").is_none());
    assert!(LinkedLine::parse("@{ \t }").is_none());
}

#[test]
fn text_of_a_line_without_links_is_the_line() {
    for text in ["plain text", "  indented {braces} @ at", "a}b{c", "x@y", "@", "{"] {
        let line = LinkedLine::parse(text).unwrap();
        assert!(line.get_links().is_empty());
        let texts = line.texts_between(0, line.part_count());
        assert_eq!(texts.concat(), text);
    }
}

#[test]
fn walk_gives_each_link_with_the_text_around_it() {
    let line = LinkedLine::parse("a @{x} b @{ y } c").unwrap();
    let mut walk = line.split_links();
    let (before, name, after) = walk.next().unwrap();
    assert_eq!((before, name, after), (vec!["a "], "x", vec![" b ", " c"]));
    let (before, name, after) = walk.next().unwrap();
    assert_eq!((before, name, after), (vec!["a ", " b "], "y", vec![" c"]));
    assert!(walk.next().is_none());
    assert!(walk.next().is_none());
}

#[test]
fn walk_over_a_line_without_links_is_empty() {
    let line = LinkedLine::parse("no links").unwrap();
    assert!(line.split_links().next().is_none());
    let empty = LinkedLine::parse("").unwrap();
    assert!(empty.split_links().next().is_none());
}

#[test]
fn adjacent_links_have_no_text_between() {
    let line = LinkedLine::parse("@{a}@{b}").unwrap();
    assert_eq!(parts_of(&line), vec![(LinkPart::Link, "a"), (LinkPart::Link, "b")]);
    let mut walk = line.split_links();
    let (before, name, after) = walk.next().unwrap();
    assert!(before.is_empty() && after.is_empty());
    assert_eq!(name, "a");
    assert_eq!(walk.next().unwrap().1, "b");
}

#[test]
fn name_of_a_link_keeps_what_stands_inside() {
    let line = LinkedLine::parse("@{ a  \t b@{c }").unwrap();
    assert_eq!(parts_of(&line), vec![(LinkPart::Link, "a  \t b@{c")]);
    let line = LinkedLine::parse("@{a}}").unwrap();
    assert_eq!(parts_of(&line), vec![(LinkPart::Link, "a"), (LinkPart::Text, "}")]);
    assert!(LinkPart::Link.is_link());
    assert!(!LinkPart::Text.is_link());
}

#[test]
fn copy_of_a_line_has_the_same_parts() {
    let line = LinkedLine::parse("x @{y} z").unwrap();
    let copy = line.clone();
    assert_eq!(copy.get_text(), line.get_text());
    assert_eq!(parts_of(&copy), parts_of(&line));
}
