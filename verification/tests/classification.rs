use ast_core::parser::{
    bold_from_captures, bold_node, classify_line, code_from_captures, code_node,
    heading_from_captures, heading_level_of, heading_node, text_node,
};
use ast_core::{AstNode, MdParser, NodeType};

fn text_of(node: &AstNode) -> &str {
    match &node.node_type {
        NodeType::Text(content) => content.as_str(),
        other => panic!("expected a text node, found {:?}", other),
    }
}

fn only_child_text(node: &AstNode) -> &str {
    assert_eq!(node.children.len(), 1);
    assert!(node.children[0].children.is_empty());
    assert!(node.children[0].props.is_empty());
    text_of(&node.children[0])
}

fn groups(texts: &[Option<&str>]) -> Option<Vec<Option<String>>> {
    Some(texts.iter().map(|t| t.map(|s| s.to_string())).collect())
}

#[test]
fn builtin_patterns_are_accepted() {
    assert!(MdParser::patterns_compile());
}

#[test]
fn one_child_per_non_blank_line() {
    let root = MdParser::parse("# Title\n\nfirst\n   \nsecond\n\n\nthird");
    assert_eq!(root.node_type, NodeType::Root);
    assert!(root.props.is_empty());
    assert_eq!(root.children.len(), 4);
    assert_eq!(root.children[0].node_type, NodeType::Heading(1));
    assert_eq!(text_of(&root.children[1]), "first");
    assert_eq!(text_of(&root.children[2]), "second");
    assert_eq!(text_of(&root.children[3]), "third");
}

#[test]
fn empty_document_is_a_bare_root() {
    for document in ["", "\n", "  \n\t\n", "\r\n\r\n"] {
        let root = MdParser::parse(document);
        assert_eq!(root.node_type, NodeType::Root);
        assert!(root.children.is_empty());
        assert!(root.props.is_empty());
    }
}

#[test]
fn heading_level_counts_markers() {
    let root = MdParser::parse("### Title");
    assert_eq!(root.children.len(), 1);
    assert_eq!(root.children[0].node_type, NodeType::Heading(3));
    assert_eq!(only_child_text(&root.children[0]), "Title");
    assert!(root.children[0].props.is_empty());
}

#[test]
fn heading_level_ignores_title_length() {
    let short = MdParser::parse("## a");
    let long = MdParser::parse("## a much longer title than the other one has");
    assert_eq!(short.children[0].node_type, NodeType::Heading(2));
    assert_eq!(long.children[0].node_type, NodeType::Heading(2));
    let six = MdParser::parse("###### x");
    assert_eq!(six.children[0].node_type, NodeType::Heading(6));
}

#[test]
fn heading_level_of_counts_only_leading_markers() {
    assert_eq!(heading_level_of("# a # b ##"), 1);
    assert_eq!(heading_level_of("#### #"), 4);
    assert_eq!(heading_level_of("no markers"), 0);
    assert_eq!(heading_level_of(""), 0);
    assert_eq!(heading_level_of("#####"), 5);
}

#[test]
fn heading_level_wraps_at_256() {
    assert_eq!(heading_level_of(&format!("{} t", "#".repeat(255))), 255);
    assert_eq!(heading_level_of(&format!("{} t", "#".repeat(256))), 0);
    assert_eq!(heading_level_of(&format!("{} t", "#".repeat(300))), 44);
    let root = MdParser::parse(&format!("{} deep", "#".repeat(257)));
    assert_eq!(root.children[0].node_type, NodeType::Heading(1));
    assert_eq!(only_child_text(&root.children[0]), "deep");
}

#[test]
fn heading_needs_whitespace_after_markers() {
    let root = MdParser::parse("#NoSpace\n#\n#\ttabbed");
    assert_eq!(root.children.len(), 3);
    assert_eq!(text_of(&root.children[0]), "#NoSpace");
    assert_eq!(text_of(&root.children[1]), "#");
    assert_eq!(root.children[2].node_type, NodeType::Heading(1));
    assert_eq!(only_child_text(&root.children[2]), "tabbed");
}

#[test]
fn indented_heading_is_trimmed_first() {
    let root = MdParser::parse("   ## Indented   ");
    assert_eq!(root.children[0].node_type, NodeType::Heading(2));
    assert_eq!(only_child_text(&root.children[0]), "Indented");
}

#[test]
fn bold_line_holds_the_first_span() {
    let root = MdParser::parse("Some **bold** text and **more**");
    assert_eq!(root.children.len(), 1);
    assert_eq!(root.children[0].node_type, NodeType::Bold);
    assert_eq!(only_child_text(&root.children[0]), "bold");
    assert!(root.children[0].props.is_empty());
}

#[test]
fn empty_bold_span_is_bold() {
    let root = MdParser::parse("****");
    assert_eq!(root.children[0].node_type, NodeType::Bold);
    assert_eq!(only_child_text(&root.children[0]), "");
}

#[test]
fn code_line_has_language_and_content() {
    let root = MdParser::parse("see `rust let x = 1;` here");
    assert_eq!(root.children.len(), 1);
    let code = &root.children[0];
    assert_eq!(code.node_type, NodeType::Code("rust".to_string()));
    assert_eq!(code.props.get("language").map(|v| v.as_str()), Some("rust"));
    assert_eq!(code.props.len(), 1);
    assert_eq!(only_child_text(code), "let x = 1;");
}

#[test]
fn code_line_with_tag_only() {
    let root = MdParser::parse("`rust`");
    let code = &root.children[0];
    assert_eq!(code.node_type, NodeType::Code("rust".to_string()));
    assert_eq!(code.props.get("language").map(|v| v.as_str()), Some("rust"));
    assert_eq!(only_child_text(code), "");
}

#[test]
fn code_line_with_empty_language() {
    let root = MdParser::parse("before `` after\n`(x + y)`\n`  spaced out `");
    assert_eq!(root.children.len(), 3);
    let empty = &root.children[0];
    assert_eq!(empty.node_type, NodeType::Code(String::new()));
    assert_eq!(empty.props.get("language").map(|v| v.as_str()), Some(""));
    assert_eq!(only_child_text(empty), "");
    let untagged = &root.children[1];
    assert_eq!(untagged.node_type, NodeType::Code(String::new()));
    assert_eq!(untagged.props.get("language").map(|v| v.as_str()), Some(""));
    assert_eq!(only_child_text(untagged), "(x + y)");
    let spaced = &root.children[2];
    assert_eq!(spaced.node_type, NodeType::Code(String::new()));
    assert_eq!(only_child_text(spaced), "spaced out ");
}

#[test]
fn code_line_takes_the_first_span() {
    let root = MdParser::parse("`js a` and `py b`");
    let code = &root.children[0];
    assert_eq!(code.node_type, NodeType::Code("js".to_string()));
    assert_eq!(only_child_text(code), "a");
}

#[test]
fn unclosed_code_span_is_text() {
    let root = MdParser::parse("`rust let x");
    assert_eq!(text_of(&root.children[0]), "`rust let x");
}

#[test]
fn unmatched_line_is_text() {
    let root = MdParser::parse("just * one ` of each #");
    assert_eq!(root.children.len(), 1);
    assert_eq!(text_of(&root.children[0]), "just * one ` of each #");
    assert!(root.children[0].children.is_empty());
    assert!(root.children[0].props.is_empty());
}

#[test]
fn heading_wins_over_bold_and_code() {
    let root = MdParser::parse("# **bold** `code` x");
    assert_eq!(root.children[0].node_type, NodeType::Heading(1));
    assert_eq!(only_child_text(&root.children[0]), "**bold** `code` x");
}

#[test]
fn bold_wins_over_code() {
    let root = MdParser::parse("`code` then **bold**");
    assert_eq!(root.children[0].node_type, NodeType::Bold);
    assert_eq!(only_child_text(&root.children[0]), "bold");
}

#[test]
fn classify_line_matches_parse() {
    assert_eq!(classify_line("## Two").node_type, NodeType::Heading(2));
    assert_eq!(classify_line("**b**").node_type, NodeType::Bold);
    assert_eq!(classify_line("`py x`").node_type, NodeType::Code("py".to_string()));
    assert_eq!(classify_line("plain").node_type, NodeType::Text("plain".to_string()));
}

#[test]
fn non_ascii_lines_are_classified() {
    let root = MdParser::parse("# Überschrift\n**fett** gedruckt\nnur Text ∑");
    assert_eq!(root.children[0].node_type, NodeType::Heading(1));
    assert_eq!(only_child_text(&root.children[0]), "Überschrift");
    assert_eq!(root.children[1].node_type, NodeType::Bold);
    assert_eq!(only_child_text(&root.children[1]), "fett");
    assert_eq!(text_of(&root.children[2]), "nur Text ∑");
}

#[test]
fn checked_parse_gives_the_same_tree() {
    let root = MdParser::checked_parse("# a\nb").expect("the built-in patterns compile");
    assert_eq!(root.children.len(), 2);
    assert_eq!(root.children[0].node_type, NodeType::Heading(1));
    assert_eq!(text_of(&root.children[1]), "b");
}

#[test]
fn node_builders_make_flat_nodes() {
    let text = text_node("t".to_string());
    assert_eq!(text.node_type, NodeType::Text("t".to_string()));
    assert!(text.children.is_empty());
    assert!(text.props.is_empty());

    let heading = heading_node(4, "Title".to_string());
    assert_eq!(heading.node_type, NodeType::Heading(4));
    assert_eq!(only_child_text(&heading), "Title");
    assert!(heading.props.is_empty());

    let bold = bold_node("b".to_string());
    assert_eq!(bold.node_type, NodeType::Bold);
    assert_eq!(only_child_text(&bold), "b");

    let code = code_node("go".to_string(), "x := 1".to_string());
    assert_eq!(code.node_type, NodeType::Code("go".to_string()));
    assert_eq!(code.props.get("language").map(|v| v.as_str()), Some("go"));
    assert_eq!(only_child_text(&code), "x := 1");
}

#[test]
fn heading_from_captures_reads_group_one() {
    let found = groups(&[Some("## T"), Some("T")]);
    let node = heading_from_captures("## T", &found).expect("group 1 is there");
    assert_eq!(node.node_type, NodeType::Heading(2));
    assert_eq!(only_child_text(&node), "T");

    assert!(heading_from_captures("## T", &None).is_none());
    assert!(heading_from_captures("## T", &groups(&[Some("## T")])).is_none());
    assert!(heading_from_captures("## T", &groups(&[Some("## T"), None])).is_none());
}

#[test]
fn bold_from_captures_reads_group_one() {
    let node = bold_from_captures(&groups(&[Some("**b**"), Some("b")])).expect("group 1");
    assert_eq!(node.node_type, NodeType::Bold);
    assert_eq!(only_child_text(&node), "b");
    assert!(bold_from_captures(&None).is_none());
    assert!(bold_from_captures(&groups(&[Some("x"), None])).is_none());
}

#[test]
fn code_from_captures_reads_two_groups() {
    let found = groups(&[Some("`c int x;`"), Some("c"), Some("int x;")]);
    let node = code_from_captures(&found).expect("groups 1 and 2");
    assert_eq!(node.node_type, NodeType::Code("c".to_string()));
    assert_eq!(node.props.get("language").map(|v| v.as_str()), Some("c"));
    assert_eq!(only_child_text(&node), "int x;");

    assert!(code_from_captures(&None).is_none());
    assert!(code_from_captures(&groups(&[Some("`c`"), Some("c")])).is_none());
    assert!(code_from_captures(&groups(&[Some("`c`"), Some("c"), None])).is_none());
    assert!(code_from_captures(&groups(&[Some("`c`"), None, Some("x")])).is_none());
}
