use ast_core::ast::NodeView;
use ast_core::transformer::{
    collapsed, hyphen_bounds, hyphenated, slug_of, HeadingIds, NodeVisitor,
};
use ast_core::{
    checked_parse_md_with_heading_ids, create_root_node, parse_md_with_heading_ids, AstNode,
    AstTransformer, MdParser, NodeType,
};
use std::cell::RefCell;

fn id_of(node: &AstNode) -> Option<&str> {
    node.props.get("id").map(|v| v.as_str())
}

fn snapshot(node: &AstNode) -> String {
    let mut pairs = node.props.to_vec();
    pairs.sort();
    let children: Vec<String> = node.children.iter().map(snapshot).collect();
    format!("{:?}{:?}[{}]", node.node_type, pairs, children.join(","))
}

#[test]
fn slug_of_plain_word_is_lowercase() {
    assert_eq!(slug_of("Hello"), "hello");
    assert_eq!(slug_of("already-lower"), "already-lower");
    assert_eq!(slug_of(""), "");
}

#[test]
fn slug_puts_hyphens_for_punctuation_and_keeps_spaces() {
    assert_eq!(slug_of("Hello, World!"), "hello- world");
    assert_eq!(slug_of("a.b"), "a-b");
    assert_eq!(slug_of("C++ & Rust"), "c- - rust");
}

#[test]
fn slug_keeps_spaces_at_both_ends() {
    assert_eq!(slug_of("  Multi   Space  "), "  multi   space  ");
}

#[test]
fn slug_of_punctuation_only_is_empty() {
    assert_eq!(slug_of("!!!"), "");
    assert_eq!(slug_of("?"), "");
    assert_eq!(slug_of("----"), "");
}

#[test]
fn slug_collapses_pairs_in_one_pass() {
    assert_eq!(slug_of("a--b"), "a-b");
    assert_eq!(slug_of("a---b"), "a--b");
    assert_eq!(slug_of("a----b"), "a--b");
    assert_eq!(slug_of("a!?b"), "a-b");
}

#[test]
fn slug_trims_hyphens_from_both_ends() {
    assert_eq!(slug_of("-x-"), "x");
    assert_eq!(slug_of("(note)"), "note");
    assert_eq!(slug_of("...dots..."), "dots");
}

#[test]
fn slug_lowercases_beyond_ascii() {
    assert_eq!(slug_of("ÀÉÎ"), "àéî");
    assert_eq!(slug_of("ΑΣ"), "ας");
    assert_eq!(slug_of("İ"), "i");
    assert_eq!(slug_of("Ünïcødé 123"), "ünïcødé 123");
}

#[test]
fn hyphenated_replaces_character_by_character() {
    assert_eq!(hyphenated(&vec!['a', ',', ' ', 'b', '!', '1', '_']), vec!['a', '-', ' ', 'b', '-', '1', '-']);
    assert_eq!(hyphenated(&Vec::new()), Vec::<char>::new());
}

#[test]
fn collapsed_takes_pairs_from_the_left() {
    assert_eq!(collapsed(&vec!['-', '-']), vec!['-']);
    assert_eq!(collapsed(&vec!['-', '-', '-']), vec!['-', '-']);
    assert_eq!(collapsed(&vec!['-', '-', '-', '-']), vec!['-', '-']);
    assert_eq!(collapsed(&vec!['a', '-', 'b', '-']), vec!['a', '-', 'b', '-']);
    assert_eq!(collapsed(&Vec::new()), Vec::<char>::new());
}

#[test]
fn hyphen_bounds_find_the_kept_range() {
    assert_eq!(hyphen_bounds(&vec!['-', '-', 'a', '-', 'b', '-']), (2, 5));
    assert_eq!(hyphen_bounds(&vec!['a']), (0, 1));
    let (from, to) = hyphen_bounds(&vec!['-', '-']);
    assert_eq!(from, to);
    assert_eq!(hyphen_bounds(&Vec::new()), (0, 0));
}

#[test]
fn heading_gets_the_slug_of_its_text() {
    let mut tree = MdParser::parse("# Getting Started\ntext\n## API: v2");
    AstTransformer::add_heading_unique_id(&mut tree);
    assert_eq!(id_of(&tree.children[0]), Some("getting started"));
    assert_eq!(id_of(&tree.children[1]), None);
    assert_eq!(id_of(&tree.children[2]), Some("api- v2"));
    assert_eq!(id_of(&tree), None);
    assert_eq!(id_of(&tree.children[0].children[0]), None);
}

#[test]
fn heading_of_punctuation_gets_an_empty_id() {
    let tree = parse_md_with_heading_ids("# !!!");
    assert_eq!(tree.children[0].node_type, NodeType::Heading(1));
    assert_eq!(id_of(&tree.children[0]), Some(""));
}

#[test]
fn equal_headings_get_equal_ids() {
    let tree = parse_md_with_heading_ids("# Same\n## Same");
    assert_eq!(id_of(&tree.children[0]), Some("same"));
    assert_eq!(id_of(&tree.children[1]), Some("same"));
}

#[test]
fn heading_pass_keeps_other_attributes_and_nodes() {
    let mut tree = MdParser::parse("# T\n`rust` x\n**b**");
    let before = tree.children.len();
    tree.children[0].add_props("class", "title");
    AstTransformer::add_heading_unique_id(&mut tree);
    assert_eq!(tree.children.len(), before);
    assert_eq!(tree.children[0].props.get("class").map(|v| v.as_str()), Some("title"));
    assert_eq!(id_of(&tree.children[0]), Some("t"));
    assert_eq!(tree.children[1].props.get("language").map(|v| v.as_str()), Some("rust"));
    assert_eq!(tree.children[1].props.len(), 1);
    assert_eq!(tree.children[2].props.len(), 0);
}

#[test]
fn heading_pass_overwrites_an_old_id() {
    let mut tree = MdParser::parse("# New");
    tree.children[0].add_props("id", "stale");
    AstTransformer::add_heading_unique_id(&mut tree);
    assert_eq!(id_of(&tree.children[0]), Some("new"));
    assert_eq!(tree.children[0].props.len(), 1);
}

#[test]
fn heading_without_text_child_gets_no_id() {
    let mut root = create_root_node();
    root.add_children(AstNode::new(NodeType::Heading(1)));
    let mut odd = AstNode::new(NodeType::Heading(2));
    odd.add_children(AstNode::new(NodeType::Bold));
    odd.add_children(AstNode::new(NodeType::Text("second".to_string())));
    root.add_children(odd);
    AstTransformer::add_heading_unique_id(&mut root);
    assert_eq!(id_of(&root.children[0]), None);
    assert_eq!(id_of(&root.children[1]), None);
}

#[test]
fn nested_headings_are_reached() {
    let mut inner = AstNode::new(NodeType::Heading(3));
    inner.add_children(AstNode::new(NodeType::Text("Deep One".to_string())));
    let mut middle = AstNode::new(NodeType::Bold);
    middle.add_children(inner);
    let mut root = create_root_node();
    root.add_children(middle);
    AstTransformer::add_heading_unique_id(&mut root);
    assert_eq!(id_of(&root.children[0].children[0]), Some("deep one"));
}

#[test]
fn heading_pass_twice_is_the_pass_once() {
    let mut tree = MdParser::parse("# One\ntext\n## Two, three!\n`c` x\n### ---");
    AstTransformer::add_heading_unique_id(&mut tree);
    let once = snapshot(&tree);
    AstTransformer::add_heading_unique_id(&mut tree);
    assert_eq!(snapshot(&tree), once);
}

#[test]
fn checked_entry_point_gives_the_same_tree() {
    let document = "# Hello\nSome **bold** text\n";
    let checked = checked_parse_md_with_heading_ids(document).expect("patterns compile");
    assert_eq!(snapshot(&checked), snapshot(&parse_md_with_heading_ids(document)));
}

#[test]
fn end_to_end() {
    let tree = parse_md_with_heading_ids("# Hello\nSome **bold** text\n");
    assert_eq!(tree.node_type, NodeType::Root);
    assert_eq!(tree.children.len(), 2);

    let heading = &tree.children[0];
    assert_eq!(heading.node_type, NodeType::Heading(1));
    assert_eq!(heading.children.len(), 1);
    assert_eq!(heading.children[0].node_type, NodeType::Text("Hello".to_string()));
    assert_eq!(id_of(heading), Some("hello"));
    assert_eq!(heading.props.len(), 1);

    let bold = &tree.children[1];
    assert_eq!(bold.node_type, NodeType::Bold);
    assert_eq!(bold.children.len(), 1);
    assert_eq!(bold.children[0].node_type, NodeType::Text("bold".to_string()));
    assert!(bold.props.is_empty());
}

struct Numbering {
    seen: RefCell<Vec<String>>,
}

impl NodeVisitor for Numbering {
    fn attributes_after(
        &self,
        _node: NodeView,
    ) -> vstd::map::Map<vstd::seq::Seq<char>, vstd::seq::Seq<char>> {
        unreachable!()
    }

    fn visit(&self, node: &mut AstNode) {
        let mut seen = self.seen.borrow_mut();
        node.add_props("order", &seen.len().to_string());
        seen.push(format!("{:?}", node.node_type));
    }
}

#[test]
fn traverse_visits_parents_before_children_in_order() {
    let mut tree = MdParser::parse("# A\nb\n**c**");
    let numbering = Numbering { seen: RefCell::new(Vec::new()) };
    AstTransformer::traverse(&mut tree, &numbering);
    assert_eq!(
        numbering.seen.into_inner(),
        vec![
            "Root".to_string(),
            "Heading(1)".to_string(),
            "Text(\"A\")".to_string(),
            "Text(\"b\")".to_string(),
            "Bold".to_string(),
            "Text(\"c\")".to_string(),
        ]
    );
    assert_eq!(tree.props.get("order").map(|v| v.as_str()), Some("0"));
    assert_eq!(tree.children[0].props.get("order").map(|v| v.as_str()), Some("1"));
    assert_eq!(tree.children[0].children[0].props.get("order").map(|v| v.as_str()), Some("2"));
    assert_eq!(tree.children[1].props.get("order").map(|v| v.as_str()), Some("3"));
    assert_eq!(tree.children[2].children[0].props.get("order").map(|v| v.as_str()), Some("5"));
    assert_eq!(tree.children.len(), 3);
}

#[test]
fn traverse_with_heading_ids_is_the_heading_pass() {
    let mut walked = MdParser::parse("# One\n## Two");
    let mut passed = walked.clone();
    AstTransformer::traverse(&mut walked, &HeadingIds);
    AstTransformer::add_heading_unique_id(&mut passed);
    assert_eq!(snapshot(&walked), snapshot(&passed));
}
