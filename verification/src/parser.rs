//! The classification engine: a document becomes a tree with one child of
//! the root for each non-blank line.

use crate::ast::{create_root_node, node_option_view, AstNode, KindView, NodeType, NodeView};
use crate::pattern::{
    captures_view, compiles, first_captures, group_at, group_text, regex_captures,
    regex_compiles,
};
use crate::plugin::{registry_output, PluginManager, SyntaxPlugin};
use crate::text::{
    chars_of, content_lines, content_lines_of, leading, lemma_skip_leading_found,
    non_blank_lines, string_views, trim,
};
use vstd::prelude::*;

verus! {

/// A heading: markers at the start of the line, whitespace, then the title
/// (group 1).
pub const HEADING_PATTERN: &'static str = "^#+\\s+(.*)$";

/// An emphasis span anywhere in the line; group 1 is what it encloses.
pub const BOLD_PATTERN: &'static str = "\\*\\*(.*?)\\*\\*";

/// A code span anywhere in the line. Between the backticks stand the
/// language tag (group 1: the word the span opens with, which may be empty)
/// and, after optional whitespace, the code (group 2).
pub const CODE_PATTERN: &'static str = "`(\\w*)\\s*(.*?)`";

/// The character that marks a heading.
pub const HEADING_MARKER: char = '#';

/// The attribute in which a code node repeats its language.
pub const LANGUAGE_KEY: &'static str = "language";

/// The three built-in patterns are accepted by the pattern engine.
pub open spec fn builtin_patterns_compile() -> bool {
    &&& regex_compiles(HEADING_PATTERN@)
    &&& regex_compiles(BOLD_PATTERN@)
    &&& regex_compiles(CODE_PATTERN@)
}

/// A text leaf.
pub open spec fn text_view(content: Seq<char>) -> NodeView {
    NodeView { kind: KindView::Text(content), attributes: Map::empty(), children: Seq::empty() }
}

/// A heading with its title as its one child.
pub open spec fn heading_view(level: u8, title: Seq<char>) -> NodeView {
    NodeView {
        kind: KindView::Heading(level),
        attributes: Map::empty(),
        children: seq![text_view(title)],
    }
}

/// An emphasis node with the emphasised text as its one child.
pub open spec fn bold_view(content: Seq<char>) -> NodeView {
    NodeView { kind: KindView::Bold, attributes: Map::empty(), children: seq![text_view(content)] }
}

/// A code node: the language is its payload and its `language` attribute,
/// the code its one child.
pub open spec fn code_view(language: Seq<char>, content: Seq<char>) -> NodeView {
    NodeView {
        kind: KindView::Code(language),
        attributes: Map::empty().insert(LANGUAGE_KEY@, language),
        children: seq![text_view(content)],
    }
}

/// The number of heading markers at the start of a line.
pub open spec fn leading_markers(line: Seq<char>) -> nat {
    leading(line, |c: char| c == HEADING_MARKER)
}

/// The level of a heading line: the number of its leading markers, as far
/// as a `u8` holds it (it wraps at 256).
pub open spec fn heading_level(line: Seq<char>) -> u8 {
    (leading_markers(line) % 256) as u8
}

/// The heading that a line is, given what the heading pattern found in it.
pub open spec fn heading_of(line: Seq<char>, found: Option<Seq<Option<Seq<char>>>>) -> Option<
    NodeView,
> {
    match group_at(found, 1) {
        Some(title) => Some(heading_view(heading_level(line), title)),
        None => None,
    }
}

/// The emphasis node for what the bold pattern found.
pub open spec fn bold_of(found: Option<Seq<Option<Seq<char>>>>) -> Option<NodeView> {
    match group_at(found, 1) {
        Some(content) => Some(bold_view(content)),
        None => None,
    }
}

/// The code node for what the code pattern found: language and code come
/// from two groups of one match.
pub open spec fn code_of(found: Option<Seq<Option<Seq<char>>>>) -> Option<NodeView> {
    match (group_at(found, 1), group_at(found, 2)) {
        (Some(language), Some(content)) => Some(code_view(language, content)),
        _ => None,
    }
}

/// The node that the built-in rules make of a trimmed line: a heading, else
/// an emphasis node, else a code node, else the line as text.
pub open spec fn classify(line: Seq<char>) -> NodeView {
    match heading_of(line, regex_captures(HEADING_PATTERN@, line)) {
        Some(heading) => heading,
        None => match bold_of(regex_captures(BOLD_PATTERN@, line)) {
            Some(bold) => bold,
            None => match code_of(regex_captures(CODE_PATTERN@, line)) {
                Some(code) => code,
                None => text_view(line),
            },
        },
    }
}

/// The node for a line of `document` when rules are registered: what the
/// registry answers, and the built-in classification where it answers
/// nothing.
pub open spec fn classify_with(
    plugins: Seq<Box<dyn SyntaxPlugin>>,
    line: Seq<char>,
    document: Seq<char>,
) -> NodeView {
    match registry_output(plugins, line, document) {
        Some(node) => node,
        None => classify(line),
    }
}

/// The root node over the given children.
pub open spec fn root_view(children: Seq<NodeView>) -> NodeView {
    NodeView { kind: KindView::Root, attributes: Map::empty(), children }
}

/// The tree of a document: a root whose children are its classified
/// content lines, in order.
pub open spec fn document_view(document: Seq<char>) -> NodeView {
    root_view(content_lines(document).map_values(|line: Seq<char>| classify(line)))
}

/// The tree of a document when rules are registered.
pub open spec fn document_view_with(
    plugins: Seq<Box<dyn SyntaxPlugin>>,
    document: Seq<char>,
) -> NodeView {
    root_view(
        content_lines(document).map_values(
            |line: Seq<char>| classify_with(plugins, line, document),
        ),
    )
}

/// Basic mode makes a root with one child for each non-blank line of the
/// document, in the order of the lines: the child is the classification of
/// the trimmed line.
pub proof fn lemma_one_child_per_line(document: Seq<char>)
    ensures
        document_view(document).kind == KindView::Root,
        document_view(document).children.len() == non_blank_lines(document).len(),
        forall|i: int|
            0 <= i < non_blank_lines(document).len() ==> #[trigger] document_view(
                document,
            ).children[i] == classify(trim(non_blank_lines(document)[i])),
{
}

/// With an empty registry, extensible mode is basic mode.
pub proof fn lemma_empty_registry_is_basic_mode(
    plugins: Seq<Box<dyn SyntaxPlugin>>,
    document: Seq<char>,
)
    requires
        plugins.len() == 0,
    ensures
        document_view_with(plugins, document) == document_view(document),
{
    assert(document_view_with(plugins, document).children =~= document_view(document).children);
}

/// A line that opens with `markers` heading markers, followed by anything
/// that does not itself open with a marker, has `markers` leading markers:
/// the count does not depend on the title.
pub proof fn lemma_leading_markers(markers: nat, rest: Seq<char>)
    requires
        rest.len() == 0 || rest[0] != HEADING_MARKER,
    ensures
        leading_markers(Seq::new(markers, |i: int| HEADING_MARKER) + rest) == markers,
{
    let line = Seq::new(markers, |i: int| HEADING_MARKER) + rest;
    lemma_skip_leading_found(line, |c: char| c == HEADING_MARKER, markers as int);
}

/// The level of a heading is the number of markers its line opens with,
/// for every count that a `u8` holds.
pub proof fn lemma_heading_level_counts_markers(line: Seq<char>)
    requires
        classify(line).kind is Heading,
        leading_markers(line) <= u8::MAX,
    ensures
        classify(line).kind == KindView::Heading(leading_markers(line) as u8),
{
}

/// A line that is no heading and holds no emphasis span, and in which the
/// code pattern finds a language and a code, becomes a code node: the
/// language is its payload and its `language` attribute, and its one child
/// is the code as text.
pub proof fn lemma_code_line(line: Seq<char>, language: Seq<char>, content: Seq<char>)
    requires
        heading_of(line, regex_captures(HEADING_PATTERN@, line)) is None,
        bold_of(regex_captures(BOLD_PATTERN@, line)) is None,
        group_at(regex_captures(CODE_PATTERN@, line), 1) == Some(language),
        group_at(regex_captures(CODE_PATTERN@, line), 2) == Some(content),
    ensures
        classify(line).kind == KindView::Code(language),
        classify(line).attributes.contains_key(LANGUAGE_KEY@),
        classify(line).attributes[LANGUAGE_KEY@] == language,
        classify(line).children == seq![text_view(content)],
{
}

/// What the built-in rules make of a line is never a root and has at most
/// one child, which is a text leaf; a text node has no child.
pub proof fn lemma_classified_node_is_flat(line: Seq<char>)
    ensures
        !(classify(line).kind is Root),
        classify(line).children.len() <= 1,
        classify(line).kind is Text ==> classify(line).children.len() == 0,
        forall|i: int|
            0 <= i < classify(line).children.len() ==> {
                &&& (#[trigger] classify(line).children[i]).kind is Text
                &&& classify(line).children[i].children.len() == 0
            },
{
}

/// The tree of basic mode has its one root at the top; below it stand
/// the classified lines, none of them a root, each with at most one child,
/// and that child a text leaf.
pub proof fn lemma_basic_tree_is_shallow(document: Seq<char>)
    ensures
        document_view(document).kind is Root,
        forall|i: int|
            0 <= i < document_view(document).children.len() ==> {
                let child = #[trigger] document_view(document).children[i];
                &&& !(child.kind is Root)
                &&& child.children.len() <= 1
                &&& child.children.len() == 1 ==> child.children[0].kind is Text
                    && child.children[0].children.len() == 0
            },
{
    assert forall|i: int| 0 <= i < document_view(document).children.len() implies {
        let child = #[trigger] document_view(document).children[i];
        &&& !(child.kind is Root)
        &&& child.children.len() <= 1
        &&& child.children.len() == 1 ==> child.children[0].kind is Text
            && child.children[0].children.len() == 0
    } by {
        lemma_classified_node_is_flat(content_lines(document)[i]);
    }
}

/// A text leaf that holds `content`.
pub fn text_node(content: String) -> (node: AstNode)
    ensures
        node@ == text_view(content@),
{
    AstNode::new(NodeType::Text(content))
}

/// A heading of the given level whose one child is the title.
pub fn heading_node(level: u8, title: String) -> (node: AstNode)
    ensures
        node@ == heading_view(level, title@),
{
    let mut node = AstNode::new(NodeType::Heading(level));
    node.add_children(text_node(title));
    node
}

/// An emphasis node whose one child is the emphasised text.
pub fn bold_node(content: String) -> (node: AstNode)
    ensures
        node@ == bold_view(content@),
{
    let mut node = AstNode::new(NodeType::Bold);
    node.add_children(text_node(content));
    node
}

/// A code node for `language` whose one child is the code.
pub fn code_node(language: String, content: String) -> (node: AstNode)
    ensures
        node@ == code_view(language@, content@),
{
    let mut node = AstNode::new(NodeType::Code(language.clone()));
    node.add_props(LANGUAGE_KEY, language.as_str());
    node.add_children(text_node(content));
    node
}

/// Counts the heading markers at the start of a line.
pub fn heading_level_of(line: &str) -> (level: u8)
    ensures
        level == heading_level(line@),
{
    let chars = chars_of(line);
    let mut level: u8 = 0;
    let mut i: usize = 0;
    while i < chars.len() && chars[i] == HEADING_MARKER
        invariant
            i <= chars@.len(),
            level == i % 256,
            forall|j: int| 0 <= j < i ==> #[trigger] chars@[j] == HEADING_MARKER,
        decreases chars@.len() - i,
    {
        level = if level == 255 { 0 } else { level + 1 };
        i += 1;
    }
    proof {
        lemma_skip_leading_found(chars@, |c: char| c == HEADING_MARKER, i as int);
    }
    level
}

/// The heading that a line is, given what the heading pattern found in it.
pub fn heading_from_captures(line: &str, found: &Option<Vec<Option<String>>>) -> (node: Option<
    AstNode,
>)
    ensures
        node_option_view(node) == heading_of(line@, captures_view(*found)),
{
    match group_text(found, 1) {
        Some(title) => Some(heading_node(heading_level_of(line), title)),
        None => None,
    }
}

/// The emphasis node for what the bold pattern found.
pub fn bold_from_captures(found: &Option<Vec<Option<String>>>) -> (node: Option<AstNode>)
    ensures
        node_option_view(node) == bold_of(captures_view(*found)),
{
    match group_text(found, 1) {
        Some(content) => Some(bold_node(content)),
        None => None,
    }
}

/// The code node for what the code pattern found.
pub fn code_from_captures(found: &Option<Vec<Option<String>>>) -> (node: Option<AstNode>)
    ensures
        node_option_view(node) == code_of(captures_view(*found)),
{
    match group_text(found, 1) {
        Some(language) => match group_text(found, 2) {
            Some(content) => Some(code_node(language, content)),
            None => None,
        },
        None => None,
    }
}

/// Classifies one trimmed line by the built-in rules, in their order of
/// priority. Every line gets a node: what no pattern matches is text.
pub fn classify_line(line: &str) -> (node: AstNode)
    requires
        builtin_patterns_compile(),
    ensures
        node@ == classify(line@),
{
    let heading = heading_from_captures(line, &first_captures(HEADING_PATTERN, line));
    if let Some(node) = heading {
        return node;
    }
    let bold = bold_from_captures(&first_captures(BOLD_PATTERN, line));
    if let Some(node) = bold {
        return node;
    }
    let code = code_from_captures(&first_captures(CODE_PATTERN, line));
    if let Some(node) = code {
        return node;
    }
    text_node(line.to_owned())
}

/// The parsing entry points.
pub struct MdParser;

impl MdParser {
    /// Whether the pattern engine accepts the built-in patterns.
    pub fn patterns_compile() -> (ok: bool)
        ensures
            ok == builtin_patterns_compile(),
    {
        compiles(HEADING_PATTERN) && compiles(BOLD_PATTERN) && compiles(CODE_PATTERN)
    }

    /// Basic mode: the tree of `md_content` under the built-in rules.
    pub fn parse(md_content: &str) -> (root: AstNode)
        requires
            builtin_patterns_compile(),
        ensures
            root@ == document_view(md_content@),
    {
        let lines = content_lines_of(md_content);
        let ghost classified = |line: Seq<char>| classify(line);
        let mut root = create_root_node();
        let mut i: usize = 0;
        proof {
            assert(string_views(lines@).take(0).map_values(classified) =~= Seq::empty());
        }
        while i < lines.len()
            invariant
                i <= lines@.len(),
                builtin_patterns_compile(),
                classified == (|line: Seq<char>| classify(line)),
                root@ == root_view(string_views(lines@).take(i as int).map_values(classified)),
            decreases lines@.len() - i,
        {
            let node = classify_line(lines[i].as_str());
            root.add_children(node);
            proof {
                assert(string_views(lines@).take(i + 1).map_values(classified) =~= string_views(
                    lines@,
                ).take(i as int).map_values(classified).push(node@));
            }
            i += 1;
        }
        proof {
            assert(string_views(lines@).take(lines@.len() as int) =~= string_views(lines@));
        }
        root
    }

    /// Extensible mode: each line is first offered to the registry; the
    /// built-in rules classify the lines that no registered rule makes a node
    /// of.
    pub fn parse_with_plugin(md_content: &str, plugin_manager: &PluginManager) -> (root: AstNode)
        requires
            builtin_patterns_compile(),
        ensures
            root@ == document_view_with(plugin_manager@, md_content@),
    {
        let lines = content_lines_of(md_content);
        let ghost classified = |line: Seq<char>|
            classify_with(plugin_manager@, line, md_content@);
        let mut root = create_root_node();
        let mut i: usize = 0;
        proof {
            assert(string_views(lines@).take(0).map_values(classified) =~= Seq::empty());
        }
        while i < lines.len()
            invariant
                i <= lines@.len(),
                builtin_patterns_compile(),
                classified == (|line: Seq<char>| classify_with(plugin_manager@, line, md_content@)),
                root@ == root_view(string_views(lines@).take(i as int).map_values(classified)),
            decreases lines@.len() - i,
        {
            let line = lines[i].as_str();
            let node = match plugin_manager.try_parse(line, md_content) {
                Some(claimed) => claimed,
                None => classify_line(line),
            };
            root.add_children(node);
            proof {
                assert(string_views(lines@).take(i + 1).map_values(classified) =~= string_views(
                    lines@,
                ).take(i as int).map_values(classified).push(node@));
            }
            i += 1;
        }
        proof {
            assert(string_views(lines@).take(lines@.len() as int) =~= string_views(lines@));
        }
        root
    }

    /// Basic mode for a caller that has not checked the built-in patterns:
    /// the tree, or `None` where the pattern engine refuses one of them.
    pub fn checked_parse(md_content: &str) -> (root: Option<AstNode>)
        ensures
            builtin_patterns_compile() ==> node_option_view(root) == Some(
                document_view(md_content@),
            ),
            !builtin_patterns_compile() ==> root is None,
    {
        if Self::patterns_compile() {
            Some(Self::parse(md_content))
        } else {
            None
        }
    }

    /// Extensible mode for a caller that has not checked the built-in
    /// patterns: the tree, or `None` where the pattern engine refuses one of
    /// them.
    pub fn checked_parse_with_plugin(md_content: &str, plugin_manager: &PluginManager) -> (root:
        Option<AstNode>)
        ensures
            builtin_patterns_compile() ==> node_option_view(root) == Some(
                document_view_with(plugin_manager@, md_content@),
            ),
            !builtin_patterns_compile() ==> root is None,
    {
        if Self::patterns_compile() {
            Some(Self::parse_with_plugin(md_content, plugin_manager))
        } else {
            None
        }
    }
}

} // verus!
