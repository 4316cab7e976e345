//! The container block rule: a rule that looks at the whole document
//! rather than at the line it is offered.
//!
//! A block opens with `:::warning` and a title on one line, holds free text
//! on the lines that follow and closes with `:::` at the start of a line.

use crate::ast::{node_option_view, AstNode, KindView, NodeType, NodeView};
use crate::pattern::{
    captures_view, compiles, first_captures, group_at, group_text, has_match, regex_captures,
    regex_compiles,
};
use crate::plugin::SyntaxPlugin;
use vstd::prelude::*;

verus! {

/// A warning block: the title behind the opening marker (group 1), then the
/// content up to the closing marker (group 2).
pub const WARNING_PATTERN: &'static str = ":::warning\\s*(.*?)\\n([\\s\\S]*?)\\n:::";

/// The name under which the rule reports itself.
pub const WARNING_NAME: &'static str = "warning-plugin";

/// The text of the container node.
pub const WARNING_LABEL: &'static str = "Warning";

/// The attribute that tags the container.
pub const TYPE_KEY: &'static str = "type";

/// The value of the container's `type` attribute.
pub const WARNING_TYPE: &'static str = "warning";

/// The attribute that tells title and content apart.
pub const CLASS_KEY: &'static str = "class";

/// The `class` of the title node.
pub const TITLE_CLASS: &'static str = "warning-title";

/// The `class` of the content node.
pub const CONTENT_CLASS: &'static str = "warning-content";

/// A text node with a `class` attribute and no children.
pub open spec fn classed_text_view(content: Seq<char>, class: Seq<char>) -> NodeView {
    NodeView {
        kind: KindView::Text(content),
        attributes: Map::empty().insert(CLASS_KEY@, class),
        children: Seq::empty(),
    }
}

/// The node of a warning block: a container tagged `type=warning` over a
/// title node and a content node, in that order.
pub open spec fn warning_view(title: Seq<char>, content: Seq<char>) -> NodeView {
    NodeView {
        kind: KindView::Text(WARNING_LABEL@),
        attributes: Map::empty().insert(TYPE_KEY@, WARNING_TYPE@),
        children: seq![
            classed_text_view(title, TITLE_CLASS@),
            classed_text_view(content, CONTENT_CLASS@),
        ],
    }
}

/// The warning node for what the block pattern found in a document.
pub open spec fn warning_of(found: Option<Seq<Option<Seq<char>>>>) -> Option<NodeView> {
    match (group_at(found, 1), group_at(found, 2)) {
        (Some(title), Some(content)) => Some(warning_view(title, content)),
        _ => None,
    }
}

/// The node of a warning block with the given title and content.
pub fn warning_node(title: String, content: String) -> (node: AstNode)
    ensures
        node@ == warning_view(title@, content@),
{
    let mut node = AstNode::new(NodeType::Text(WARNING_LABEL.to_owned()));
    node.add_props(TYPE_KEY, WARNING_TYPE);
    let mut title_node = AstNode::new(NodeType::Text(title));
    title_node.add_props(CLASS_KEY, TITLE_CLASS);
    node.add_children(title_node);
    let mut content_node = AstNode::new(NodeType::Text(content));
    content_node.add_props(CLASS_KEY, CONTENT_CLASS);
    node.add_children(content_node);
    proof {
        assert(node@.children =~= warning_view(title@, content@).children);
    }
    node
}

/// The warning node for what the block pattern found in a document.
pub fn warning_from_captures(found: &Option<Vec<Option<String>>>) -> (node: Option<AstNode>)
    ensures
        node_option_view(node) == warning_of(captures_view(*found)),
{
    match group_text(found, 1) {
        Some(title) => match group_text(found, 2) {
            Some(content) => Some(warning_node(title, content)),
            None => None,
        },
        None => None,
    }
}

/// The container block rule. It holds the block pattern, which the pattern
/// engine has accepted.
pub struct WarningPlugin {
    pattern: String,
}

impl WarningPlugin {
    #[verifier::type_invariant]
    spec fn holds_accepted_pattern(&self) -> bool {
        &&& self.pattern@ == WARNING_PATTERN@
        &&& regex_compiles(WARNING_PATTERN@)
    }

    /// The pattern that the rule searches documents for.
    pub closed spec fn pattern(&self) -> Seq<char> {
        self.pattern@
    }

    /// Whether the pattern engine accepts the block pattern.
    pub fn pattern_compiles() -> (ok: bool)
        ensures
            ok == regex_compiles(WARNING_PATTERN@),
    {
        compiles(WARNING_PATTERN)
    }

    /// The rule, where the pattern engine accepts the block pattern.
    pub fn new() -> (plugin: Self)
        requires
            regex_compiles(WARNING_PATTERN@),
        ensures
            plugin.pattern() == WARNING_PATTERN@,
    {
        WarningPlugin { pattern: WARNING_PATTERN.to_owned() }
    }

    /// The rule, or `None` where the pattern engine refuses the block
    /// pattern.
    pub fn checked_new() -> (plugin: Option<Self>)
        ensures
            plugin is Some <==> regex_compiles(WARNING_PATTERN@),
            plugin matches Some(p) ==> p.pattern() == WARNING_PATTERN@,
    {
        if Self::pattern_compiles() {
            Some(Self::new())
        } else {
            None
        }
    }
}

impl SyntaxPlugin for WarningPlugin {
    /// The rule claims every line of a document that holds a warning block.
    open spec fn matches_spec(&self, line: Seq<char>, full_content: Seq<char>) -> bool {
        regex_captures(WARNING_PATTERN@, full_content) is Some
    }

    /// The node of the first warning block of the document.
    open spec fn parse_spec(&self, line: Seq<char>, full_content: Seq<char>) -> Option<NodeView> {
        warning_of(regex_captures(WARNING_PATTERN@, full_content))
    }

    fn name(&self) -> (name: &'static str)
        ensures
            name@ == WARNING_NAME@,
    {
        WARNING_NAME
    }

    fn matches(&self, line: &str, full_content: &str) -> (claimed: bool) {
        proof {
            use_type_invariant(self);
        }
        has_match(self.pattern.as_str(), full_content)
    }

    fn parse(&self, line: &str, full_content: &str) -> (node: Option<AstNode>) {
        proof {
            use_type_invariant(self);
        }
        warning_from_captures(&first_captures(self.pattern.as_str(), full_content))
    }
}

} // verus!
