//! A small Markdown dialect, parsed line by line into a typed tree.
//!
//! `MdParser` classifies each non-blank line of a document as a heading, an
//! emphasis node, a code node or text, after offering it to the rules of a
//! `PluginManager` where one is given. `AstTransformer` walks the tree and
//! gives each heading an `id`. Every function states what it returns over
//! the views in `ast`.

pub mod ast;
pub mod parser;
pub mod pattern;
pub mod plugin;
pub mod plugins;
pub mod text;
pub mod transformer;

pub use ast::{create_root_node, AstNode, Attributes, NodeType};
pub use parser::MdParser;
pub use plugin::{PluginManager, SyntaxPlugin};
pub use plugins::warning_plugin::WarningPlugin;
pub use transformer::AstTransformer;

use ast::node_option_view;
use parser::{builtin_patterns_compile, document_view};
use transformer::with_heading_ids;
use vstd::prelude::*;

verus! {

/// Parses a document in basic mode and gives its headings their `id`s.
pub fn parse_md_with_heading_ids(md_content: &str) -> (tree: AstNode)
    requires
        builtin_patterns_compile(),
    ensures
        tree@ == with_heading_ids(document_view(md_content@)),
{
    let mut tree = MdParser::parse(md_content);
    AstTransformer::add_heading_unique_id(&mut tree);
    tree
}

/// `parse_md_with_heading_ids` for a caller that has not checked the
/// built-in patterns: the tree, or `None` where the pattern engine refuses
/// one of them.
pub fn checked_parse_md_with_heading_ids(md_content: &str) -> (tree: Option<AstNode>)
    ensures
        builtin_patterns_compile() ==> node_option_view(tree) == Some(
            with_heading_ids(document_view(md_content@)),
        ),
        !builtin_patterns_compile() ==> tree is None,
{
    if MdParser::patterns_compile() {
        Some(parse_md_with_heading_ids(md_content))
    } else {
        None
    }
}

} // verus!
