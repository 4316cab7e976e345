//! Extensions: rules from outside the library that may claim a line before
//! the built-in rules see it, and the ordered registry that consults them.

use crate::ast::{node_option_view, AstNode, NodeView};
use vstd::prelude::*;

verus! {

/// A syntax rule supplied from outside.
///
/// A rule is a function of the line and the document: `matches_spec` and
/// `parse_spec` say what it answers, and the two executable methods return
/// exactly that. An implementation that Verus does not check must keep to
/// this on its own account; there the two `spec` members are never run and
/// may have any body.
pub trait SyntaxPlugin {
    /// Whether this rule claims `line` of the document `full_content`.
    spec fn matches_spec(&self, line: Seq<char>, full_content: Seq<char>) -> bool;

    /// The node this rule makes of `line`, if it makes one.
    spec fn parse_spec(&self, line: Seq<char>, full_content: Seq<char>) -> Option<NodeView>;

    /// A name for diagnostics.
    fn name(&self) -> &'static str;

    fn matches(&self, line: &str, full_content: &str) -> (claimed: bool)
        ensures
            claimed == self.matches_spec(line@, full_content@),
    ;

    fn parse(&self, line: &str, full_content: &str) -> (node: Option<AstNode>)
        ensures
            node_option_view(node) == self.parse_spec(line@, full_content@),
    ;
}

/// What a registry answers for a line: the output of the first rule, in
/// order of registration, that claims it. Rules behind that one have no
/// say, even where the first makes no node.
pub open spec fn registry_output(
    plugins: Seq<Box<dyn SyntaxPlugin>>,
    line: Seq<char>,
    full_content: Seq<char>,
) -> Option<NodeView>
    decreases plugins.len(),
{
    if plugins.len() == 0 {
        None
    } else if plugins[0].matches_spec(line, full_content) {
        plugins[0].parse_spec(line, full_content)
    } else {
        registry_output(plugins.skip(1), line, full_content)
    }
}

/// The earliest rule that claims a line decides the registry's answer.
pub proof fn lemma_earliest_claim_decides(
    plugins: Seq<Box<dyn SyntaxPlugin>>,
    index: int,
    line: Seq<char>,
    full_content: Seq<char>,
)
    requires
        0 <= index < plugins.len(),
        plugins[index].matches_spec(line, full_content),
        forall|k: int| 0 <= k < index ==> !(#[trigger] plugins[k]).matches_spec(line, full_content),
    ensures
        registry_output(plugins, line, full_content) == plugins[index].parse_spec(
            line,
            full_content,
        ),
    decreases index,
{
    if index > 0 {
        let rest = plugins.skip(1);
        assert(rest[index - 1] == plugins[index]);
        assert forall|k: int| 0 <= k < index - 1 implies !(#[trigger] rest[k]).matches_spec(
            line,
            full_content,
        ) by {
            assert(rest[k] == plugins[k + 1]);
        }
        lemma_earliest_claim_decides(rest, index - 1, line, full_content);
    }
}

/// Of two registered rules that both claim a line, the one registered first
/// gives the answer.
pub proof fn lemma_first_registered_wins(
    plugins: Seq<Box<dyn SyntaxPlugin>>,
    line: Seq<char>,
    full_content: Seq<char>,
)
    requires
        plugins.len() == 2,
        plugins[0].matches_spec(line, full_content),
        plugins[1].matches_spec(line, full_content),
    ensures
        registry_output(plugins, line, full_content) == plugins[0].parse_spec(line, full_content),
{
}

/// A registry in which no rule claims a line answers nothing.
pub proof fn lemma_unclaimed_line(
    plugins: Seq<Box<dyn SyntaxPlugin>>,
    line: Seq<char>,
    full_content: Seq<char>,
)
    requires
        forall|k: int| 0 <= k < plugins.len() ==> !(#[trigger] plugins[k]).matches_spec(
            line,
            full_content,
        ),
    ensures
        registry_output(plugins, line, full_content) is None,
    decreases plugins.len(),
{
    if plugins.len() > 0 {
        let rest = plugins.skip(1);
        assert forall|k: int| 0 <= k < rest.len() implies !(#[trigger] rest[k]).matches_spec(
            line,
            full_content,
        ) by {
            assert(rest[k] == plugins[k + 1]);
        }
        lemma_unclaimed_line(rest, line, full_content);
    }
}

/// The registry: rules in the order in which they were registered, which
/// is the order in which they are consulted.
pub struct PluginManager {
    plugins: Vec<Box<dyn SyntaxPlugin>>,
}

impl View for PluginManager {
    type V = Seq<Box<dyn SyntaxPlugin>>;

    closed spec fn view(&self) -> Seq<Box<dyn SyntaxPlugin>> {
        self.plugins@
    }
}

impl PluginManager {
    /// A registry without rules.
    pub fn new() -> (manager: Self)
        ensures
            manager@ == Seq::<Box<dyn SyntaxPlugin>>::empty(),
    {
        PluginManager { plugins: Vec::new() }
    }

    /// Registers `plugin` behind the rules that are there.
    pub fn register_plugin(&mut self, plugin: Box<dyn SyntaxPlugin>)
        ensures
            final(self)@ == old(self)@.push(plugin),
    {
        self.plugins.push(plugin);
    }

    /// Offers a line to the rules in order and returns what the first rule
    /// that claims it makes of it.
    pub fn try_parse(&self, line: &str, full_content: &str) -> (node: Option<AstNode>)
        ensures
            node_option_view(node) == registry_output(self@, line@, full_content@),
    {
        let mut i: usize = 0;
        proof {
            assert(self.plugins@.skip(0) =~= self.plugins@);
        }
        while i < self.plugins.len()
            invariant
                i <= self.plugins@.len(),
                registry_output(self.plugins@, line@, full_content@) == registry_output(
                    self.plugins@.skip(i as int),
                    line@,
                    full_content@,
                ),
            decreases self.plugins@.len() - i,
        {
            let ghost rest = self.plugins@.skip(i as int);
            proof {
                assert(rest[0] == self.plugins@[i as int]);
                assert(rest.skip(1) =~= self.plugins@.skip(i + 1));
            }
            if self.plugins[i].matches(line, full_content) {
                return self.plugins[i].parse(line, full_content);
            }
            i += 1;
        }
        None
    }
}

} // verus!
