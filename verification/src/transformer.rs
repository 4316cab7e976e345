//! The tree transformer: a pre-order walk that lets a visitor set
//! attributes, and the pass that gives every heading an `id`.

use crate::ast::{AstNode, KindView, NodeType, NodeView};
use crate::text::{
    char_is_alphanumeric, chars_of, leading, lemma_skip_leading_found,
    lemma_skip_trailing_found, lemma_trimmed_ends_are_kept, str_to_lowercase, string_of,
    trim_matching,
};
use vstd::prelude::*;

verus! {

/// What stands for a character that a slug cannot hold, and what is
/// trimmed from its ends.
pub const HYPHEN: char = '-';

/// The attribute that holds a heading's identifier.
pub const ID_KEY: &'static str = "id";

/// `s` with a hyphen in place of every character that is neither
/// alphanumeric nor a space.
pub open spec fn hyphenate(s: Seq<char>) -> Seq<char> {
    s.map_values(
        |c: char|
            if !char_is_alphanumeric(c) && c != ' ' {
                HYPHEN
            } else {
                c
            },
    )
}

/// `s` with each pair of adjacent hyphens replaced by one hyphen, the pairs
/// taken from left to right without overlap. One pass: three hyphens in a row
/// become two.
pub open spec fn collapse_pairs(s: Seq<char>) -> Seq<char>
    decreases s.len(),
{
    if s.len() >= 2 && s[0] == HYPHEN && s[1] == HYPHEN {
        seq![HYPHEN] + collapse_pairs(s.skip(2))
    } else if s.len() >= 1 {
        seq![s[0]] + collapse_pairs(s.skip(1))
    } else {
        s
    }
}

/// `s` without leading and trailing hyphens.
pub open spec fn trim_hyphens(s: Seq<char>) -> Seq<char> {
    trim_matching(s, |c: char| c == HYPHEN)
}

/// The identifier derived from a heading's text: lowercase, hyphens for
/// what is neither alphanumeric nor a space, pairs of hyphens collapsed
/// once, hyphens trimmed from both ends.
pub open spec fn slug(text: Seq<char>) -> Seq<char> {
    trim_hyphens(collapse_pairs(hyphenate(str_to_lowercase(text))))
}

/// A text without two adjacent hyphens is left as it is.
pub proof fn lemma_collapse_without_pairs(s: Seq<char>)
    requires
        forall|i: int| 0 <= i < s.len() - 1 ==> !(#[trigger] s[i] == HYPHEN && s[i + 1] == HYPHEN),
    ensures
        collapse_pairs(s) == s,
    decreases s.len(),
{
    if s.len() >= 1 {
        let tail = s.skip(1);
        if s.len() >= 2 {
            assert(!(s[0] == HYPHEN && s[1] == HYPHEN));
        }
        assert forall|i: int| 0 <= i < tail.len() - 1 implies !(#[trigger] tail[i] == HYPHEN
            && tail[i + 1] == HYPHEN) by {
            assert(tail[i] == s[i + 1] && tail[i + 1] == s[i + 2]);
        }
        lemma_collapse_without_pairs(tail);
        assert(seq![s[0]] + tail =~= s);
    }
}

/// A slug neither starts nor ends with a hyphen.
pub proof fn lemma_slug_has_no_outer_hyphen(text: Seq<char>)
    ensures
        slug(text).len() > 0 ==> slug(text)[0] != HYPHEN && slug(text).last() != HYPHEN,
{
    lemma_trimmed_ends_are_kept(
        collapse_pairs(hyphenate(str_to_lowercase(text))),
        |c: char| c == HYPHEN,
    );
}

/// Puts a hyphen in place of every character that is neither alphanumeric
/// nor a space.
pub fn hyphenated(chars: &Vec<char>) -> (out: Vec<char>)
    ensures
        out@ == hyphenate(chars@),
{
    let mut out: Vec<char> = Vec::new();
    let mut i: usize = 0;
    while i < chars.len()
        invariant
            i <= chars@.len(),
            out@ == hyphenate(chars@.take(i as int)),
        decreases chars@.len() - i,
    {
        let c = chars[i];
        let kept = if !c.is_alphanumeric() && c != ' ' {
            HYPHEN
        } else {
            c
        };
        proof {
            assert(chars@.take(i + 1) =~= chars@.take(i as int).push(c));
            assert(hyphenate(chars@.take(i + 1)) =~= hyphenate(chars@.take(i as int)).push(kept));
        }
        out.push(kept);
        i += 1;
    }
    proof {
        assert(chars@.take(chars@.len() as int) =~= chars@);
    }
    out
}

/// Replaces each pair of adjacent hyphens by one, in one pass from the
/// left.
pub fn collapsed(chars: &Vec<char>) -> (out: Vec<char>)
    ensures
        out@ == collapse_pairs(chars@),
{
    let mut out: Vec<char> = Vec::new();
    let mut i: usize = 0;
    proof {
        assert(chars@.skip(0) =~= chars@);
    }
    while i < chars.len()
        invariant
            i <= chars@.len(),
            out@ + collapse_pairs(chars@.skip(i as int)) == collapse_pairs(chars@),
        decreases chars@.len() - i,
    {
        let ghost rest = chars@.skip(i as int);
        if chars[i] == HYPHEN && i + 1 < chars.len() && chars[i + 1] == HYPHEN {
            proof {
                assert(rest.skip(2) =~= chars@.skip(i + 2));
                assert(out@.push(HYPHEN) + collapse_pairs(rest.skip(2)) =~= out@ + (seq![HYPHEN]
                    + collapse_pairs(rest.skip(2))));
            }
            out.push(HYPHEN);
            i += 2;
        } else {
            proof {
                assert(rest.skip(1) =~= chars@.skip(i + 1));
                assert(out@.push(rest[0]) + collapse_pairs(rest.skip(1)) =~= out@ + (seq![rest[0]]
                    + collapse_pairs(rest.skip(1))));
            }
            out.push(chars[i]);
            i += 1;
        }
    }
    out
}

/// The bounds of `chars` without its leading and trailing hyphens.
pub fn hyphen_bounds(chars: &Vec<char>) -> (bounds: (usize, usize))
    ensures
        bounds.0 <= bounds.1 <= chars@.len(),
        bounds.0 == leading(chars@, |c: char| c == HYPHEN),
        chars@.subrange(bounds.0 as int, bounds.1 as int) == trim_hyphens(chars@),
{
    let ghost strip = |c: char| c == HYPHEN;
    let n = chars.len();
    let mut a: usize = 0;
    while a < n && chars[a] == HYPHEN
        invariant
            a <= n == chars@.len(),
            forall|i: int| 0 <= i < a ==> #[trigger] chars@[i] == HYPHEN,
        decreases n - a,
    {
        a += 1;
    }
    let mut b: usize = n;
    while b > a && chars[b - 1] == HYPHEN
        invariant
            a <= b <= n == chars@.len(),
            forall|i: int| b <= i < n ==> #[trigger] chars@[i] == HYPHEN,
        decreases b - a,
    {
        b -= 1;
    }
    proof {
        lemma_skip_leading_found(chars@, strip, a as int);
        let rest = chars@.skip(a as int);
        assert forall|i: int| b - a <= i < rest.len() implies strip(#[trigger] rest[i]) by {
            assert(rest[i] == chars@[a + i]);
        }
        lemma_skip_trailing_found(rest, strip, b - a);
        assert(rest.take(b - a) =~= chars@.subrange(a as int, b as int));
    }
    (a, b)
}

/// Derives the identifier of a heading from its text.
pub fn slug_of(text: &str) -> (id: String)
    ensures
        id@ == slug(text@),
{
    let lower = text.to_lowercase();
    let chars = chars_of(lower.as_str());
    let marked = hyphenated(&chars);
    let merged = collapsed(&marked);
    let (a, b) = hyphen_bounds(&merged);
    string_of(&merged, a, b)
}

/// What is called on each node of a walk. A visitor may set attributes of
/// the node it is handed, and nothing else: the kind and the children stay,
/// and no attribute is taken away.
///
/// `attributes_after` says which attributes the node has after the visit;
/// `visit` brings exactly that about. An implementation that Verus does not
/// check must keep to this on its own account.
pub trait NodeVisitor {
    /// The attributes of `node` after the visit.
    spec fn attributes_after(&self, node: NodeView) -> Map<Seq<char>, Seq<char>>;

    fn visit(&self, node: &mut AstNode)
        ensures
            final(node)@ == (NodeView {
                attributes: self.attributes_after(old(node)@),
                ..old(node)@
            }),
            old(node)@.attributes.dom().subset_of(final(node)@.attributes.dom()),
    ;
}

/// The tree after a walk: every node has the attributes that the visitor
/// gives it when it sees the node before any of its children was visited.
pub open spec fn traversed<V: NodeVisitor>(visitor: &V, node: NodeView) -> NodeView
    decreases node,
{
    NodeView {
        kind: node.kind,
        attributes: visitor.attributes_after(node),
        children: Seq::new(
            node.children.len(),
            |i: int|
                if 0 <= i < node.children.len() {
                    traversed(visitor, node.children[i])
                } else {
                    arbitrary()
                },
        ),
    }
}

/// Two trees have the same nodes in the same places: equal kinds, and
/// children that correspond one to one in order.
pub open spec fn same_shape(a: NodeView, b: NodeView) -> bool
    decreases a,
{
    &&& a.kind == b.kind
    &&& a.children.len() == b.children.len()
    &&& forall|i: int| 0 <= i < a.children.len() ==> same_shape(a.children[i], b.children[i])
}

/// A walk inserts, removes and reorders no node.
pub proof fn lemma_traverse_keeps_shape<V: NodeVisitor>(visitor: &V, node: NodeView)
    ensures
        same_shape(node, traversed(visitor, node)),
    decreases node,
{
    assert forall|i: int| 0 <= i < node.children.len() implies same_shape(
        node.children[i],
        traversed(visitor, node).children[i],
    ) by {
        lemma_traverse_keeps_shape(visitor, node.children[i]);
    }
}

/// The attributes of a node after the heading pass: a heading whose first
/// child is text gets the slug of that text as its `id`; every other node
/// keeps its attributes.
pub open spec fn heading_id_attributes(node: NodeView) -> Map<Seq<char>, Seq<char>> {
    match node.kind {
        KindView::Heading(_) => if node.children.len() > 0 {
            match node.children[0].kind {
                KindView::Text(content) => node.attributes.insert(ID_KEY@, slug(content)),
                _ => node.attributes,
            }
        } else {
            node.attributes
        },
        _ => node.attributes,
    }
}

/// The heading pass sets `id` and nothing else: every other key keeps its
/// value, and no key is lost.
pub proof fn lemma_heading_pass_sets_only_ids(node: NodeView, key: Seq<char>)
    ensures
        node.attributes.contains_key(key) ==> heading_id_attributes(node).contains_key(key),
        key != ID_KEY@ ==> (heading_id_attributes(node).contains_key(key)
            <==> node.attributes.contains_key(key)),
        key != ID_KEY@ && node.attributes.contains_key(key) ==> heading_id_attributes(node)[key]
            == node.attributes[key],
{
}

/// The tree after the heading pass.
pub open spec fn with_heading_ids(node: NodeView) -> NodeView
    decreases node,
{
    NodeView {
        kind: node.kind,
        attributes: heading_id_attributes(node),
        children: Seq::new(
            node.children.len(),
            |i: int|
                if 0 <= i < node.children.len() {
                    with_heading_ids(node.children[i])
                } else {
                    arbitrary()
                },
        ),
    }
}

/// The heading pass is idempotent: a second run leaves every node as the
/// first run left it.
pub proof fn lemma_heading_ids_idempotent(node: NodeView)
    ensures
        with_heading_ids(with_heading_ids(node)) == with_heading_ids(node),
    decreases node,
{
    let once = with_heading_ids(node);
    let twice = with_heading_ids(once);
    if node.children.len() > 0 {
        assert(once.children[0] == with_heading_ids(node.children[0]));
        assert(once.children[0].kind == node.children[0].kind);
    }
    assert(twice.attributes =~= once.attributes);
    assert forall|i: int| 0 <= i < once.children.len() implies twice.children[i]
        == once.children[i] by {
        lemma_heading_ids_idempotent(node.children[i]);
    }
    assert(twice.children =~= once.children);
}

/// The visitor of the heading pass.
pub struct HeadingIds;

impl NodeVisitor for HeadingIds {
    open spec fn attributes_after(&self, node: NodeView) -> Map<Seq<char>, Seq<char>> {
        heading_id_attributes(node)
    }

    fn visit(&self, node: &mut AstNode) {
        if let NodeType::Heading(_) = &node.node_type {
            if node.children.len() > 0 {
                proof {
                    assert(node@.children[0] == node.children@[0]@);
                    assert(node.children@[0]@.kind == node.children@[0].node_type@);
                }
                if let NodeType::Text(content) = &node.children[0].node_type {
                    let id = slug_of(content.as_str());
                    node.add_props(ID_KEY, id.as_str());
                }
            }
        }
    }
}

/// The heading pass is the walk with `HeadingIds` as its visitor.
pub proof fn lemma_heading_pass_is_walk(node: NodeView)
    ensures
        traversed(&HeadingIds, node) == with_heading_ids(node),
    decreases node,
{
    assert forall|i: int| 0 <= i < node.children.len() implies traversed(
        &HeadingIds,
        node,
    ).children[i] == with_heading_ids(node).children[i] by {
        lemma_heading_pass_is_walk(node.children[i]);
    }
    assert(traversed(&HeadingIds, node).children =~= with_heading_ids(node).children);
}

/// The tree passes.
pub struct AstTransformer;

impl AstTransformer {
    /// Walks the tree below `node` in pre-order: the visitor sees a node,
    /// then the walk goes through the node's children from first to last.
    pub fn traverse<V: NodeVisitor>(node: &mut AstNode, visitor: &V)
        ensures
            final(node)@ == traversed(visitor, old(node)@),
        decreases old(node)@,
    {
        let ghost before = old(node)@;
        visitor.visit(node);
        let n = node.children.len();
        let mut i: usize = 0;
        while i < n
            invariant
                i <= n,
                n == node.children@.len(),
                before == old(node)@,
                before.children.len() == n,
                node@.kind == before.kind,
                node@.attributes == visitor.attributes_after(before),
                forall|j: int| 0 <= j < i ==> #[trigger] node@.children[j] == traversed(
                    visitor,
                    before.children[j],
                ),
                forall|j: int| i <= j < n ==> #[trigger] node@.children[j] == before.children[j],
            decreases n - i,
        {
            let ghost entering = *node;
            proof {
                assert(entering@.children[i as int] == before.children[i as int]);
                assert(decreases_to!(before => before.children[i as int]));
            }
            Self::traverse(&mut node.children[i], visitor);
            proof {
                assert(node.children@[i as int]@ == traversed(visitor, before.children[i as int]));
                assert forall|j: int| 0 <= j < n && j != i implies #[trigger] node@.children[j]
                    == entering@.children[j] by {
                    assert(node.children@[j] == entering.children@[j]);
                }
            }
            i += 1;
        }
        proof {
            assert(node@.children =~= traversed(visitor, before).children);
        }
    }

    /// Gives every heading whose first child is text an `id` attribute:
    /// the slug of that text. Headings with the same text get the same
    /// `id`.
    pub fn add_heading_unique_id(root: &mut AstNode)
        ensures
            final(root)@ == with_heading_ids(old(root)@),
    {
        proof {
            lemma_heading_pass_is_walk(old(root)@);
        }
        Self::traverse(root, &HeadingIds);
    }
}

} // verus!
