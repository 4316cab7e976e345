//! The node model: the kinds of node, the attribute container and the tree
//! node itself, each with the mathematical view that contracts speak of.

use vstd::prelude::*;

verus! {

/// The syntactic category of a node, with the data that belongs to it.
#[derive(Debug, PartialEq, Eq)]
pub enum NodeType {
    Root,
    Heading(u8),
    Bold,
    Text(String),
    Code(String),
}

/// What a `NodeType` is in contracts: strings are sequences of characters.
pub enum KindView {
    Root,
    Heading(u8),
    Bold,
    Text(Seq<char>),
    Code(Seq<char>),
}

impl View for NodeType {
    type V = KindView;

    open spec fn view(&self) -> KindView {
        match self {
            NodeType::Root => KindView::Root,
            NodeType::Heading(level) => KindView::Heading(*level),
            NodeType::Bold => KindView::Bold,
            NodeType::Text(content) => KindView::Text(content@),
            NodeType::Code(language) => KindView::Code(language@),
        }
    }
}

impl Clone for NodeType {
    /// A copy of the same kind with the same data.
    fn clone(&self) -> (copy: Self)
        ensures
            copy@ == self@,
    {
        match self {
            NodeType::Root => NodeType::Root,
            NodeType::Heading(level) => NodeType::Heading(*level),
            NodeType::Bold => NodeType::Bold,
            NodeType::Text(content) => NodeType::Text(content.clone()),
            NodeType::Code(language) => NodeType::Code(language.clone()),
        }
    }
}

/// The map that a list of entries stands for; a later entry wins over an
/// earlier one with the same key.
pub open spec fn entries_map(entries: Seq<(String, String)>) -> Map<Seq<char>, Seq<char>>
    decreases entries.len(),
{
    if entries.len() == 0 {
        Map::empty()
    } else {
        entries_map(entries.drop_last()).insert(entries.last().0@, entries.last().1@)
    }
}

/// No two entries share a key.
pub open spec fn distinct_keys(entries: Seq<(String, String)>) -> bool {
    forall|i: int, j: int| 0 <= i < j < entries.len() ==> entries[i].0@ != entries[j].0@
}

/// Without its last entry, a list with distinct keys has distinct keys.
pub proof fn lemma_distinct_without_last(entries: Seq<(String, String)>)
    requires
        distinct_keys(entries),
        entries.len() > 0,
    ensures
        distinct_keys(entries.drop_last()),
{
    let init = entries.drop_last();
    assert forall|a: int, b: int| 0 <= a < b < init.len() implies init[a].0@ != init[b].0@ by {
        assert(entries[a].0@ != entries[b].0@);
    }
}

/// A key is in the map exactly when some entry carries it.
pub proof fn lemma_entries_domain(entries: Seq<(String, String)>, key: Seq<char>)
    ensures
        entries_map(entries).contains_key(key) <==> exists|i: int|
            0 <= i < entries.len() && (#[trigger] entries[i]).0@ == key,
    decreases entries.len(),
{
    if entries.len() > 0 {
        let init = entries.drop_last();
        lemma_entries_domain(init, key);
        if entries_map(init).contains_key(key) {
            let i = choose|i: int| 0 <= i < init.len() && (#[trigger] init[i]).0@ == key;
            assert(entries[i].0@ == key);
        }
        if entries.last().0@ == key {
            assert(entries[entries.len() - 1].0@ == key);
        }
        if exists|i: int| 0 <= i < entries.len() && (#[trigger] entries[i]).0@ == key {
            let i = choose|i: int| 0 <= i < entries.len() && (#[trigger] entries[i]).0@ == key;
            if i < entries.len() - 1 {
                assert(init[i].0@ == key);
            }
        }
    }
}

/// With distinct keys, each entry's value is what the map holds at its key.
pub proof fn lemma_entries_value(entries: Seq<(String, String)>, i: int)
    requires
        distinct_keys(entries),
        0 <= i < entries.len(),
    ensures
        entries_map(entries).contains_key(entries[i].0@),
        entries_map(entries)[entries[i].0@] == entries[i].1@,
    decreases entries.len(),
{
    if i < entries.len() - 1 {
        lemma_distinct_without_last(entries);
        lemma_entries_value(entries.drop_last(), i);
        assert(entries[i].0@ != entries[entries.len() - 1].0@);
    }
}

/// With distinct keys, replacing the value of one entry is an insertion
/// into the map at that entry's key.
pub proof fn lemma_entries_replace(
    entries: Seq<(String, String)>,
    i: int,
    entry: (String, String),
)
    requires
        distinct_keys(entries),
        0 <= i < entries.len(),
        entry.0@ == entries[i].0@,
    ensures
        distinct_keys(entries.update(i, entry)),
        entries_map(entries.update(i, entry)) == entries_map(entries).insert(entry.0@, entry.1@),
    decreases entries.len(),
{
    let updated = entries.update(i, entry);
    assert forall|a: int, b: int| 0 <= a < b < updated.len() implies updated[a].0@
        != updated[b].0@ by {
        assert(entries[a].0@ != entries[b].0@);
    }
    let init = entries.drop_last();
    if i == entries.len() - 1 {
        assert(updated.drop_last() =~= init);
    } else {
        lemma_distinct_without_last(entries);
        lemma_entries_replace(init, i, entry);
        assert(updated.drop_last() =~= init.update(i, entry));
        assert(entries[i].0@ != entries[entries.len() - 1].0@);
    }
    assert(entries_map(updated) =~= entries_map(entries).insert(entry.0@, entry.1@));
}

/// With distinct keys, the map has as many keys as there are entries.
pub proof fn lemma_entries_len(entries: Seq<(String, String)>)
    requires
        distinct_keys(entries),
    ensures
        entries_map(entries).dom().finite(),
        entries_map(entries).len() == entries.len(),
    decreases entries.len(),
{
    if entries.len() > 0 {
        let init = entries.drop_last();
        lemma_distinct_without_last(entries);
        lemma_entries_len(init);
        lemma_entries_domain(init, entries.last().0@);
        if entries_map(init).contains_key(entries.last().0@) {
            let j = choose|j: int|
                0 <= j < init.len() && (#[trigger] init[j]).0@ == entries.last().0@;
            assert(entries[j].0@ != entries[entries.len() - 1].0@);
        }
    }
}

/// The attributes of a node: a finite map from string keys to string
/// values, kept as a list of entries in which no key occurs twice.
#[derive(Debug)]
pub struct Attributes {
    entries: Vec<(String, String)>,
}

impl View for Attributes {
    type V = Map<Seq<char>, Seq<char>>;

    closed spec fn view(&self) -> Map<Seq<char>, Seq<char>> {
        entries_map(self.entries@)
    }
}

impl Attributes {
    #[verifier::type_invariant]
    spec fn keys_are_distinct(&self) -> bool {
        distinct_keys(self.entries@)
    }

    /// An empty attribute map.
    pub fn new() -> (attributes: Self)
        ensures
            attributes@ == Map::<Seq<char>, Seq<char>>::empty(),
    {
        Attributes { entries: Vec::new() }
    }

    /// The number of keys.
    pub fn len(&self) -> (n: usize)
        ensures
            self@.dom().finite(),
            n == self@.len(),
    {
        proof {
            use_type_invariant(self);
            lemma_entries_len(self.entries@);
        }
        self.entries.len()
    }

    /// Whether there is no key at all.
    pub fn is_empty(&self) -> (empty: bool)
        ensures
            empty == (self@ == Map::<Seq<char>, Seq<char>>::empty()),
    {
        proof {
            use_type_invariant(self);
            lemma_entries_len(self.entries@);
        }
        self.entries.len() == 0
    }

    /// A copy of every key with its value, each key once, in no order that
    /// callers may rely on.
    pub fn to_vec(&self) -> (pairs: Vec<(String, String)>)
        ensures
            distinct_keys(pairs@),
            entries_map(pairs@) == self@,
    {
        let copy = self.clone();
        proof {
            use_type_invariant(&copy);
        }
        copy.entries
    }

    /// The value stored under `key`, if any.
    pub fn get(&self, key: &str) -> (value: Option<&String>)
        ensures
            match value {
                Some(v) => self@.contains_key(key@) && self@[key@] == v@,
                None => !self@.contains_key(key@),
            },
    {
        proof {
            use_type_invariant(self);
        }
        let wanted = key.to_owned();
        let mut i: usize = 0;
        while i < self.entries.len()
            invariant
                i <= self.entries@.len(),
                wanted@ == key@,
                distinct_keys(self.entries@),
                forall|j: int| 0 <= j < i ==> (#[trigger] self.entries@[j]).0@ != key@,
            decreases self.entries@.len() - i,
        {
            if self.entries[i].0 == wanted {
                proof {
                    lemma_entries_value(self.entries@, i as int);
                }
                return Some(&self.entries[i].1);
            }
            i += 1;
        }
        proof {
            lemma_entries_domain(self.entries@, key@);
        }
        None
    }

    /// Whether `key` has a value.
    pub fn contains_key(&self, key: &str) -> (found: bool)
        ensures
            found == self@.contains_key(key@),
    {
        self.get(key).is_some()
    }

    /// Stores `value` under `key`, replacing what was there, and returns
    /// the value that was replaced.
    pub fn insert(&mut self, key: String, value: String) -> (previous: Option<String>)
        ensures
            final(self)@ == old(self)@.insert(key@, value@),
            match previous {
                Some(p) => old(self)@.contains_key(key@) && old(self)@[key@] == p@,
                None => !old(self)@.contains_key(key@),
            },
    {
        proof {
            use_type_invariant(&*self);
        }
        let mut entries: Vec<(String, String)> = Vec::new();
        core::mem::swap(&mut self.entries, &mut entries);
        let mut previous: Option<String> = None;
        let mut i: usize = 0;
        while i < entries.len() && entries[i].0 != key
            invariant
                i <= entries@.len(),
                entries@ == old(self).entries@,
                distinct_keys(entries@),
                forall|j: int| 0 <= j < i ==> (#[trigger] entries@[j]).0@ != key@,
            decreases entries@.len() - i,
        {
            i += 1;
        }
        if i < entries.len() {
            let ghost before = entries@;
            let mut held = value;
            core::mem::swap(&mut entries[i].1, &mut held);
            proof {
                lemma_entries_value(before, i as int);
                lemma_entries_replace(before, i as int, entries@[i as int]);
            }
            previous = Some(held);
        } else {
            proof {
                lemma_entries_domain(entries@, key@);
                assert(entries@.push((key, value)).drop_last() =~= entries@);
            }
            entries.push((key, value));
        }
        core::mem::swap(&mut self.entries, &mut entries);
        previous
    }
}

impl Clone for Attributes {
    /// A copy with the same keys and values.
    fn clone(&self) -> (copy: Self)
        ensures
            copy@ == self@,
    {
        proof {
            use_type_invariant(self);
        }
        let mut entries: Vec<(String, String)> = Vec::new();
        let mut i: usize = 0;
        while i < self.entries.len()
            invariant
                i <= self.entries@.len(),
                entries@ == self.entries@.take(i as int),
                distinct_keys(self.entries@),
            decreases self.entries@.len() - i,
        {
            let key = self.entries[i].0.clone();
            let value = self.entries[i].1.clone();
            proof {
                assert(self.entries@.take(i + 1) =~= self.entries@.take(i as int).push(
                    (key, value),
                ));
            }
            entries.push((key, value));
            i += 1;
        }
        proof {
            assert(self.entries@.take(self.entries@.len() as int) =~= self.entries@);
        }
        Attributes { entries }
    }
}

/// One node of the tree. A node owns its children; their order is the
/// order of the document.
#[derive(Debug)]
pub struct AstNode {
    pub node_type: NodeType,
    pub props: Attributes,
    pub children: Vec<AstNode>,
}

/// What a node is in contracts: its kind, its attributes as a map and its
/// children as a sequence of such values.
#[verifier::ext_equal]
pub struct NodeView {
    pub kind: KindView,
    pub attributes: Map<Seq<char>, Seq<char>>,
    pub children: Seq<NodeView>,
}

/// The view of a node: its kind and attributes, and below them the views of
/// its children, in order.
pub open spec fn node_view(node: AstNode) -> NodeView
    decreases node,
{
    NodeView {
        kind: node.node_type@,
        attributes: node.props@,
        children: Seq::new(
            node.children@.len(),
            |i: int|
                if 0 <= i < node.children@.len() {
                    node_view(node.children@[i])
                } else {
                    arbitrary()
                },
        ),
    }
}

impl View for AstNode {
    type V = NodeView;

    open spec fn view(&self) -> NodeView {
        node_view(*self)
    }
}

/// The view of a node that may be absent.
pub open spec fn node_option_view(node: Option<AstNode>) -> Option<NodeView> {
    match node {
        Some(n) => Some(n@),
        None => None,
    }
}

impl AstNode {
    /// A node of the given kind with no attributes and no children.
    pub fn new(node_type: NodeType) -> (node: Self)
        ensures
            node@ == (NodeView {
                kind: node_type@,
                attributes: Map::empty(),
                children: Seq::empty(),
            }),
    {
        let node = AstNode { node_type, props: Attributes::new(), children: Vec::new() };
        proof {
            assert(node@.children =~= Seq::empty());
        }
        node
    }

    /// Sets the attribute `key` to `value`, whether or not it was set
    /// before. Kind and children stay as they are.
    pub fn add_props(&mut self, key: &str, value: &str)
        ensures
            final(self)@ == (NodeView {
                attributes: old(self)@.attributes.insert(key@, value@),
                ..old(self)@
            }),
    {
        self.props.insert(key.to_owned(), value.to_owned());
    }

    /// Appends `child` behind the children that are there.
    pub fn add_children(&mut self, child: AstNode)
        ensures
            final(self)@ == (NodeView {
                children: old(self)@.children.push(child@),
                ..old(self)@
            }),
    {
        self.children.push(child);
        proof {
            assert(self@.children =~= old(self)@.children.push(child@));
        }
    }
}

impl Clone for AstNode {
    /// A copy of the whole tree below this node.
    fn clone(&self) -> (copy: Self)
        ensures
            copy@ == self@,
        decreases self,
    {
        let mut children: Vec<AstNode> = Vec::new();
        let mut i: usize = 0;
        while i < self.children.len()
            invariant
                i <= self.children@.len(),
                children@.len() == i,
                forall|j: int| 0 <= j < i ==> (#[trigger] children@[j])@ == self.children@[j]@,
            decreases self.children@.len() - i,
        {
            let child = self.children[i].clone();
            children.push(child);
            i += 1;
        }
        let copy = AstNode {
            node_type: self.node_type.clone(),
            props: self.props.clone(),
            children,
        };
        proof {
            assert(copy@.children =~= self@.children);
        }
        copy
    }
}

/// The node that every tree starts from.
pub fn create_root_node() -> (root: AstNode)
    ensures
        root@ == (NodeView {
            kind: KindView::Root,
            attributes: Map::empty(),
            children: Seq::empty(),
        }),
{
    AstNode::new(NodeType::Root)
}

} // verus!
