//! Configuration documents: a plain tree of nodes, and reading one from KDL text
//! with the `kdl` crate.

use crate::text::{owned, same_text};
use kdl::{KdlDocument, KdlNode, KdlValue};
use vstd::prelude::*;

verus! {

// === Data structures ===

/// A value of an argument or a property.
#[derive(Debug)]
pub enum Value {
    Text(String),
    Integer(i128),
    /// A decimal, by the bits of its double.
    Float(u64),
    Bool(bool),
    Null,
}

/// An argument (without a name) or a property (with one).
#[derive(Debug)]
pub struct Entry {
    pub name: Option<String>,
    pub value: Value,
}

/// A node: its name, its arguments and properties in order, and its child nodes.
#[derive(Debug)]
pub struct Node {
    pub name: String,
    pub entries: Vec<Entry>,
    pub children: Vec<Node>,
}

/// What a [`Value`] is.
pub enum ValueView {
    Text(Seq<char>),
    Integer(i128),
    Float(u64),
    Bool(bool),
    Null,
}

/// What an [`Entry`] is.
pub struct EntryView {
    pub name: Option<Seq<char>>,
    pub value: ValueView,
}

/// What a [`Node`] is.
pub struct NodeView {
    pub name: Seq<char>,
    pub entries: Seq<EntryView>,
    pub children: Seq<NodeView>,
}

// === Models ===

impl View for Value {
    type V = ValueView;

    open spec fn view(&self) -> ValueView {
        match *self {
            Value::Text(s) => ValueView::Text(s@),
            Value::Integer(i) => ValueView::Integer(i),
            Value::Float(bits) => ValueView::Float(bits),
            Value::Bool(b) => ValueView::Bool(b),
            Value::Null => ValueView::Null,
        }
    }
}

/// An optional text.
pub open spec fn text_view(s: Option<String>) -> Option<Seq<char>> {
    match s {
        Some(s) => Some(s@),
        None => None,
    }
}

impl View for Entry {
    type V = EntryView;

    open spec fn view(&self) -> EntryView {
        EntryView { name: text_view(self.name), value: self.value@ }
    }
}

/// What a list of entries is.
pub open spec fn entry_views(entries: Seq<Entry>) -> Seq<EntryView> {
    entries.map_values(|e: Entry| e@)
}

/// What a node is.
pub open spec fn node_view(n: Node) -> NodeView
    decreases n,
{
    NodeView {
        name: n.name@,
        entries: entry_views(n.entries@),
        children: Seq::new(
            n.children@.len(),
            |i: int|
                if 0 <= i < n.children@.len() {
                    node_view(n.children@[i])
                } else {
                    arbitrary()
                },
        ),
    }
}

impl View for Node {
    type V = NodeView;

    open spec fn view(&self) -> NodeView {
        node_view(*self)
    }
}

/// What a list of nodes is.
pub open spec fn node_views(nodes: Seq<Node>) -> Seq<NodeView> {
    nodes.map_values(|n: Node| n@)
}

/// A node's children are those its view lists.
pub proof fn lemma_node_children(n: Node)
    ensures
        n@.children == node_views(n.children@),
        n@.name == n.name@,
        n@.entries == entry_views(n.entries@),
{
    assert(n@.children =~= node_views(n.children@));
}

/// The value of the first property of that name.
pub open spec fn property(entries: Seq<EntryView>, name: Seq<char>) -> Option<ValueView>
    decreases entries.len(),
{
    if entries.len() == 0 {
        None
    } else if entries[0].name == Some(name) {
        Some(entries[0].value)
    } else {
        property(entries.drop_first(), name)
    }
}

/// The value of the first argument.
pub open spec fn argument(entries: Seq<EntryView>) -> Option<ValueView>
    decreases entries.len(),
{
    if entries.len() == 0 {
        None
    } else if entries[0].name is None {
        Some(entries[0].value)
    } else {
        argument(entries.drop_first())
    }
}

/// The text of a value, if it is one.
pub open spec fn text_of_value(v: Option<ValueView>) -> Option<Seq<char>> {
    match v {
        Some(ValueView::Text(s)) => Some(s),
        _ => None,
    }
}

impl NodeView {
    /// A property's text, if it is there and a text.
    pub open spec fn prop(self, name: Seq<char>) -> Option<Seq<char>> {
        text_of_value(property(self.entries, name))
    }

    /// The first argument's text, if it is there and a text.
    pub open spec fn arg(self) -> Option<Seq<char>> {
        text_of_value(argument(self.entries))
    }
}

// === Accessors ===

impl Node {
    /// The first positional argument as a string, if any.
    pub fn first_arg(&self) -> (r: Option<&str>)
        ensures
            match r {
                Some(s) => self@.arg() == Some(s@),
                None => self@.arg() is None,
            },
    {
        let ghost all = entry_views(self.entries@);
        proof {
            lemma_node_children(*self);
            assert(all.skip(0) =~= all);
        }
        let mut i: usize = 0;
        while i < self.entries.len()
            invariant
                i <= self.entries@.len(),
                all == entry_views(self.entries@),
                self@.entries == all,
                argument(all) == argument(all.skip(i as int)),
            decreases self.entries@.len() - i,
        {
            let entry = &self.entries[i];
            assert(all.skip(i as int)[0] == entry@);
            assert(all.skip(i as int).drop_first() =~= all.skip(i + 1));
            if entry.name.is_none() {
                return match &entry.value {
                    Value::Text(s) => Some(s.as_str()),
                    _ => None,
                };
            }
            i = i + 1;
        }
        None
    }

    /// The value of a named property, if present.
    pub fn property(&self, name: &str) -> (r: Option<&Value>)
        ensures
            match r {
                Some(v) => property(self@.entries, name@) == Some(v@),
                None => property(self@.entries, name@) is None,
            },
    {
        let ghost all = entry_views(self.entries@);
        proof {
            lemma_node_children(*self);
            assert(all.skip(0) =~= all);
        }
        let mut i: usize = 0;
        while i < self.entries.len()
            invariant
                i <= self.entries@.len(),
                all == entry_views(self.entries@),
                self@.entries == all,
                property(all, name@) == property(all.skip(i as int), name@),
            decreases self.entries@.len() - i,
        {
            let entry = &self.entries[i];
            assert(all.skip(i as int)[0] == entry@);
            assert(all.skip(i as int).drop_first() =~= all.skip(i + 1));
            if let Some(own) = &entry.name {
                if same_text(own.as_str(), name) {
                    return Some(&entry.value);
                }
            }
            i = i + 1;
        }
        None
    }

    /// A named property as a string, if present and string-valued.
    pub fn prop_str(&self, name: &str) -> (r: Option<&str>)
        ensures
            match r {
                Some(s) => self@.prop(name@) == Some(s@),
                None => self@.prop(name@) is None,
            },
    {
        match self.property(name) {
            Some(Value::Text(s)) => Some(s.as_str()),
            _ => None,
        }
    }
}

// === Reading KDL ===

/// A parsed KDL document.
#[verifier::external_type_specification]
#[verifier::external_body]
pub struct ExKdlDocument(kdl::KdlDocument);

/// A node of a KDL document.
#[verifier::external_type_specification]
#[verifier::external_body]
pub struct ExKdlNode(kdl::KdlNode);

/// Why a text is no KDL document.
#[verifier::external_type_specification]
#[verifier::external_body]
pub struct ExKdlError(kdl::KdlError);

/// The nodes of a KDL text; none where it is no KDL document.
pub uninterp spec fn kdl_nodes(text: Seq<char>) -> Option<Seq<NodeView>>;

/// The nodes a KDL document holds.
pub uninterp spec fn document_nodes(doc: KdlDocument) -> Seq<NodeView>;

/// What a KDL node holds: its name, its entries and its child nodes.
pub uninterp spec fn node_contents(node: KdlNode) -> NodeView;

/// `KdlDocument::parse`: succeeds exactly on the texts that have nodes, with a
/// document that holds them.
#[verifier::external_body]
fn parse_document(text: &str) -> (r: Result<KdlDocument, kdl::KdlError>)
    ensures
        match r {
            Ok(doc) => kdl_nodes(text@) == Some(document_nodes(doc)),
            Err(_) => kdl_nodes(text@) is None,
        },
{
    KdlDocument::parse(text)
}

/// `KdlDocument::nodes`: the document's nodes, in order.
#[verifier::external_body]
fn nodes_of(doc: &KdlDocument) -> (r: &[KdlNode])
    ensures
        r@.len() == document_nodes(*doc).len(),
        forall|i: int|
            0 <= i < r@.len() ==> node_contents(#[trigger] r@[i]) == document_nodes(*doc)[i],
{
    doc.nodes()
}

/// `KdlNode::name`: the node's name.
#[verifier::external_body]
fn name_of(node: &KdlNode) -> (r: &str)
    ensures
        r@ == node_contents(*node).name,
{
    node.name().value()
}

/// `KdlNode::entries`: the node's arguments and properties, in order, each with
/// its value.
#[verifier::external_body]
fn entries_of(node: &KdlNode) -> (r: Vec<Entry>)
    ensures
        entry_views(r@) == node_contents(*node).entries,
{
    node.entries().iter().map(
        |e|
            Entry {
                name: e.name().map(|n| n.value().to_string()),
                value: match e.value() {
                    KdlValue::String(s) => Value::Text(s.clone()),
                    KdlValue::Integer(i) => Value::Integer(*i),
                    KdlValue::Float(f) => Value::Float(f.to_bits()),
                    KdlValue::Bool(b) => Value::Bool(*b),
                    KdlValue::Null => Value::Null,
                },
            },
    ).collect()
}

/// `KdlNode::children`: the document in the node's block; a node without a block
/// has no child nodes.
#[verifier::external_body]
fn children_of(node: &KdlNode) -> (r: Option<&KdlDocument>)
    ensures
        match r {
            Some(doc) => node_contents(*node).children == document_nodes(*doc),
            None => node_contents(*node).children.len() == 0,
        },
{
    node.children()
}

fn read_node(node: &KdlNode) -> (r: Node)
    ensures
        r@ == node_contents(*node),
    decreases node_contents(*node),
{
    let children = match children_of(node) {
        Some(doc) => read_nodes(doc),
        None => Vec::new(),
    };
    let r = Node { name: owned(name_of(node)), entries: entries_of(node), children };
    proof {
        lemma_node_children(r);
        assert(r@.children =~= node_contents(*node).children);
    }
    r
}

fn read_nodes(doc: &KdlDocument) -> (r: Vec<Node>)
    ensures
        node_views(r@) == document_nodes(*doc),
    decreases document_nodes(*doc),
{
    let nodes = nodes_of(doc);
    let mut out: Vec<Node> = Vec::new();
    let mut i: usize = 0;
    while i < nodes.len()
        invariant
            i <= nodes@.len(),
            nodes@.len() == document_nodes(*doc).len(),
            forall|k: int|
                0 <= k < nodes@.len() ==> node_contents(#[trigger] nodes@[k]) == document_nodes(
                    *doc,
                )[k],
            out@.len() == i,
            forall|k: int| 0 <= k < i ==> (#[trigger] out@[k])@ == document_nodes(*doc)[k],
        decreases nodes@.len() - i,
    {
        assert(decreases_to!(document_nodes(*doc) => document_nodes(*doc)[i as int]));
        out.push(read_node(&nodes[i]));
        i = i + 1;
    }
    assert(node_views(out@) =~= document_nodes(*doc));
    out
}

/// The nodes of a KDL text, or `None` where it is no KDL document.
pub fn read_kdl(text: &str) -> (r: Option<Vec<Node>>)
    ensures
        match r {
            Some(nodes) => kdl_nodes(text@) == Some(node_views(nodes@)),
            None => kdl_nodes(text@) is None,
        },
{
    match parse_document(text) {
        Ok(doc) => Some(read_nodes(&doc)),
        Err(_) => None,
    }
}

} // verus!
