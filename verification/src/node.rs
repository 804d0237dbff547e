//! The decoded document tree: a closed variant type over the twelve
//! record kinds of the wire format, plus the structural end marker.

use vstd::prelude::*;

verus! {

/// Mathematical model of a decoded node, used by every contract that
/// speaks about document contents.
pub enum NodeView {
    End,
    Byte { name: Seq<char>, value: i8 },
    Short { name: Seq<char>, value: i16 },
    Int { name: Seq<char>, value: i32 },
    Long { name: Seq<char>, value: i64 },
    Float { name: Seq<char>, bits: u32 },
    Double { name: Seq<char>, bits: u64 },
    ByteArray { name: Seq<char>, values: Seq<i8> },
    Text { name: Seq<char>, value: Seq<char> },
    List { name: Seq<char>, elem_type: u8, children: Seq<NodeView> },
    Compound { name: Seq<char>, children: Seq<NodeView> },
    IntArray { name: Seq<char>, values: Seq<i32> },
    LongArray { name: Seq<char>, values: Seq<i64> },
}

/// A decoded node. Scalar kinds hold their value directly; the two
/// floating kinds hold the IEEE bit pattern read from the wire, so that
/// no floating-point arithmetic is ever performed here. `End` is the
/// structural terminator of a compound: it appears in a decoded tree
/// only as the element of a list whose element type is the end marker.
pub enum Node {
    End,
    Byte { name: String, value: i8 },
    Short { name: String, value: i16 },
    Int { name: String, value: i32 },
    Long { name: String, value: i64 },
    Float { name: String, bits: u32 },
    Double { name: String, bits: u64 },
    ByteArray { name: String, values: Vec<i8> },
    Text { name: String, value: String },
    List { name: String, elem_type: u8, children: Vec<Node> },
    Compound { name: String, children: Vec<Node> },
    IntArray { name: String, values: Vec<i32> },
    LongArray { name: String, values: Vec<i64> },
}

/// The models of a sequence of nodes, in order.
pub open spec fn nodes_view(v: Seq<Node>) -> Seq<NodeView>
    decreases v,
{
    if v.len() == 0 {
        Seq::empty()
    } else {
        seq![node_view(v.first())] + nodes_view(v.drop_first())
    }
}

/// `nodes_view` maps each element to its model.
pub broadcast proof fn lemma_nodes_view_elts(v: Seq<Node>)
    ensures
        (#[trigger] nodes_view(v)).len() == v.len(),
        forall|i: int| 0 <= i < v.len() ==> nodes_view(v)[i] == node_view(v[i]),
    decreases v.len(),
{
    if v.len() > 0 {
        lemma_nodes_view_elts(v.drop_first());
    }
}

/// The model of a node: names and texts become character sequences,
/// child vectors become sequences of models.
pub open spec fn node_view(n: Node) -> NodeView
    decreases n,
{
    match n {
        Node::End => NodeView::End,
        Node::Byte { name, value } => NodeView::Byte { name: name@, value },
        Node::Short { name, value } => NodeView::Short { name: name@, value },
        Node::Int { name, value } => NodeView::Int { name: name@, value },
        Node::Long { name, value } => NodeView::Long { name: name@, value },
        Node::Float { name, bits } => NodeView::Float { name: name@, bits },
        Node::Double { name, bits } => NodeView::Double { name: name@, bits },
        Node::ByteArray { name, values } => NodeView::ByteArray { name: name@, values: values@ },
        Node::Text { name, value } => NodeView::Text { name: name@, value: value@ },
        Node::List { name, elem_type, children } => NodeView::List {
            name: name@,
            elem_type,
            children: nodes_view(children@),
        },
        Node::Compound { name, children } => NodeView::Compound {
            name: name@,
            children: nodes_view(children@),
        },
        Node::IntArray { name, values } => NodeView::IntArray { name: name@, values: values@ },
        Node::LongArray { name, values } => NodeView::LongArray { name: name@, values: values@ },
    }
}

impl View for Node {
    type V = NodeView;

    open spec fn view(&self) -> NodeView {
        node_view(*self)
    }
}

/// The wire type id of a node model.
pub open spec fn type_id_of(n: NodeView) -> u8 {
    match n {
        NodeView::End => 0,
        NodeView::Byte { .. } => 1,
        NodeView::Short { .. } => 2,
        NodeView::Int { .. } => 3,
        NodeView::Long { .. } => 4,
        NodeView::Float { .. } => 5,
        NodeView::Double { .. } => 6,
        NodeView::ByteArray { .. } => 7,
        NodeView::Text { .. } => 8,
        NodeView::List { .. } => 9,
        NodeView::Compound { .. } => 10,
        NodeView::IntArray { .. } => 11,
        NodeView::LongArray { .. } => 12,
    }
}

/// The name of a node model; the end marker never has one.
pub open spec fn name_of(n: NodeView) -> Seq<char> {
    match n {
        NodeView::End => Seq::empty(),
        NodeView::Byte { name, .. } => name,
        NodeView::Short { name, .. } => name,
        NodeView::Int { name, .. } => name,
        NodeView::Long { name, .. } => name,
        NodeView::Float { name, .. } => name,
        NodeView::Double { name, .. } => name,
        NodeView::ByteArray { name, .. } => name,
        NodeView::Text { name, .. } => name,
        NodeView::List { name, .. } => name,
        NodeView::Compound { name, .. } => name,
        NodeView::IntArray { name, .. } => name,
        NodeView::LongArray { name, .. } => name,
    }
}

impl Node {
    /// Returns the type byte (0-12) of this node.
    pub fn tag_type(&self) -> (r: u8)
        ensures
            r == type_id_of(self@),
    {
        match self {
            Node::End => 0,
            Node::Byte { .. } => 1,
            Node::Short { .. } => 2,
            Node::Int { .. } => 3,
            Node::Long { .. } => 4,
            Node::Float { .. } => 5,
            Node::Double { .. } => 6,
            Node::ByteArray { .. } => 7,
            Node::Text { .. } => 8,
            Node::List { .. } => 9,
            Node::Compound { .. } => 10,
            Node::IntArray { .. } => 11,
            Node::LongArray { .. } => 12,
        }
    }

    /// Returns the name of this node. May be empty.
    pub fn name(&self) -> (r: &str)
        ensures
            r@ == name_of(self@),
    {
        proof {
            reveal_strlit("");
            assert(""@ =~= Seq::<char>::empty());
        }
        match self {
            Node::End => "",
            Node::Byte { name, .. } => name.as_str(),
            Node::Short { name, .. } => name.as_str(),
            Node::Int { name, .. } => name.as_str(),
            Node::Long { name, .. } => name.as_str(),
            Node::Float { name, .. } => name.as_str(),
            Node::Double { name, .. } => name.as_str(),
            Node::ByteArray { name, .. } => name.as_str(),
            Node::Text { name, .. } => name.as_str(),
            Node::List { name, .. } => name.as_str(),
            Node::Compound { name, .. } => name.as_str(),
            Node::IntArray { name, .. } => name.as_str(),
            Node::LongArray { name, .. } => name.as_str(),
        }
    }
}

/// The header of any record in the binary format: a type id and a name.
/// The name may be empty; the end marker's is always empty.
pub struct TagHeader {
    pub tag_type: u8,
    pub name: String,
}

} // verus!
