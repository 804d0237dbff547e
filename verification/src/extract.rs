//! Extraction of the time-active field from a decoded chunk document.
//!
//! The field may stand either directly under the document root (the
//! flat layout) or one level down, inside a wrapper compound (the
//! legacy layout). A root with more than two children is treated as the
//! flat layout; otherwise the nested compound is the child named
//! `Level` if present, else the child at index 1.

use vstd::prelude::*;

use crate::codec::{decode_tag_spec, read_tag};
use crate::cursor::ByteCursor;
use crate::error::Error;
use crate::node::{name_of, nodes_view, Node, NodeView};

verus! {

/// The first index at or after `i` whose node is named `key`, if any.
pub open spec fn first_named_from(cs: Seq<NodeView>, key: Seq<char>, i: int) -> Option<int>
    decreases cs.len() - i,
{
    if i < 0 || i >= cs.len() {
        None
    } else if name_of(cs[i]) == key {
        Some(i)
    } else {
        first_named_from(cs, key, i + 1)
    }
}

/// The value of the first long-typed node named `key` at or after `i`,
/// if any.
pub open spec fn find_long_from(cs: Seq<NodeView>, key: Seq<char>, i: int) -> Option<i64>
    decreases cs.len() - i,
{
    if i < 0 || i >= cs.len() {
        None
    } else {
        match cs[i] {
            NodeView::Long { name, value } => if name == key {
                Some(value)
            } else {
                find_long_from(cs, key, i + 1)
            },
            _ => find_long_from(cs, key, i + 1),
        }
    }
}

/// The compound child that the legacy layout nests the field under: the
/// first child named `Level` if present, else the child at index 1.
pub open spec fn nested_child(cs: Seq<NodeView>) -> Option<NodeView> {
    match first_named_from(cs, "Level"@, 0) {
        Some(i) => Some(cs[i]),
        None => if cs.len() >= 2 {
            Some(cs[1])
        } else {
            None
        },
    }
}

/// The time-active value of a decoded document, under either layout;
/// nothing when the root is not a compound, when the legacy layout
/// selects no compound child, or when no long named `InhabitedTime`
/// stands at the searched level.
pub open spec fn extract_time_spec(root: NodeView) -> Option<i64> {
    match root {
        NodeView::Compound { name: _, children } => {
            if children.len() > 2 {
                find_long_from(children, "InhabitedTime"@, 0)
            } else {
                match nested_child(children) {
                    Some(NodeView::Compound { name: _, children: inner }) => find_long_from(
                        inner,
                        "InhabitedTime"@,
                        0,
                    ),
                    _ => None,
                }
            }
        },
        _ => None,
    }
}

/// The name of a node as an owned-string reference; the end marker has
/// none.
fn node_name_string(n: &Node) -> (r: Option<&String>)
    ensures
        match r {
            Some(s) => s@ == name_of(n@) && !(n@ is End),
            None => n@ is End,
        },
{
    match n {
        Node::End => None,
        Node::Byte { name, .. } => Some(name),
        Node::Short { name, .. } => Some(name),
        Node::Int { name, .. } => Some(name),
        Node::Long { name, .. } => Some(name),
        Node::Float { name, .. } => Some(name),
        Node::Double { name, .. } => Some(name),
        Node::ByteArray { name, .. } => Some(name),
        Node::Text { name, .. } => Some(name),
        Node::List { name, .. } => Some(name),
        Node::Compound { name, .. } => Some(name),
        Node::IntArray { name, .. } => Some(name),
        Node::LongArray { name, .. } => Some(name),
    }
}

/// Finds the first child named `key`, of any kind.
#[verifier::loop_isolation(false)]
fn find_named_index(children: &Vec<Node>, key: &String) -> (r: Option<usize>)
    requires
        key@.len() > 0,
    ensures
        match r {
            Some(i) => first_named_from(nodes_view(children@), key@, 0) == Some(i as int) && i
                < children@.len(),
            None => first_named_from(nodes_view(children@), key@, 0) is None,
        },
{
    proof {
        crate::node::lemma_nodes_view_elts(children@);
    }
    let ghost cs = nodes_view(children@);
    let mut i: usize = 0;
    while i < children.len()
        invariant
            i <= children@.len(),
            first_named_from(cs, key@, 0) == first_named_from(cs, key@, i as int),
        decreases children@.len() - i,
    {
        match node_name_string(&children[i]) {
            Some(name) => {
                if name.eq(key) {
                    return Some(i);
                }
            },
            None => {
                proof {
                    assert(name_of(cs[i as int]) =~= Seq::<char>::empty());
                }
            },
        }
        i = i + 1;
    }
    None
}

/// Finds the value of the first long-typed child named `key`.
#[verifier::loop_isolation(false)]
fn find_long_in(children: &Vec<Node>, key: &String) -> (r: Option<i64>)
    ensures
        r == find_long_from(nodes_view(children@), key@, 0),
{
    proof {
        crate::node::lemma_nodes_view_elts(children@);
    }
    let ghost cs = nodes_view(children@);
    let mut i: usize = 0;
    while i < children.len()
        invariant
            i <= children@.len(),
            find_long_from(cs, key@, 0) == find_long_from(cs, key@, i as int),
        decreases children@.len() - i,
    {
        match &children[i] {
            Node::Long { name, value } => {
                if name.eq(key) {
                    return Some(*value);
                }
            },
            _ => {},
        }
        i = i + 1;
    }
    None
}

/// Looks the time-active field up in a decoded document, under either
/// layout, failing when it is missing from both.
pub fn get_inhabited_time(root: &Node) -> (r: Result<i64, Error>)
    ensures
        match extract_time_spec(root@) {
            Some(t) => r == Ok::<i64, Error>(t),
            None => r == Err::<i64, Error>(Error::FieldNotFound),
        },
{
    proof {
        reveal_strlit("Level");
    }
    let time_key: String = "InhabitedTime".to_owned();
    let level_key: String = "Level".to_owned();
    match root {
        Node::Compound { children, .. } => {
            proof {
                crate::node::lemma_nodes_view_elts(children@);
            }
            if children.len() > 2 {
                match find_long_in(children, &time_key) {
                    Some(v) => Ok(v),
                    None => Err(Error::FieldNotFound),
                }
            } else {
                let picked: Option<&Node> = match find_named_index(children, &level_key) {
                    Some(i) => Some(&children[i]),
                    None => {
                        if children.len() >= 2 {
                            Some(&children[1])
                        } else {
                            None
                        }
                    },
                };
                match picked {
                    Some(Node::Compound { children: inner, .. }) => {
                        match find_long_in(inner, &time_key) {
                            Some(v) => Ok(v),
                            None => Err(Error::FieldNotFound),
                        }
                    },
                    _ => Err(Error::FieldNotFound),
                }
            }
        },
        _ => Err(Error::FieldNotFound),
    }
}

/// The time-active value carried by an encoded document: the document
/// is decoded from the start of `d` and the field looked up under
/// either layout.
pub open spec fn chunk_time_spec(d: Seq<u8>) -> Result<i64, Error> {
    match decode_tag_spec(d, 0) {
        Err(e) => Err(e),
        Ok(ne) => match extract_time_spec(ne.0) {
            Some(t) => Ok(t),
            None => Err(Error::FieldNotFound),
        },
    }
}

/// Decodes one chunk document from `data` and extracts its time-active
/// value.
pub fn chunk_time_from_document(data: &Vec<u8>) -> (r: Result<i64, Error>)
    ensures
        r == chunk_time_spec(data@),
{
    let mut cursor = ByteCursor::new(data.as_slice());
    let root = match read_tag(&mut cursor) {
        Ok(n) => n,
        Err(e) => { return Err(e) },
    };
    get_inhabited_time(&root)
}

} // verus!
