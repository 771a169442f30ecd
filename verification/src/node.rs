//! The document node tree: scalars, sequences and order-preserving mappings.

use vstd::prelude::*;

use crate::text::str_eq;

verus! {

/// One node of a parsed document: a scalar (null, boolean, integer, real or
/// string), an ordered sequence of nodes, or an ordered mapping from nodes to
/// nodes. A real number is kept as its source text, never as a float.
pub enum Node {
    /// The null scalar, spelled `~` in document text.
    Null,
    /// A boolean scalar.
    Bool(bool),
    /// An integer scalar.
    Int(i64),
    /// A real-number scalar, kept as its source text.
    Real(String),
    /// A string scalar.
    Str(String),
    /// An ordered sequence of nodes.
    Sequence(Vec<Node>),
    /// An ordered mapping; each entry is a key node and a value node.
    Mapping(Vec<(Node, Node)>),
}

/// The mathematical model of a node tree, used by every contract.
pub enum NodeModel {
    /// Model of the null scalar.
    Null,
    /// Model of a boolean scalar.
    Bool(bool),
    /// Model of an integer scalar.
    Int(int),
    /// Model of a real-number scalar (its source text).
    Real(Seq<char>),
    /// Model of a string scalar.
    Str(Seq<char>),
    /// Model of a sequence of nodes.
    Sequence(Seq<NodeModel>),
    /// Model of an ordered mapping.
    Mapping(Seq<(NodeModel, NodeModel)>),
}

/// The model of a node.
pub open spec fn node_model(n: Node) -> NodeModel
    decreases n,
{
    match n {
        Node::Null => NodeModel::Null,
        Node::Bool(b) => NodeModel::Bool(b),
        Node::Int(i) => NodeModel::Int(i as int),
        Node::Real(s) => NodeModel::Real(s@),
        Node::Str(s) => NodeModel::Str(s@),
        Node::Sequence(v) => NodeModel::Sequence(
            Seq::new(
                v.len() as nat,
                |i: int|
                    if 0 <= i < v.len() {
                        node_model(v[i])
                    } else {
                        NodeModel::Null
                    },
            ),
        ),
        Node::Mapping(v) => NodeModel::Mapping(
            Seq::new(
                v.len() as nat,
                |i: int|
                    if 0 <= i < v.len() {
                        (node_model(v[i].0), node_model(v[i].1))
                    } else {
                        (NodeModel::Null, NodeModel::Null)
                    },
            ),
        ),
    }
}

/// The models of a sequence of nodes, element by element.
pub open spec fn seq_model(v: Seq<Node>) -> Seq<NodeModel> {
    Seq::new(v.len(), |i: int| node_model(v[i]))
}

/// The models of a mapping's entries, key and value of each.
pub open spec fn entries_model(v: Seq<(Node, Node)>) -> Seq<(NodeModel, NodeModel)> {
    Seq::new(v.len(), |i: int| (node_model(v[i].0), node_model(v[i].1)))
}

/// A sequence node's model is the sequence of its elements' models.
pub broadcast proof fn lemma_node_model_sequence(v: Vec<Node>)
    ensures
        #[trigger] node_model(Node::Sequence(v)) == NodeModel::Sequence(seq_model(v@)),
{
    assert(node_model(Node::Sequence(v))->Sequence_0 =~= seq_model(v@));
}

/// A mapping node's model is the sequence of its entries' models.
pub broadcast proof fn lemma_node_model_mapping(v: Vec<(Node, Node)>)
    ensures
        #[trigger] node_model(Node::Mapping(v)) == NodeModel::Mapping(entries_model(v@)),
{
    assert(node_model(Node::Mapping(v))->Mapping_0 =~= entries_model(v@));
}

/// The value mapped to a string key in a mapping's entry list: the first entry
/// whose key is the string scalar `key`, if any.
pub open spec fn mapping_lookup(entries: Seq<(NodeModel, NodeModel)>, key: Seq<char>) -> Option<
    NodeModel,
>
    decreases entries.len(),
{
    if entries.len() == 0 {
        None
    } else if entries[0].0 == NodeModel::Str(key) {
        Some(entries[0].1)
    } else {
        mapping_lookup(entries.drop_first(), key)
    }
}

/// The value a node holds under a string key: `None` when the node is not a
/// mapping or the key is absent.
pub open spec fn node_lookup(n: NodeModel, key: Seq<char>) -> Option<NodeModel> {
    match n {
        NodeModel::Mapping(entries) => mapping_lookup(entries, key),
        _ => None,
    }
}

proof fn lemma_mapping_lookup_at(entries: Seq<(NodeModel, NodeModel)>, key: Seq<char>, i: int)
    requires
        0 <= i <= entries.len(),
        forall|j: int| 0 <= j < i ==> entries[j].0 != NodeModel::Str(key),
    ensures
        i < entries.len() && entries[i].0 == NodeModel::Str(key) ==> mapping_lookup(entries, key)
            == Some(entries[i].1),
        i == entries.len() ==> mapping_lookup(entries, key) is None,
    decreases i,
{
    if i == 0 {
    } else {
        assert(mapping_lookup(entries, key) == mapping_lookup(entries.drop_first(), key));
        lemma_mapping_lookup_at(entries.drop_first(), key, i - 1);
    }
}

impl Node {
    /// Looks up a string key in this node, returning the mapped value when the
    /// node is a mapping that has one.
    pub fn lookup<'a>(&'a self, key: &str) -> (r: Option<&'a Node>)
        ensures
            match r {
                Some(v) => node_lookup(node_model(*self), key@) == Some(node_model(*v)),
                None => node_lookup(node_model(*self), key@) is None,
            },
    {
        match self {
            Node::Mapping(entries) => {
                proof {
                    lemma_node_model_mapping(*entries);
                }
                let ghost em = entries_model(entries@);
                let mut i: usize = 0;
                while i < entries.len()
                    invariant
                        *self == Node::Mapping(*entries),
                        i <= entries.len(),
                        em == entries_model(entries@),
                        em.len() == entries.len(),
                        forall|j: int| 0 <= j < i ==> em[j].0 != NodeModel::Str(key@),
                    decreases entries.len() - i,
                {
                    let hit = match &entries[i].0 {
                        Node::Str(s) => str_eq(s.as_str(), key),
                        _ => false,
                    };
                    proof {
                        assert(em[i as int] == (
                            node_model(entries[i as int].0),
                            node_model(entries[i as int].1),
                        ));
                    }
                    if hit {
                        proof {
                            lemma_node_model_mapping(*entries);
                            lemma_mapping_lookup_at(em, key@, i as int);
                        }
                        return Some(&entries[i].1);
                    }
                    i = i + 1;
                }
                proof {
                    lemma_mapping_lookup_at(em, key@, i as int);
                }
                None
            },
            _ => None,
        }
    }
}

/// Copies a node tree; the copy has the same model.
pub fn clone_node(n: &Node) -> (r: Node)
    ensures
        node_model(r) == node_model(*n),
    decreases n,
{
    match n {
        Node::Null => Node::Null,
        Node::Bool(b) => Node::Bool(*b),
        Node::Int(i) => Node::Int(*i),
        Node::Real(s) => Node::Real(String::from_str(s.as_str())),
        Node::Str(s) => Node::Str(String::from_str(s.as_str())),
        Node::Sequence(v) => {
            let mut out: Vec<Node> = Vec::new();
            let mut i: usize = 0;
            while i < v.len()
                invariant
                    *n == Node::Sequence(*v),
                    i <= v.len(),
                    out.len() == i,
                    forall|j: int| 0 <= j < i ==> node_model(out[j]) == node_model(v[j]),
                decreases v.len() - i,
            {
                proof {
                    assert(decreases_to!(*n => n->Sequence_0));
                    assert(decreases_to!(*v => v@));
                    assert(decreases_to!(v@ => v@[i as int]));
                }
                out.push(clone_node(&v[i]));
                i = i + 1;
            }
            let r = Node::Sequence(out);
            proof {
                lemma_node_model_sequence(out);
                lemma_node_model_sequence(*v);
                assert(seq_model(out@) =~= seq_model(v@));
            }
            r
        },
        Node::Mapping(v) => {
            let mut out: Vec<(Node, Node)> = Vec::new();
            let mut i: usize = 0;
            while i < v.len()
                invariant
                    *n == Node::Mapping(*v),
                    i <= v.len(),
                    out.len() == i,
                    forall|j: int|
                        0 <= j < i ==> node_model(out[j].0) == node_model(v[j].0) && node_model(
                            out[j].1,
                        ) == node_model(v[j].1),
                decreases v.len() - i,
            {
                proof {
                    assert(decreases_to!(*n => n->Mapping_0));
                    assert(decreases_to!(*v => v@));
                    assert(decreases_to!(v@ => v@[i as int]));
                    assert(decreases_to!(v@[i as int] => v@[i as int].0));
                    assert(decreases_to!(v@[i as int] => v@[i as int].1));
                }
                let k = clone_node(&v[i].0);
                let val = clone_node(&v[i].1);
                out.push((k, val));
                i = i + 1;
            }
            let r = Node::Mapping(out);
            proof {
                lemma_node_model_mapping(out);
                lemma_node_model_mapping(*v);
                assert(entries_model(out@) =~= entries_model(v@));
            }
            r
        },
    }
}

} // verus!
