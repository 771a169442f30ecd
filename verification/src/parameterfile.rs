//! Standalone parameter files: a document whose mappings are flattened into
//! supplied parameter values.

use vstd::prelude::*;

use crate::node::{entries_model, lemma_node_model_mapping, node_model, seq_model, Node, NodeModel};
use crate::parameter::{ParameterValue, ParameterValues, ValueModel};
use crate::text::{i64_dec, int_dec};
use crate::yaml_io::{load_documents, parse_result_of};

verus! {

/// The flattened key of a nested entry: the bare key at the top level, the
/// parent key and the child key joined with `_` below it.
pub open spec fn child_key(prefix: Seq<char>, k: Seq<char>) -> Seq<char> {
    if prefix.len() == 0 {
        k
    } else {
        prefix + seq!['_'] + k
    }
}

/// The values a parameter-file node adds to an accumulated map under a key
/// prefix: a string document is stored under the prefix itself, a mapping is
/// flattened entry by entry, anything else adds nothing.
pub open spec fn flatten_node(
    acc: Map<Seq<char>, ValueModel>,
    prefix: Seq<char>,
    n: NodeModel,
) -> Map<Seq<char>, ValueModel>
    decreases n, 0int,
{
    match n {
        NodeModel::Str(s) => acc.insert(prefix, ValueModel::Plain(s)),
        NodeModel::Mapping(es) => flatten_entries(acc, prefix, es, 0),
        _ => acc,
    }
}

/// The values a mapping's entries from index `i` on add to an accumulated
/// map: boolean, integer, real and string leaves are stored as plain text
/// under their flattened key, nested mappings are flattened recursively, and
/// entries with non-string keys or other value kinds are skipped.
pub open spec fn flatten_entries(
    acc: Map<Seq<char>, ValueModel>,
    prefix: Seq<char>,
    es: Seq<(NodeModel, NodeModel)>,
    i: int,
) -> Map<Seq<char>, ValueModel>
    decreases es, es.len() - i,
{
    if i < 0 || i >= es.len() {
        acc
    } else {
        let acc2 = match es[i].0 {
            NodeModel::Str(k) => {
                let key = child_key(prefix, k);
                match es[i].1 {
                    NodeModel::Str(s) => acc.insert(key, ValueModel::Plain(s)),
                    NodeModel::Int(v) => acc.insert(key, ValueModel::Plain(int_dec(v))),
                    NodeModel::Real(s) => acc.insert(key, ValueModel::Plain(s)),
                    NodeModel::Bool(b) => acc.insert(
                        key,
                        ValueModel::Plain(
                            if b {
                                "true"@
                            } else {
                                "false"@
                            },
                        ),
                    ),
                    NodeModel::Mapping(_) => flatten_node(acc, key, es[i].1),
                    _ => acc,
                }
            },
            _ => acc,
        };
        flatten_entries(acc2, prefix, es, i + 1)
    }
}

/// The values the parsed documents from index `i` on add to an accumulated
/// map, each flattened from an empty prefix.
pub open spec fn flatten_docs(
    acc: Map<Seq<char>, ValueModel>,
    docs: Seq<NodeModel>,
    i: int,
) -> Map<Seq<char>, ValueModel>
    decreases docs.len() - i,
{
    if i < 0 || i >= docs.len() {
        acc
    } else {
        flatten_docs(flatten_node(acc, Seq::empty(), docs[i]), docs, i + 1)
    }
}

/// The values a whole parameter-file text yields: every parsed document
/// flattened in order, or the parse error.
pub open spec fn file_values(text: Seq<char>) -> Result<Map<Seq<char>, ValueModel>, Seq<char>> {
    match parse_result_of(text) {
        Ok(docs) => Ok(flatten_docs(Map::empty(), docs, 0)),
        Err(e) => Err(e),
    }
}

fn flatten_into(values: &mut ParameterValues, prefix: &str, node: &Node)
    ensures
        final(values).model() == flatten_node(old(values).model(), prefix@, node_model(*node)),
    decreases node,
{
    match node {
        Node::Str(s) => {
            values.insert(
                String::from_str(prefix),
                ParameterValue::Plain(String::from_str(s.as_str())),
            );
        },
        Node::Mapping(entries) => {
            proof {
                lemma_node_model_mapping(*entries);
            }
            let ghost em = entries_model(entries@);
            let ghost acc0 = values.model();
            let mut i: usize = 0;
            while i < entries.len()
                invariant
                    *node == Node::Mapping(*entries),
                    node_model(*node) == NodeModel::Mapping(em),
                    acc0 == old(values).model(),
                    em == entries_model(entries@),
                    em.len() == entries.len(),
                    i <= entries.len(),
                    flatten_entries(acc0, prefix@, em, 0) == flatten_entries(
                        values.model(),
                        prefix@,
                        em,
                        i as int,
                    ),
                decreases entries.len() - i,
            {
                proof {
                    assert(em[i as int] == (
                        node_model(entries[i as int].0),
                        node_model(entries[i as int].1),
                    ));
                }
                match &entries[i].0 {
                    Node::Str(ks) => {
                        let key: String = if prefix.unicode_len() == 0 {
                            String::from_str(ks.as_str())
                        } else {
                            let mut key = String::from_str(prefix);
                            key.append("_");
                            key.append(ks.as_str());
                            proof {
                                reveal_strlit("_");
                                assert(key@ =~= prefix@ + seq!['_'] + ks@);
                            }
                            key
                        };
                        match &entries[i].1 {
                            Node::Str(s) => {
                                values.insert(
                                    key,
                                    ParameterValue::Plain(String::from_str(s.as_str())),
                                );
                            },
                            Node::Int(v) => {
                                values.insert(key, ParameterValue::Plain(i64_dec(*v)));
                            },
                            Node::Real(s) => {
                                values.insert(
                                    key,
                                    ParameterValue::Plain(String::from_str(s.as_str())),
                                );
                            },
                            Node::Bool(b) => {
                                let text = if *b {
                                    String::from_str("true")
                                } else {
                                    String::from_str("false")
                                };
                                values.insert(key, ParameterValue::Plain(text));
                            },
                            Node::Mapping(_) => {
                                proof {
                                    assert(decreases_to!(*node => node->Mapping_0));
                                    assert(decreases_to!(*entries => entries@));
                                    assert(decreases_to!(entries@ => entries@[i as int]));
                                    assert(decreases_to!(
                                        entries@[i as int] => entries@[i as int].1));
                                }
                                flatten_into(values, key.as_str(), &entries[i].1);
                            },
                            _ => {},
                        }
                    },
                    _ => {},
                }
                i = i + 1;
            }
        },
        _ => {},
    }
}

/// A parameter file: its name, its raw text, and the values flattened out of
/// it.
pub struct ParameterFile {
    /// The file name the text was read from, empty when it came from memory.
    pub filename: String,
    /// The raw document text.
    pub doc_str: String,
    /// The supplied values flattened out of the documents.
    pub parameters: ParameterValues,
}

impl ParameterFile {
    /// Builds a parameter file from the raw text of its documents, flattening
    /// nested mappings with `_` between parent and child keys.
    pub fn from_str(doc_str: String) -> (r: Result<ParameterFile, String>)
        ensures
            match r {
                Ok(pf) => file_values(doc_str@) == Ok::<Map<Seq<char>, ValueModel>, Seq<char>>(
                    pf.parameters.model(),
                ) && pf.doc_str@ == doc_str@ && pf.filename@ == Seq::<char>::empty(),
                Err(e) => file_values(doc_str@) == Err::<Map<Seq<char>, ValueModel>, Seq<char>>(
                    e@,
                ),
            },
    {
        let docs = match load_documents(doc_str.as_str()) {
            Ok(d) => d,
            Err(e) => {
                return Err(e);
            },
        };
        let ghost dm = seq_model(docs@);
        let mut values = ParameterValues::new();
        let mut i: usize = 0;
        while i < docs.len()
            invariant
                parse_result_of(doc_str@) == Ok::<Seq<NodeModel>, Seq<char>>(dm),
                dm == seq_model(docs@),
                dm.len() == docs.len(),
                i <= docs.len(),
                flatten_docs(Map::empty(), dm, 0) == flatten_docs(values.model(), dm, i as int),
            decreases docs.len() - i,
        {
            proof {
                assert(dm[i as int] == node_model(docs@[i as int]));
            }
            let ghost before = values.model();
            let empty_prefix = "";
            proof {
                reveal_strlit("");
                assert(empty_prefix@ =~= Seq::<char>::empty());
            }
            flatten_into(&mut values, empty_prefix, &docs[i]);
            i = i + 1;
        }
        let filename = String::new();
        proof {
            assert(filename@ =~= Seq::<char>::empty());
        }
        Ok(ParameterFile { filename, doc_str, parameters: values })
    }
}

} // verus!
