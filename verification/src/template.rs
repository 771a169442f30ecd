//! The template: the parsed resource objects, the declared parameters, and the
//! optional secret identities; built once, processed once.

use vstd::prelude::*;

use crate::encoding::{base64_encode, base64_of};
use crate::node::{
    clone_node, entries_model, lemma_node_model_mapping, mapping_lookup, node_lookup, node_model,
    seq_model, Node, NodeModel,
};
use crate::parameter::{
    param_from_decl, ParamMap, Parameter, ParameterModel, ParameterValues, ValueModel,
};
use crate::processor::{interpolate_node, param_lookup, process_yaml};
use crate::secret::{SecretModel, Secrets};
use crate::text::str_eq;
use crate::yaml_io::{emit_document, emit_result_of, load_documents, parse_result_of};

verus! {

/// The index of the first entry keyed by the string `key`, or the entry count
/// when no entry is.
pub open spec fn key_index(es: Seq<(NodeModel, NodeModel)>, key: Seq<char>) -> int
    decreases es.len(),
{
    if es.len() == 0 {
        0
    } else if es[0].0 == NodeModel::Str(key) {
        0
    } else {
        1 + key_index(es.drop_first(), key)
    }
}

/// `key_index` finds the first entry with the key, and agrees with
/// `mapping_lookup`.
pub proof fn lemma_key_index(es: Seq<(NodeModel, NodeModel)>, key: Seq<char>)
    ensures
        0 <= key_index(es, key) <= es.len(),
        key_index(es, key) < es.len() ==> es[key_index(es, key)].0 == NodeModel::Str(key)
            && mapping_lookup(es, key) == Some(es[key_index(es, key)].1),
        key_index(es, key) == es.len() ==> mapping_lookup(es, key) is None,
        forall|j: int| 0 <= j < key_index(es, key) ==> es[j].0 != NodeModel::Str(key),
    decreases es.len(),
{
    if es.len() == 0 {
    } else if es[0].0 == NodeModel::Str(key) {
    } else {
        lemma_key_index(es.drop_first(), key);
        assert forall|j: int| 0 <= j < key_index(es, key) implies es[j].0 != NodeModel::Str(
            key,
        ) by {
            if j > 0 {
                assert(es.drop_first()[j - 1] == es[j]);
            }
        }
    }
}

/// The encoded form of a secret's data entries: every value, which must be a
/// string, replaced by its Base64 encoding.
pub open spec fn data_encoded(es: Seq<(NodeModel, NodeModel)>) -> Seq<(NodeModel, NodeModel)> {
    Seq::new(es.len(), |i: int| (es[i].0, NodeModel::Str(base64_of(es[i].1->Str_0))))
}

/// What encoding a secret's `data` value yields: the mapping with every value
/// Base64-encoded, or the error for a non-mapping `data` or a non-string
/// value.
pub open spec fn encode_data(d: NodeModel) -> Result<NodeModel, Seq<char>> {
    match d {
        NodeModel::Mapping(es) => if forall|i: int| 0 <= i < es.len() ==> es[i].1 is Str {
            Ok(NodeModel::Mapping(data_encoded(es)))
        } else {
            Err("Encountered non-string secret data value."@)
        },
        _ => Err("Encountered secret with non-hash \"data\" field."@),
    }
}

/// What the secret encoder does to one interpolated object. A non-mapping
/// object is passed through. A mapping must carry a string `kind`; an object
/// of another kind is passed through. A `Secret` must carry mapping `metadata`
/// with a string `name` and an optional string `namespace` (defaulting to
/// `default`); an identity outside the declared set is passed through; a
/// declared one is reported as satisfied, and its `data` mapping, when
/// present, has every value (each must be a string) Base64-encoded.
pub open spec fn secret_encode_object(ids: Set<SecretModel>, obj: NodeModel) -> Result<
    (NodeModel, Option<SecretModel>),
    Seq<char>,
> {
    match obj {
        NodeModel::Mapping(es) => match mapping_lookup(es, "kind"@) {
            None => Err("Encountered a resource without a \"kind\" field."@),
            Some(NodeModel::Str(k)) => if k != "Secret"@ {
                Ok((obj, None))
            } else {
                match mapping_lookup(es, "metadata"@) {
                    Some(NodeModel::Mapping(md)) => match mapping_lookup(md, "name"@) {
                        Some(NodeModel::Str(name)) => {
                            let ns_res = match mapping_lookup(md, "namespace"@) {
                                Some(NodeModel::Str(ns)) => Ok(ns),
                                Some(_) => Err(
                                    "Encountered a resource with a non-string \"metadata.namespace\" field."@,
                                ),
                                None => Ok("default"@),
                            };
                            match ns_res {
                                Err(e) => Err(e),
                                Ok(namespace) => {
                                    let id = SecretModel { name, namespace };
                                    if !ids.contains(id) {
                                        Ok((obj, None))
                                    } else {
                                        let di = key_index(es, "data"@);
                                        if di >= es.len() {
                                            Ok((obj, Some(id)))
                                        } else {
                                            match encode_data(es[di].1) {
                                                Err(e) => Err(e),
                                                Ok(d2) => Ok(
                                                    (
                                                        NodeModel::Mapping(
                                                            es.update(di, (es[di].0, d2)),
                                                        ),
                                                        Some(id),
                                                    ),
                                                ),
                                            }
                                        }
                                    }
                                },
                            }
                        },
                        Some(_) => Err(
                            "Encountered a resource with a non-string \"metadata.name\" field."@,
                        ),
                        None => Err("Encountered a resource without a \"metadata.name\" field."@),
                    },
                    Some(_) => Err("Encountered a resource with a non-hash \"metadata\" field."@),
                    None => Err("Encountered a resource without a \"metadata\" field."@),
                }
            },
            Some(_) => Err(
                "Encountered a resource with a non-string value for the \"kind\" field."@,
            ),
        },
        _ => Ok((obj, None)),
    }
}

/// A satisfied identity reported by the encoder is a member of the declared
/// set.
pub proof fn lemma_satisfied_in_ids(ids: Set<SecretModel>, obj: NodeModel)
    ensures
        match secret_encode_object(ids, obj) {
            Ok((o2, Some(id))) => ids.contains(id),
            _ => true,
        },
{
}


fn encode_data_node(d: &Node) -> (r: Result<Node, String>)
    ensures
        match r {
            Ok(nd) => encode_data(node_model(*d)) == Ok::<NodeModel, Seq<char>>(node_model(nd)),
            Err(e) => encode_data(node_model(*d)) == Err::<NodeModel, Seq<char>>(e@),
        },
{
    match d {
        Node::Mapping(des) => {
            proof {
                lemma_node_model_mapping(*des);
            }
            let ghost dm = entries_model(des@);
            let mut out: Vec<(Node, Node)> = Vec::new();
            let mut i: usize = 0;
            while i < des.len()
                invariant
                    *d == Node::Mapping(*des),
                    node_model(*d) == NodeModel::Mapping(dm),
                    dm == entries_model(des@),
                    dm.len() == des.len(),
                    i <= des.len(),
                    out.len() == i,
                    forall|j: int| 0 <= j < i ==> dm[j].1 is Str,
                    forall|j: int|
                        0 <= j < i ==> node_model(out[j].0) == dm[j].0 && node_model(out[j].1)
                            == NodeModel::Str(base64_of(dm[j].1->Str_0)),
                decreases des.len() - i,
            {
                proof {
                    assert(dm[i as int] == (
                        node_model(des[i as int].0),
                        node_model(des[i as int].1),
                    ));
                }
                match &des[i].1 {
                    Node::Str(v) => {
                        let k = clone_node(&des[i].0);
                        let enc = Node::Str(base64_encode(v.as_str()));
                        out.push((k, enc));
                    },
                    _ => {
                        return Err(String::from_str("Encountered non-string secret data value."));
                    },
                }
                i = i + 1;
            }
            let r = Node::Mapping(out);
            proof {
                lemma_node_model_mapping(out);
                assert(entries_model(out@) =~= data_encoded(dm));
            }
            Ok(r)
        },
        _ => Err(String::from_str("Encountered secret with non-hash \"data\" field.")),
    }
}

fn data_index(entries: &Vec<(Node, Node)>) -> (r: usize)
    ensures
        r as int == key_index(entries_model(entries@), "data"@),
        r <= entries.len(),
{
    let ghost es = entries_model(entries@);
    let mut i: usize = 0;
    while i < entries.len()
        invariant
            es == entries_model(entries@),
            es.len() == entries.len(),
            i <= entries.len(),
            forall|q: int| 0 <= q < i ==> es[q].0 != NodeModel::Str("data"@),
        decreases entries.len() - i,
    {
        let is_data = match &entries[i].0 {
            Node::Str(s) => str_eq(s.as_str(), "data"),
            _ => false,
        };
        proof {
            assert(es[i as int] == (node_model(entries[i as int].0), node_model(entries[i as int].1)));
        }
        if is_data {
            proof {
                lemma_key_index(es, "data"@);
            }
            return i;
        }
        i = i + 1;
    }
    proof {
        lemma_key_index(es, "data"@);
    }
    i
}

fn maybe_base64_encode_secret(secrets: &Secrets, object: &Node) -> (r: Result<
    (Node, Option<(String, String)>),
    String,
>)
    ensures
        match r {
            Ok((obj2, matched)) => secret_encode_object(secrets.model(), node_model(*object))
                == Ok::<(NodeModel, Option<SecretModel>), Seq<char>>(
                (
                    node_model(obj2),
                    match matched {
                        Some((n, ns)) => Some(SecretModel { name: n@, namespace: ns@ }),
                        None => None,
                    },
                ),
            ),
            Err(e) => secret_encode_object(secrets.model(), node_model(*object)) == Err::<
                (NodeModel, Option<SecretModel>),
                Seq<char>,
            >(e@),
        },
{
    let entries = match object {
        Node::Mapping(entries) => entries,
        _ => {
            return Ok((clone_node(object), None));
        },
    };
    proof {
        lemma_node_model_mapping(*entries);
    }
    let ghost es = entries_model(entries@);
    let kind_node = match object.lookup("kind") {
        Some(k) => k,
        None => {
            return Err(String::from_str("Encountered a resource without a \"kind\" field."));
        },
    };
    let kind = match kind_node {
        Node::Str(k) => k,
        _ => {
            return Err(
                String::from_str(
                    "Encountered a resource with a non-string value for the \"kind\" field.",
                ),
            );
        },
    };
    if !str_eq(kind.as_str(), "Secret") {
        return Ok((clone_node(object), None));
    }
    let md_node = match object.lookup("metadata") {
        Some(m) => m,
        None => {
            return Err(String::from_str("Encountered a resource without a \"metadata\" field."));
        },
    };
    match md_node {
        Node::Mapping(_) => {},
        _ => {
            return Err(
                String::from_str("Encountered a resource with a non-hash \"metadata\" field."),
            );
        },
    }
    let name = match md_node.lookup("name") {
        Some(Node::Str(n)) => n,
        Some(_) => {
            return Err(
                String::from_str(
                    "Encountered a resource with a non-string \"metadata.name\" field.",
                ),
            );
        },
        None => {
            return Err(
                String::from_str("Encountered a resource without a \"metadata.name\" field."),
            );
        },
    };
    let namespace: &str = match md_node.lookup("namespace") {
        Some(Node::Str(ns)) => ns.as_str(),
        Some(_) => {
            return Err(
                String::from_str(
                    "Encountered a resource with a non-string \"metadata.namespace\" field.",
                ),
            );
        },
        None => "default",
    };
    let ghost id = SecretModel { name: name@, namespace: namespace@ };
    let n_ids = secrets.count();
    let mut any = false;
    let mut j: usize = 0;
    while j < n_ids
        invariant
            n_ids == secrets.seq_model().len(),
            j <= n_ids,
            id == (SecretModel { name: name@, namespace: namespace@ }),
            any == (exists|q: int| 0 <= q < j && secrets.seq_model()[q] == id),
        decreases n_ids - j,
    {
        if secrets.matches_at(j, name.as_str(), namespace) {
            any = true;
        }
        j = j + 1;
    }
    proof {
        assert(any == secrets.seq_model().contains(id));
    }
    if !any {
        return Ok((clone_node(object), None));
    }
    let di = data_index(entries);
    proof {
        lemma_key_index(es, "data"@);
    }
    if di == entries.len() {
        return Ok(
            (
                clone_node(object),
                Some((String::from_str(name.as_str()), String::from_str(namespace))),
            ),
        );
    }
    let mut out: Vec<(Node, Node)> = Vec::new();
    let mut k: usize = 0;
    while k < entries.len()
        invariant
            *object == Node::Mapping(*entries),
            node_model(*object) == NodeModel::Mapping(es),
            es == entries_model(entries@),
            es.len() == entries.len(),
            di < entries.len(),
            di as int == key_index(es, "data"@),
            id == (SecretModel { name: name@, namespace: namespace@ }),
            (match encode_data(es[di as int].1) {
                Ok(d2) => secret_encode_object(secrets.model(), node_model(*object)) == Ok::<
                    (NodeModel, Option<SecretModel>),
                    Seq<char>,
                >((NodeModel::Mapping(es.update(di as int, (es[di as int].0, d2))), Some(id))),
                Err(e) => secret_encode_object(secrets.model(), node_model(*object)) == Err::<
                    (NodeModel, Option<SecretModel>),
                    Seq<char>,
                >(e),
            }),
            k <= entries.len(),
            out.len() == k,
            forall|q: int|
                0 <= q < k && q != di ==> node_model(out[q].0) == es[q].0 && node_model(out[q].1)
                    == es[q].1,
            k > di ==> encode_data(es[di as int].1) == Ok::<NodeModel, Seq<char>>(
                node_model(out[di as int].1),
            ) && node_model(out[di as int].0) == es[di as int].0,
        decreases entries.len() - k,
    {
        proof {
            assert(es[k as int] == (node_model(entries[k as int].0), node_model(entries[k as int].1)));
        }
        let key_copy = clone_node(&entries[k].0);
        let val = if k == di {
            match encode_data_node(&entries[k].1) {
                Ok(d) => d,
                Err(e) => {
                    return Err(e);
                },
            }
        } else {
            clone_node(&entries[k].1)
        };
        out.push((key_copy, val));
        k = k + 1;
    }
    let rebuilt = Node::Mapping(out);
    proof {
        lemma_node_model_mapping(out);
        let d2 = encode_data(es[di as int].1)->Ok_0;
        assert(entries_model(out@) =~= es.update(di as int, (es[di as int].0, d2)));
    }
    Ok((rebuilt, Some((String::from_str(name.as_str()), String::from_str(namespace)))))
}


/// The model of a template: its resource objects in order, its parameter map,
/// and its optional set of declared secret identities.
pub struct TemplateModel {
    /// Models of the resource objects, in document order.
    pub objects: Seq<NodeModel>,
    /// The parameter map, keyed by name.
    pub params: Map<Seq<char>, ParameterModel>,
    /// The declared secret identities, when any were supplied.
    pub secrets: Option<Set<SecretModel>>,
}

/// The model of an optional secret set.
pub open spec fn secrets_model(s: Option<Secrets>) -> Option<Set<SecretModel>> {
    match s {
        Some(x) => Some(x.model()),
        None => None,
    }
}

/// The parameter map built from the declarations from index `i` on, added to
/// `acc`; the first rejected declaration aborts the whole build.
pub open spec fn build_params(
    decls: Seq<NodeModel>,
    vals: Map<Seq<char>, ValueModel>,
    i: int,
    acc: Map<Seq<char>, ParameterModel>,
) -> Result<Map<Seq<char>, ParameterModel>, Seq<char>>
    decreases decls.len() - i,
{
    if i < 0 || i >= decls.len() {
        Ok(acc)
    } else {
        match param_from_decl(decls[i], vals) {
            Ok(p) => build_params(decls, vals, i + 1, acc.insert(p.name, p)),
            Err(e) => Err(e),
        }
    }
}

/// The template a single parsed document yields: its `objects` and
/// `parameters` keys must both be present and be sequences, and every
/// parameter declaration must build.
pub open spec fn template_from_doc(
    doc: NodeModel,
    vals: Map<Seq<char>, ValueModel>,
    secrets: Option<Set<SecretModel>>,
) -> Result<TemplateModel, Seq<char>> {
    match node_lookup(doc, "objects"@) {
        Some(NodeModel::Sequence(objs)) => match node_lookup(doc, "parameters"@) {
            Some(NodeModel::Sequence(decls)) => match build_params(decls, vals, 0, Map::empty()) {
                Ok(params) => Ok(TemplateModel { objects: objs, params, secrets }),
                Err(e) => Err(e),
            },
            _ => Err("Key \"parameters\" must be present and must be an array."@),
        },
        _ => Err("Key \"objects\" must be present and must be an array."@),
    }
}

/// What constructing a template from raw text yields: the text must parse to
/// exactly one document, which must yield a template.
pub open spec fn template_new_spec(
    text: Seq<char>,
    vals: Map<Seq<char>, ValueModel>,
    secrets: Option<Set<SecretModel>>,
) -> Result<TemplateModel, Seq<char>> {
    match parse_result_of(text) {
        Err(e) => Err(e),
        Ok(docs) => if docs.len() != 1 {
            Err("Only one YAML document can be present in the template."@)
        } else {
            template_from_doc(docs[0], vals, secrets)
        },
    }
}

/// Every object interpolated against the resolved parameter values.
pub open spec fn interpolate_all(
    objs: Seq<NodeModel>,
    pm: Map<Seq<char>, Option<Seq<char>>>,
) -> Seq<NodeModel> {
    Seq::new(objs.len(), |i: int| interpolate_node(objs[i], pm))
}

/// The secret-encoding pass over the objects from index `i` on: each object
/// rewritten in order, accumulating the set of satisfied identities; the first
/// rejected object aborts the run.
pub open spec fn encode_all(
    ids: Set<SecretModel>,
    objs: Seq<NodeModel>,
    i: int,
    acc: Seq<NodeModel>,
    sat: Set<SecretModel>,
) -> Result<(Seq<NodeModel>, Set<SecretModel>), Seq<char>>
    decreases objs.len() - i,
{
    if i < 0 || i >= objs.len() {
        Ok((acc, sat))
    } else {
        match secret_encode_object(ids, objs[i]) {
            Err(e) => Err(e),
            Ok((o2, idopt)) => encode_all(
                ids,
                objs,
                i + 1,
                acc.push(o2),
                match idopt {
                    Some(id) => sat.insert(id),
                    None => sat,
                },
            ),
        }
    }
}

/// The serialized text of the objects from index `i` on, appended to `acc`:
/// each object's document text, a line break between documents; the first
/// emitter error aborts the run.
pub open spec fn dump_docs(objs: Seq<NodeModel>, i: int, acc: Seq<char>) -> Result<
    Seq<char>,
    Seq<char>,
>
    decreases objs.len() - i,
{
    if i < 0 || i >= objs.len() {
        Ok(acc)
    } else {
        match emit_result_of(objs[i]) {
            Err(e) => Err(e),
            Ok(s) => dump_docs(
                objs,
                i + 1,
                if i + 1 < objs.len() {
                    acc + s + seq!['\n']
                } else {
                    acc + s
                },
            ),
        }
    }
}

/// What processing a template yields: every object interpolated, then, when a
/// secret set is declared, every object run through the secret encoder; the
/// run fails unless the satisfied identities are exactly the declared ones;
/// finally the rewritten objects serialized in order.
pub open spec fn process_spec(t: TemplateModel) -> Result<Seq<char>, Seq<char>> {
    let pm = param_lookup(t.params);
    let objs1 = interpolate_all(t.objects, pm);
    match t.secrets {
        None => dump_docs(objs1, 0, Seq::empty()),
        Some(ids) => match encode_all(ids, objs1, 0, Seq::empty(), Set::empty()) {
            Err(e) => Err(e),
            Ok((objs2, sat)) => if sat != ids {
                Err("Not all secrets specified were found."@)
            } else {
                dump_docs(objs2, 0, Seq::empty())
            },
        },
    }
}

fn dump_nodes(objs: &Vec<Node>) -> (r: Result<String, String>)
    ensures
        match r {
            Ok(s) => dump_docs(seq_model(objs@), 0, Seq::empty()) == Ok::<Seq<char>, Seq<char>>(
                s@,
            ),
            Err(e) => dump_docs(seq_model(objs@), 0, Seq::empty()) == Err::<Seq<char>, Seq<char>>(
                e@,
            ),
        },
{
    let ghost om = seq_model(objs@);
    let mut out = String::new();
    let mut i: usize = 0;
    while i < objs.len()
        invariant
            om == seq_model(objs@),
            om.len() == objs.len(),
            i <= objs.len(),
            dump_docs(om, 0, Seq::empty()) == dump_docs(om, i as int, out@),
        decreases objs.len() - i,
    {
        proof {
            assert(om[i as int] == node_model(objs@[i as int]));
        }
        let ghost out0 = out@;
        match emit_document(&objs[i]) {
            Err(e) => {
                return Err(e);
            },
            Ok(s) => {
                out.append(s.as_str());
                if i + 1 < objs.len() {
                    out.append("\n");
                    proof {
                        reveal_strlit("\n");
                        assert(out@ =~= out0 + s@ + seq!['\n']);
                    }
                }
            },
        }
        i = i + 1;
    }
    Ok(out)
}

/// A manifest template: the declared resource objects, the parameter map
/// resolved against the supplied values, and the optional secret identities.
/// Built once by [`Template::new`] and consumed once by [`Template::process`].
pub struct Template {
    objects: Vec<Node>,
    param_map: ParamMap,
    secrets: Option<Secrets>,
}

impl Template {
    /// The model of this template.
    pub closed spec fn model(&self) -> TemplateModel {
        TemplateModel {
            objects: seq_model(self.objects@),
            params: self.param_map.model(),
            secrets: match self.secrets {
                Some(s) => Some(s.model()),
                None => None,
            },
        }
    }

    /// Builds a template from the raw document text, the supplied parameter
    /// values, and an optional set of secret identities to Base64-encode after
    /// interpolation. The text must hold exactly one document with `objects`
    /// and `parameters` sequences, and every declared parameter must resolve.
    pub fn new(
        template_contents: String,
        parameter_values: ParameterValues,
        secrets: Option<Secrets>,
    ) -> (r: Result<Template, String>)
        ensures
            match r {
                Ok(t) => template_new_spec(
                    template_contents@,
                    parameter_values.model(),
                    secrets_model(secrets),
                ) == Ok::<TemplateModel, Seq<char>>(t.model()),
                Err(e) => template_new_spec(
                    template_contents@,
                    parameter_values.model(),
                    secrets_model(secrets),
                ) == Err::<TemplateModel, Seq<char>>(e@),
            },
    {
        let ghost vals = parameter_values.model();
        let docs = match load_documents(template_contents.as_str()) {
            Ok(d) => d,
            Err(e) => {
                return Err(e);
            },
        };
        let ghost dm = seq_model(docs@);
        if docs.len() != 1 {
            return Err(String::from_str("Only one YAML document can be present in the template."));
        }
        let doc = &docs[0];
        proof {
            assert(dm[0] == node_model(docs@[0]));
        }
        let objects_src = match doc.lookup("objects") {
            Some(Node::Sequence(v)) => v,
            _ => {
                return Err(
                    String::from_str("Key \"objects\" must be present and must be an array."),
                );
            },
        };
        proof {
            crate::node::lemma_node_model_sequence(*objects_src);
        }
        let ghost om = seq_model(objects_src@);
        let mut objects: Vec<Node> = Vec::new();
        let mut i: usize = 0;
        while i < objects_src.len()
            invariant
                om == seq_model(objects_src@),
                om.len() == objects_src.len(),
                i <= objects_src.len(),
                objects.len() == i,
                forall|j: int| 0 <= j < i ==> node_model(objects[j]) == om[j],
            decreases objects_src.len() - i,
        {
            proof {
                assert(om[i as int] == node_model(objects_src@[i as int]));
            }
            objects.push(clone_node(&objects_src[i]));
            i = i + 1;
        }
        let decls = match doc.lookup("parameters") {
            Some(Node::Sequence(v)) => v,
            _ => {
                return Err(
                    String::from_str("Key \"parameters\" must be present and must be an array."),
                );
            },
        };
        proof {
            crate::node::lemma_node_model_sequence(*decls);
        }
        let ghost dem = seq_model(decls@);
        let mut param_map = ParamMap::new();
        let mut k: usize = 0;
        while k < decls.len()
            invariant
                parse_result_of(template_contents@) == Ok::<Seq<NodeModel>, Seq<char>>(dm),
                dm.len() == 1,
                node_lookup(dm[0], "objects"@) == Some(NodeModel::Sequence(om)),
                node_lookup(dm[0], "parameters"@) == Some(NodeModel::Sequence(dem)),
                dem == seq_model(decls@),
                dem.len() == decls.len(),
                vals == parameter_values.model(),
                k <= decls.len(),
                build_params(dem, vals, 0, Map::empty()) == build_params(
                    dem,
                    vals,
                    k as int,
                    param_map.model(),
                ),
            decreases decls.len() - k,
        {
            proof {
                assert(dem[k as int] == node_model(decls@[k as int]));
            }
            match Parameter::new(&decls[k], &parameter_values) {
                Ok(p) => {
                    param_map.insert(p);
                },
                Err(e) => {
                    return Err(e);
                },
            }
            k = k + 1;
        }
        let t = Template { objects, param_map, secrets };
        proof {
            assert(seq_model(t.objects@) =~= om);
        }
        Ok(t)
    }

    /// Processes the template: interpolates every object in order, runs the
    /// secret encoder over each when a secret set is declared, enforces that
    /// every declared identity was satisfied, and serializes the rewritten
    /// objects in their original order, each as its own document.
    pub fn process(self) -> (r: Result<String, String>)
        ensures
            match r {
                Ok(s) => process_spec(self.model()) == Ok::<Seq<char>, Seq<char>>(s@),
                Err(e) => process_spec(self.model()) == Err::<Seq<char>, Seq<char>>(e@),
            },
    {
        let ghost tm = self.model();
        let ghost pm = param_lookup(tm.params);
        let ghost objs1 = interpolate_all(tm.objects, pm);
        match &self.secrets {
            None => {
                let mut new_objects: Vec<Node> = Vec::new();
                let mut i: usize = 0;
                while i < self.objects.len()
                    invariant
                        tm == self.model(),
                        tm.objects == seq_model(self.objects@),
                        tm.params == self.param_map.model(),
                        tm.secrets is None,
                        pm == param_lookup(tm.params),
                        objs1 == interpolate_all(tm.objects, pm),
                        objs1.len() == self.objects.len(),
                        i <= self.objects.len(),
                        new_objects.len() == i,
                        forall|j: int| 0 <= j < i ==> node_model(new_objects[j]) == objs1[j],
                    decreases self.objects.len() - i,
                {
                    proof {
                        assert(tm.objects[i as int] == node_model(self.objects@[i as int]));
                        assert(objs1[i as int] == interpolate_node(tm.objects[i as int], pm));
                    }
                    new_objects.push(process_yaml(&self.objects[i], &self.param_map));
                    i = i + 1;
                }
                proof {
                    assert(seq_model(new_objects@) =~= objs1);
                }
                dump_nodes(&new_objects)
            },
            Some(sec) => {
                let ghost ids = sec.model();
                let n_ids = sec.count();
                let mut flags: Vec<bool> = Vec::new();
                let mut f: usize = 0;
                while f < n_ids
                    invariant
                        f <= n_ids,
                        flags.len() == f,
                        forall|q: int| 0 <= q < f ==> flags[q] == false,
                    decreases n_ids - f,
                {
                    flags.push(false);
                    f = f + 1;
                }
                let ghost mut sat = Set::<SecretModel>::empty();
                let mut new_objects: Vec<Node> = Vec::new();
                proof {
                    assert(seq_model(new_objects@) =~= Seq::<NodeModel>::empty());
                }
                let mut i: usize = 0;
                while i < self.objects.len()
                    invariant
                        tm == self.model(),
                        tm.objects == seq_model(self.objects@),
                        tm.params == self.param_map.model(),
                        tm.secrets == Some(ids),
                        ids == sec.model(),
                        n_ids == sec.seq_model().len(),
                        pm == param_lookup(tm.params),
                        objs1 == interpolate_all(tm.objects, pm),
                        objs1.len() == self.objects.len(),
                        i <= self.objects.len(),
                        new_objects.len() == i,
                        flags.len() == n_ids,
                        forall|q: int|
                            0 <= q < n_ids ==> flags[q] == sat.contains(sec.seq_model()[q]),
                        sat.subset_of(ids),
                        encode_all(ids, objs1, 0, Seq::empty(), Set::empty()) == encode_all(
                            ids,
                            objs1,
                            i as int,
                            seq_model(new_objects@),
                            sat,
                        ),
                    decreases self.objects.len() - i,
                {
                    proof {
                        assert(tm.objects[i as int] == node_model(self.objects@[i as int]));
                        assert(objs1[i as int] == interpolate_node(tm.objects[i as int], pm));
                    }
                    let processed = process_yaml(&self.objects[i], &self.param_map);
                    let ghost before_objs = seq_model(new_objects@);
                    match maybe_base64_encode_secret(&sec, &processed) {
                        Err(e) => {
                            return Err(e);
                        },
                        Ok((obj2, matched)) => {
                            new_objects.push(obj2);
                            proof {
                                assert(seq_model(new_objects@) =~= before_objs.push(
                                    node_model(new_objects@.last()),
                                ));
                            }
                            match matched {
                                Some((n, ns)) => {
                                    let ghost mid = SecretModel { name: n@, namespace: ns@ };
                                    let ghost sat0 = sat;
                                    proof {
                                        lemma_satisfied_in_ids(ids, objs1[i as int]);
                                        sat = sat.insert(mid);
                                    }
                                    let mut q: usize = 0;
                                    while q < n_ids
                                        invariant
                                            n_ids == sec.seq_model().len(),
                                            flags.len() == n_ids,
                                            q <= n_ids,
                                            mid == (SecretModel { name: n@, namespace: ns@ }),
                                            sat == sat0.insert(mid),
                                            forall|t: int|
                                                0 <= t < q ==> flags[t] == sat.contains(
                                                    sec.seq_model()[t],
                                                ),
                                            forall|t: int|
                                                q <= t < n_ids ==> flags[t] == sat0.contains(
                                                    sec.seq_model()[t],
                                                ),
                                        decreases n_ids - q,
                                    {
                                        if sec.matches_at(q, n.as_str(), ns.as_str()) {
                                            flags.set(q, true);
                                        }
                                        q = q + 1;
                                    }
                                },
                                None => {},
                            }
                            i = i + 1;
                        },
                    }
                }
                let mut all = true;
                let mut q: usize = 0;
                while q < flags.len()
                    invariant
                        q <= flags.len(),
                        all ==> forall|t: int| 0 <= t < q ==> flags[t],
                        !all ==> exists|t: int| 0 <= t < q && !flags[t],
                    decreases flags.len() - q,
                {
                    if !flags[q] {
                        all = false;
                    }
                    q = q + 1;
                }
                if !all {
                    proof {
                        let t = choose|t: int| 0 <= t < flags@.len() && !flags@[t];
                        assert(!sat.contains(sec.seq_model()[t]));
                        assert(sec.seq_model().contains(sec.seq_model()[t]));
                        assert(ids.contains(sec.seq_model()[t]));
                        assert(sat != ids);
                    }
                    return Err(String::from_str("Not all secrets specified were found."));
                }
                proof {
                    assert forall|id: SecretModel| ids.contains(id) implies sat.contains(id) by {
                        let t = choose|t: int|
                            0 <= t < sec.seq_model().len() && sec.seq_model()[t] == id;
                        assert(flags@[t]);
                    }
                    assert(sat =~= ids);
                }
                dump_nodes(&new_objects)
            },
        }
    }
}

} // verus!
