//! Laws of the engine: properties that relate the public operations, stated
//! and proved over the same models their contracts use.

use vstd::prelude::*;

use crate::encoding::base64_of;
use crate::node::{node_lookup, NodeModel};
use crate::parameter::{
    param_from_decl, parameter_type_of, resolve_supplied, ParameterType, ValueModel,
};
use crate::processor::{
    first_match, interpolate_node, interpolate_text, lemma_first_match_bounds, param_lookup,
    replace_from, subst_text,
};
use crate::secret::SecretModel;
use crate::template::{
    build_params, dump_docs, encode_all, interpolate_all, key_index, lemma_satisfied_in_ids,
    process_spec, secret_encode_object, TemplateModel,
};

verus! {

/// A text with no placeholder of either form.
pub open spec fn placeholder_free_text(s: Seq<char>) -> bool {
    first_match(s, 0, true) is None && first_match(s, 0, false) is None
}

/// A node tree none of whose string scalars holds a placeholder; mapping keys
/// are never interpolated, so only mapping values are looked into.
pub open spec fn placeholder_free(n: NodeModel) -> bool
    decreases n,
{
    match n {
        NodeModel::Str(s) => placeholder_free_text(s),
        NodeModel::Sequence(elems) => forall|i: int|
            0 <= i < elems.len() ==> placeholder_free(#[trigger] elems[i]),
        NodeModel::Mapping(es) => forall|i: int|
            0 <= i < es.len() ==> placeholder_free(#[trigger] es[i].1),
        _ => true,
    }
}

proof fn lemma_interpolate_text_unchanged(s: Seq<char>, pm: Map<Seq<char>, Option<Seq<char>>>)
    requires
        placeholder_free_text(s),
    ensures
        interpolate_text(s, pm) == NodeModel::Str(s),
{
    assert(s.subrange(0, s.len() as int) =~= s);
    assert(replace_from(s, 0, pm, true) == s);
}

proof fn lemma_interpolate_node_unchanged(n: NodeModel, pm: Map<Seq<char>, Option<Seq<char>>>)
    requires
        placeholder_free(n),
    ensures
        interpolate_node(n, pm) == n,
    decreases n,
{
    match n {
        NodeModel::Str(s) => {
            lemma_interpolate_text_unchanged(s, pm);
        },
        NodeModel::Sequence(elems) => {
            assert forall|i: int| 0 <= i < elems.len() implies interpolate_node(
                #[trigger] elems[i],
                pm,
            ) == elems[i] by {
                lemma_interpolate_node_unchanged(elems[i], pm);
            }
            assert(interpolate_node(n, pm)->Sequence_0 =~= elems);
        },
        NodeModel::Mapping(es) => {
            assert forall|i: int| 0 <= i < es.len() implies interpolate_node(
                #[trigger] es[i].1,
                pm,
            ) == es[i].1 by {
                lemma_interpolate_node_unchanged(es[i].1, pm);
            }
            assert(interpolate_node(n, pm)->Mapping_0 =~= es);
        },
        _ => {},
    }
}

/// Round-trip identity: a template that declares no parameters, whose objects
/// hold no placeholder, and that has no secret set, serializes its objects
/// unchanged.
pub proof fn lemma_round_trip(t: TemplateModel)
    requires
        t.params == Map::<Seq<char>, crate::parameter::ParameterModel>::empty(),
        t.secrets is None,
        forall|i: int| 0 <= i < t.objects.len() ==> placeholder_free(#[trigger] t.objects[i]),
    ensures
        process_spec(t) == dump_docs(t.objects, 0, Seq::<char>::empty()),
{
    let pm = param_lookup(t.params);
    assert forall|i: int| 0 <= i < t.objects.len() implies interpolate_node(
        #[trigger] t.objects[i],
        pm,
    ) == t.objects[i] by {
        lemma_interpolate_node_unchanged(t.objects[i], pm);
    }
    assert(interpolate_all(t.objects, pm) =~= t.objects);
}

/// A well-shaped declaration: it carries a string `name`, and its
/// `parameterType`, when it is a string, names a known type.
pub open spec fn well_shaped_decl(decl: NodeModel) -> bool {
    &&& node_lookup(decl, "name"@) matches Some(NodeModel::Str(_))
    &&& (match node_lookup(decl, "parameterType"@) {
        Some(NodeModel::Str(t)) => parameter_type_of(t) is Ok,
        _ => true,
    })
}

/// A declaration with an inline `value` of a supported kind.
pub open spec fn has_inline_value(decl: NodeModel) -> bool {
    match node_lookup(decl, "value"@) {
        Some(NodeModel::Bool(_)) => true,
        Some(NodeModel::Int(_)) => true,
        Some(NodeModel::Str(_)) => true,
        _ => false,
    }
}

/// The declared name of a well-shaped declaration.
pub open spec fn decl_name(decl: NodeModel) -> Seq<char> {
    node_lookup(decl, "name"@)->0->Str_0
}

/// Required-parameter enforcement, the failing direction: a well-shaped
/// declaration marked required, with no supplied value under its name and no
/// inline `value`, is rejected.
pub proof fn lemma_required_parameter_fails(decl: NodeModel, vals: Map<Seq<char>, ValueModel>)
    requires
        well_shaped_decl(decl),
        node_lookup(decl, "required"@) == Some(NodeModel::Bool(true)),
        !vals.contains_key(decl_name(decl)),
        !has_inline_value(decl),
    ensures
        param_from_decl(decl, vals) is Err,
{
}

/// Required-parameter enforcement, the succeeding direction: a well-shaped
/// declaration builds whenever a value is supplied under its name or it
/// carries an inline `value`.
pub proof fn lemma_required_parameter_succeeds(decl: NodeModel, vals: Map<Seq<char>, ValueModel>)
    requires
        well_shaped_decl(decl),
        vals.contains_key(decl_name(decl)) || has_inline_value(decl),
    ensures
        param_from_decl(decl, vals) is Ok,
{
}

/// The parameter set fails to build exactly when some declaration in it is
/// rejected.
pub proof fn lemma_build_params_err_iff(
    decls: Seq<NodeModel>,
    vals: Map<Seq<char>, ValueModel>,
    i: int,
    acc: Map<Seq<char>, crate::parameter::ParameterModel>,
)
    requires
        0 <= i <= decls.len(),
    ensures
        build_params(decls, vals, i, acc) is Err <==> exists|j: int|
            i <= j < decls.len() && param_from_decl(#[trigger] decls[j], vals) is Err,
    decreases decls.len() - i,
{
    if i < decls.len() {
        match param_from_decl(decls[i], vals) {
            Ok(p) => {
                lemma_build_params_err_iff(decls, vals, i + 1, acc.insert(p.name, p));
            },
            Err(_) => {
            },
        }
    }
}

/// Required-parameter enforcement at the constructor: in a document whose
/// `objects` and `parameters` keys are well-shaped sequences, the template
/// build fails exactly when some parameter declaration is rejected — in
/// particular, when a required parameter resolves to no value.
pub proof fn lemma_required_parameter_fails_template(
    doc: NodeModel,
    vals: Map<Seq<char>, ValueModel>,
    secrets: Option<Set<SecretModel>>,
    decls: Seq<NodeModel>,
)
    requires
        node_lookup(doc, "objects"@) matches Some(NodeModel::Sequence(_)),
        node_lookup(doc, "parameters"@) == Some(NodeModel::Sequence(decls)),
    ensures
        crate::template::template_from_doc(doc, vals, secrets) is Err <==> exists|i: int|
            0 <= i < decls.len() && param_from_decl(#[trigger] decls[i], vals) is Err,
{
    lemma_build_params_err_iff(decls, vals, 0, Map::empty());
}

/// Base64 idempotence: a `Base64`-typed parameter supplied pre-encoded
/// resolves to the supplied text unchanged, and one supplied plain resolves to
/// the Base64 encoding of the supplied text.
pub proof fn lemma_base64_value_resolution(v: Seq<char>)
    ensures
        resolve_supplied(Some(ParameterType::Base64), ValueModel::Encoded(v)) == v,
        resolve_supplied(Some(ParameterType::Base64), ValueModel::Plain(v)) == base64_of(v),
{
}

/// Every placeholder of the chosen form from `pos` on refers to an undeclared
/// name.
pub open spec fn keys_undeclared_from(
    s: Seq<char>,
    pos: int,
    pm: Map<Seq<char>, Option<Seq<char>>>,
    lit: bool,
) -> bool
    decreases s.len() - pos
        when 0 <= pos <= s.len()
{
    match first_match(s, pos, lit) {
        None => true,
        Some((st, en, key)) => {
            proof {
                lemma_first_match_bounds(s, pos, lit);
            }
            !pm.contains_key(key) && keys_undeclared_from(s, en, pm, lit)
        },
    }
}

proof fn lemma_replace_undeclared(
    s: Seq<char>,
    pos: int,
    pm: Map<Seq<char>, Option<Seq<char>>>,
    lit: bool,
)
    requires
        0 <= pos <= s.len(),
        keys_undeclared_from(s, pos, pm, lit),
    ensures
        replace_from(s, pos, pm, lit) == s.subrange(pos, s.len() as int),
    decreases s.len() - pos,
{
    match first_match(s, pos, lit) {
        None => {},
        Some((st, en, key)) => {
            lemma_first_match_bounds(s, pos, lit);
            lemma_replace_undeclared(s, en, pm, lit);
            assert(subst_text(key, s.subrange(st, en), pm) == s.subrange(st, en));
            assert(s.subrange(pos, st) + s.subrange(st, en) + s.subrange(en, s.len() as int) =~= s
                .subrange(pos, s.len() as int));
        },
    }
}

/// Unresolved placeholder passthrough: a string scalar whose placeholders all
/// refer to undeclared names is left verbatim — neither pass changes the
/// text, so the rewriter reports no replacement for it.
pub proof fn lemma_unresolved_placeholder_passthrough(
    s: Seq<char>,
    pm: Map<Seq<char>, Option<Seq<char>>>,
)
    requires
        keys_undeclared_from(s, 0, pm, true),
        keys_undeclared_from(s, 0, pm, false),
    ensures
        interpolate_text(s, pm) == NodeModel::Str(s),
        replace_from(s, 0, pm, true) == s,
        replace_from(s, 0, pm, false) == s,
{
    lemma_replace_undeclared(s, 0, pm, true);
    lemma_replace_undeclared(s, 0, pm, false);
    assert(s.subrange(0, s.len() as int) =~= s);
}

/// An object satisfies an identity when the secret encoder rewrites it and
/// reports that identity.
pub open spec fn satisfies(ids: Set<SecretModel>, obj: NodeModel, id: SecretModel) -> bool {
    match secret_encode_object(ids, obj) {
        Ok((_, Some(found))) => found == id,
        _ => false,
    }
}

proof fn lemma_encode_all_sat(
    ids: Set<SecretModel>,
    objs: Seq<NodeModel>,
    i: int,
    acc: Seq<NodeModel>,
    sat0: Set<SecretModel>,
    objs_out: Seq<NodeModel>,
    sat_out: Set<SecretModel>,
)
    requires
        0 <= i <= objs.len(),
        encode_all(ids, objs, i, acc, sat0) == Ok::<(Seq<NodeModel>, Set<SecretModel>), Seq<char>>(
            (objs_out, sat_out),
        ),
    ensures
        forall|id: SecretModel|
            sat_out.contains(id) <==> sat0.contains(id) || (exists|j: int|
                i <= j < objs.len() && satisfies(ids, #[trigger] objs[j], id)),
    decreases objs.len() - i,
{
    if i < objs.len() {
        match secret_encode_object(ids, objs[i]) {
            Err(_) => {},
            Ok((o2, idopt)) => {
                let sat1 = match idopt {
                    Some(id) => sat0.insert(id),
                    None => sat0,
                };
                lemma_encode_all_sat(ids, objs, i + 1, acc.push(o2), sat1, objs_out, sat_out);
                assert forall|id: SecretModel| sat_out.contains(id) implies sat0.contains(id) || (
                exists|j: int| i <= j < objs.len() && satisfies(ids, #[trigger] objs[j], id)) by {
                    if sat1.contains(id) {
                        if !sat0.contains(id) {
                            assert(satisfies(ids, objs[i], id));
                        }
                    } else {
                        let j = choose|j: int|
                            i + 1 <= j < objs.len() && satisfies(ids, #[trigger] objs[j], id);
                        assert(satisfies(ids, objs[j], id));
                    }
                }
                assert forall|id: SecretModel|
                    sat0.contains(id) || (exists|j: int|
                        i <= j < objs.len() && satisfies(ids, #[trigger] objs[j], id)) implies sat_out.contains(
                    id,
                ) by {
                    if sat0.contains(id) {
                        assert(sat1.contains(id));
                    } else {
                        let j = choose|j: int|
                            i <= j < objs.len() && satisfies(ids, #[trigger] objs[j], id);
                        if j == i {
                            assert(sat1.contains(id));
                        } else {
                            assert(satisfies(ids, objs[j], id));
                        }
                    }
                }
            },
        }
    }
}

/// Secret completeness: when the encoding pass itself succeeds, the run fails
/// with the completeness error exactly when some declared identity is
/// satisfied by no object, and otherwise serializes the encoded objects.
pub proof fn lemma_secret_completeness(
    t: TemplateModel,
    ids: Set<SecretModel>,
    objs2: Seq<NodeModel>,
    sat: Set<SecretModel>,
)
    requires
        t.secrets == Some(ids),
        encode_all(
            ids,
            interpolate_all(t.objects, param_lookup(t.params)),
            0,
            Seq::empty(),
            Set::empty(),
        ) == Ok::<(Seq<NodeModel>, Set<SecretModel>), Seq<char>>((objs2, sat)),
    ensures
        (sat != ids) <==> (exists|id: SecretModel|
            ids.contains(id) && !(exists|j: int|
                0 <= j < t.objects.len() && satisfies(
                    ids,
                    #[trigger] interpolate_all(t.objects, param_lookup(t.params))[j],
                    id,
                ))),
        (sat != ids) ==> process_spec(t) == Err::<Seq<char>, Seq<char>>(
            "Not all secrets specified were found."@,
        ),
        (sat == ids) ==> process_spec(t) == dump_docs(objs2, 0, Seq::<char>::empty()),
{
    let objs1 = interpolate_all(t.objects, param_lookup(t.params));
    lemma_encode_all_sat(ids, objs1, 0, Seq::empty(), Set::empty(), objs2, sat);
    assert forall|id: SecretModel| sat.contains(id) implies ids.contains(id) by {
        assert(!Set::<SecretModel>::empty().contains(id));
        let j = choose|j: int| 0 <= j < objs1.len() && satisfies(ids, #[trigger] objs1[j], id);
        lemma_satisfied_in_ids(ids, objs1[j]);
    }
    if forall|id: SecretModel|
        ids.contains(id) ==> exists|j: int|
            0 <= j < objs1.len() && satisfies(ids, #[trigger] objs1[j], id) {
        assert(sat =~= ids);
    } else {
        let id = choose|id: SecretModel|
            ids.contains(id) && !(exists|j: int|
                0 <= j < objs1.len() && satisfies(ids, #[trigger] objs1[j], id));
        assert(!sat.contains(id));
        assert(sat != ids);
    }
}

/// Namespace defaulting: a `Secret` resource whose metadata carries a string
/// name and omits the namespace is matched under the namespace `default`.
pub proof fn lemma_namespace_defaulting(
    ids: Set<SecretModel>,
    obj: NodeModel,
    es: Seq<(NodeModel, NodeModel)>,
    md: Seq<(NodeModel, NodeModel)>,
    name: Seq<char>,
)
    requires
        obj == NodeModel::Mapping(es),
        crate::node::mapping_lookup(es, "kind"@) == Some(NodeModel::Str("Secret"@)),
        crate::node::mapping_lookup(es, "metadata"@) == Some(NodeModel::Mapping(md)),
        crate::node::mapping_lookup(md, "name"@) == Some(NodeModel::Str(name)),
        crate::node::mapping_lookup(md, "namespace"@) is None,
    ensures
        !ids.contains(SecretModel { name, namespace: "default"@ }) ==> secret_encode_object(
            ids,
            obj,
        ) == Ok::<(NodeModel, Option<SecretModel>), Seq<char>>((obj, None)),
        (ids.contains(SecretModel { name, namespace: "default"@ }) && (key_index(es, "data"@)
            >= es.len() || crate::template::encode_data(es[key_index(es, "data"@)].1) is Ok))
            ==> (match secret_encode_object(ids, obj) {
            Ok((_, Some(id))) => id == (SecretModel { name, namespace: "default"@ }),
            _ => false,
        }),
{
}

} // verus!
