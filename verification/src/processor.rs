//! The interpolator: rewrites every string scalar in a node tree, substituting
//! resolved parameter values for `$((NAME))` (literal form) and `$(NAME)`
//! (string form) placeholders.

use vstd::prelude::*;

use crate::node::{node_model, Node, NodeModel};
use crate::parameter::{ParamMap, ParameterModel};
use crate::text::str_eq;
use crate::yaml_io::{node_from_str, scalar_of};

verus! {

/// What a parameter map resolves each name to: nothing for an undeclared
/// name, and the declared parameter's optional value otherwise.
pub open spec fn param_lookup(m: Map<Seq<char>, ParameterModel>) -> Map<
    Seq<char>,
    Option<Seq<char>>,
> {
    Map::new(|k: Seq<char>| m.contains_key(k), |k: Seq<char>| m[k].value)
}

/// The position of the first `)` at or after `from`, if any.
pub open spec fn close_pos(s: Seq<char>, from: int) -> Option<int>
    decreases s.len() - from
        when 0 <= from <= s.len()
{
    if from >= s.len() {
        None
    } else if s[from] == ')' {
        Some(from)
    } else {
        close_pos(s, from + 1)
    }
}

/// A literal-form placeholder starting exactly at `p`: `$((`, a name without
/// `)`, then `))`. Yields the position after the match and the name.
pub open spec fn lit_match_at(s: Seq<char>, p: int) -> Option<(int, Seq<char>)> {
    if 0 <= p && p + 3 <= s.len() && s[p] == '$' && s[p + 1] == '(' && s[p + 2] == '(' {
        match close_pos(s, p + 3) {
            Some(k) => if k + 1 < s.len() && s[k + 1] == ')' {
                Some((k + 2, s.subrange(p + 3, k)))
            } else {
                None
            },
            None => None,
        }
    } else {
        None
    }
}

/// A string-form placeholder starting exactly at `p`: `$(`, a name without
/// `)`, then `)`. Yields the position after the match and the name.
pub open spec fn str_match_at(s: Seq<char>, p: int) -> Option<(int, Seq<char>)> {
    if 0 <= p && p + 2 <= s.len() && s[p] == '$' && s[p + 1] == '(' {
        match close_pos(s, p + 2) {
            Some(k) => Some((k + 1, s.subrange(p + 2, k))),
            None => None,
        }
    } else {
        None
    }
}

/// A placeholder of the chosen form starting exactly at `p`.
pub open spec fn match_at(s: Seq<char>, p: int, lit: bool) -> Option<(int, Seq<char>)> {
    if lit {
        lit_match_at(s, p)
    } else {
        str_match_at(s, p)
    }
}

/// The leftmost placeholder of the chosen form starting at or after `p`:
/// its start, its end, and the name it carries.
pub open spec fn first_match(s: Seq<char>, p: int, lit: bool) -> Option<(int, int, Seq<char>)>
    decreases s.len() - p
        when 0 <= p <= s.len()
{
    if p >= s.len() {
        None
    } else {
        match match_at(s, p, lit) {
            Some((end, key)) => Some((p, end, key)),
            None => first_match(s, p + 1, lit),
        }
    }
}

/// What one placeholder is replaced with: the parameter's value, the null
/// spelling `~` for a declared parameter without a value, and the matched
/// text itself for an undeclared name.
pub open spec fn subst_text(
    key: Seq<char>,
    whole: Seq<char>,
    pm: Map<Seq<char>, Option<Seq<char>>>,
) -> Seq<char> {
    if pm.contains_key(key) {
        match pm[key] {
            Some(v) => v,
            None => seq!['~'],
        }
    } else {
        whole
    }
}

/// `close_pos` finds the first `)` at or after `from`.
pub proof fn lemma_close_pos_props(s: Seq<char>, from: int)
    requires
        0 <= from <= s.len(),
    ensures
        match close_pos(s, from) {
            Some(k) => from <= k < s.len() && s[k] == ')' && forall|j: int|
                from <= j < k ==> s[j] != ')',
            None => forall|j: int| from <= j < s.len() ==> s[j] != ')',
        },
    decreases s.len() - from,
{
    if from >= s.len() {
    } else if s[from] == ')' {
    } else {
        lemma_close_pos_props(s, from + 1);
    }
}

/// A placeholder match lies within the text and spans at least three
/// characters.
pub proof fn lemma_match_at_bounds(s: Seq<char>, p: int, lit: bool)
    ensures
        match match_at(s, p, lit) {
            Some((end, key)) => 0 <= p && p + 3 <= end <= s.len(),
            None => true,
        },
{
    if match_at(s, p, lit) is Some {
        if lit {
            lemma_close_pos_props(s, p + 3);
        } else {
            lemma_close_pos_props(s, p + 2);
        }
    }
}

/// The leftmost match lies within the text, starts at or after `p`, and spans
/// at least three characters; and no match of the form starts earlier.
pub proof fn lemma_first_match_bounds(s: Seq<char>, p: int, lit: bool)
    requires
        0 <= p <= s.len(),
    ensures
        match first_match(s, p, lit) {
            Some((st, en, key)) => p <= st && st + 3 <= en <= s.len() && match_at(s, st, lit)
                == Some((en, key)) && forall|q: int| p <= q < st ==> match_at(s, q, lit) is None,
            None => forall|q: int| p <= q < s.len() ==> match_at(s, q, lit) is None,
        },
    decreases s.len() - p,
{
    if p >= s.len() {
    } else {
        match match_at(s, p, lit) {
            Some((end, key)) => {
                lemma_match_at_bounds(s, p, lit);
            },
            None => {
                lemma_first_match_bounds(s, p + 1, lit);
            },
        }
    }
}

/// The text from `pos` on with every placeholder of the chosen form
/// substituted, left to right, non-overlapping; replacement text is not
/// rescanned.
pub open spec fn replace_from(
    s: Seq<char>,
    pos: int,
    pm: Map<Seq<char>, Option<Seq<char>>>,
    lit: bool,
) -> Seq<char>
    decreases s.len() - pos
        when 0 <= pos <= s.len()
{
    match first_match(s, pos, lit) {
        None => s.subrange(pos, s.len() as int),
        Some((st, en, key)) => {
            proof {
                lemma_first_match_bounds(s, pos, lit);
            }
            s.subrange(pos, st) + subst_text(key, s.subrange(st, en), pm) + replace_from(
                s,
                en,
                pm,
                lit,
            )
        },
    }
}

/// The node a string scalar becomes. The literal pass rewrites the text
/// first; the string pass then rewrites the literal pass's output. When the
/// string pass changed the text the node stays a string scalar; when only the
/// literal pass changed it the node takes the changed text's inferred scalar
/// type; when neither changed anything the node is kept as it is.
pub open spec fn interpolate_text(s: Seq<char>, pm: Map<Seq<char>, Option<Seq<char>>>) -> NodeModel {
    let lit = replace_from(s, 0, pm, true);
    let st = replace_from(lit, 0, pm, false);
    if st != lit {
        NodeModel::Str(st)
    } else if lit != s {
        scalar_of(lit)
    } else {
        NodeModel::Str(s)
    }
}

/// A node tree with every string scalar interpolated: sequences and mapping
/// values are rewritten in place, mapping keys and other scalars are kept.
pub open spec fn interpolate_node(n: NodeModel, pm: Map<Seq<char>, Option<Seq<char>>>) -> NodeModel
    decreases n,
{
    match n {
        NodeModel::Str(s) => interpolate_text(s, pm),
        NodeModel::Sequence(elems) => NodeModel::Sequence(
            Seq::new(
                elems.len(),
                |i: int|
                    if 0 <= i < elems.len() {
                        interpolate_node(elems[i], pm)
                    } else {
                        NodeModel::Null
                    },
            ),
        ),
        NodeModel::Mapping(es) => NodeModel::Mapping(
            Seq::new(
                es.len(),
                |i: int|
                    if 0 <= i < es.len() {
                        (es[i].0, interpolate_node(es[i].1, pm))
                    } else {
                        (NodeModel::Null, NodeModel::Null)
                    },
            ),
        ),
        _ => n,
    }
}


fn find_close(s: &str, from: usize) -> (r: Option<usize>)
    requires
        from as int <= s@.len(),
    ensures
        match r {
            Some(k) => close_pos(s@, from as int) == Some(k as int) && from <= k && (k as int)
                < s@.len(),
            None => close_pos(s@, from as int) is None,
        },
{
    let n = s.unicode_len();
    let mut i = from;
    while i < n
        invariant
            from <= i <= n,
            n == s@.len(),
            close_pos(s@, from as int) == close_pos(s@, i as int),
        decreases n - i,
    {
        if s.get_char(i) == ')' {
            return Some(i);
        }
        i = i + 1;
    }
    None
}

fn match_at_exec(s: &str, p: usize, lit: bool) -> (r: Option<(usize, String)>)
    requires
        p as int <= s@.len(),
    ensures
        match r {
            Some((end, key)) => match_at(s@, p as int, lit) == Some((end as int, key@)) && p < end
                && (end as int) <= s@.len(),
            None => match_at(s@, p as int, lit) is None,
        },
{
    let n = s.unicode_len();
    if lit {
        if p < n && n - p >= 3 && s.get_char(p) == '$' && s.get_char(p + 1) == '(' && s.get_char(
            p + 2,
        ) == '(' {
            match find_close(s, p + 3) {
                Some(k) => {
                    proof {
                        lemma_close_pos_props(s@, p as int + 3);
                    }
                    if k + 1 < n && s.get_char(k + 1) == ')' {
                        let key = String::from_str(s.substring_char(p + 3, k));
                        Some((k + 2, key))
                    } else {
                        None
                    }
                },
                None => None,
            }
        } else {
            None
        }
    } else {
        if p < n && n - p >= 2 && s.get_char(p) == '$' && s.get_char(p + 1) == '(' {
            match find_close(s, p + 2) {
                Some(k) => {
                    proof {
                        lemma_close_pos_props(s@, p as int + 2);
                    }
                    let key = String::from_str(s.substring_char(p + 2, k));
                    Some((k + 1, key))
                },
                None => None,
            }
        } else {
            None
        }
    }
}

fn first_match_exec(s: &str, from: usize, lit: bool) -> (r: Option<(usize, usize, String)>)
    requires
        from as int <= s@.len(),
    ensures
        match r {
            Some((st, en, key)) => first_match(s@, from as int, lit) == Some(
                (st as int, en as int, key@),
            ) && from <= st && st < en && (en as int) <= s@.len(),
            None => first_match(s@, from as int, lit) is None,
        },
{
    let n = s.unicode_len();
    let mut p = from;
    while p < n
        invariant
            from <= p <= n,
            n == s@.len(),
            first_match(s@, from as int, lit) == first_match(s@, p as int, lit),
        decreases n - p,
    {
        match match_at_exec(s, p, lit) {
            Some((end, key)) => {
                return Some((p, end, key));
            },
            None => {},
        }
        p = p + 1;
    }
    None
}

fn lookup_replacement(params: &ParamMap, key: &str, whole: &str) -> (r: String)
    ensures
        r@ == subst_text(key@, whole@, param_lookup(params.model())),
{
    match params.get(key) {
        Some(parameter) => match &parameter.value {
            Some(v) => String::from_str(v.as_str()),
            None => {
                let tilde = String::from_str("~");
                proof {
                    reveal_strlit("~");
                    assert(tilde@ =~= seq!['~']);
                }
                tilde
            },
        },
        None => String::from_str(whole),
    }
}

fn replace_pass(s: &str, params: &ParamMap, lit: bool) -> (r: String)
    ensures
        r@ == replace_from(s@, 0, param_lookup(params.model()), lit),
{
    let n = s.unicode_len();
    let ghost pm = param_lookup(params.model());
    let mut out = String::new();
    let mut pos: usize = 0;
    loop
        invariant
            pos <= n,
            n == s@.len(),
            pm == param_lookup(params.model()),
            out@ + replace_from(s@, pos as int, pm, lit) == replace_from(s@, 0, pm, lit),
        decreases n - pos,
    {
        match first_match_exec(s, pos, lit) {
            None => {
                out.append(s.substring_char(pos, n));
                proof {
                    assert(out@ =~= replace_from(s@, 0, pm, lit));
                }
                return out;
            },
            Some((st, en, key)) => {
                let ghost out0 = out@;
                out.append(s.substring_char(pos, st));
                let rep = lookup_replacement(params, key.as_str(), s.substring_char(st, en));
                out.append(rep.as_str());
                proof {
                    assert(out@ + replace_from(s@, en as int, pm, lit) =~= out0 + replace_from(
                        s@,
                        pos as int,
                        pm,
                        lit,
                    ));
                }
                pos = en;
            },
        }
    }
}

/// Rewrites one string scalar: `Some` of the replacement node when either
/// pass changed the text, `None` exactly when neither pass changes anything
/// and the node is to be left as it is.
pub fn process_string(string: &String, parameters: &ParamMap) -> (r: Option<Node>)
    ensures
        match r {
            Some(nd) => node_model(nd) == interpolate_text(
                string@,
                param_lookup(parameters.model()),
            ),
            None => interpolate_text(string@, param_lookup(parameters.model())) == NodeModel::Str(
                string@,
            ),
        },
        r is None <==> (replace_from(string@, 0, param_lookup(parameters.model()), true)
            == string@ && replace_from(string@, 0, param_lookup(parameters.model()), false)
            == string@),
{
    let lit_pass = replace_pass(string.as_str(), parameters, true);
    let str_pass = replace_pass(lit_pass.as_str(), parameters, false);
    if !str_eq(str_pass.as_str(), lit_pass.as_str()) {
        Some(Node::Str(str_pass))
    } else if !str_eq(lit_pass.as_str(), string.as_str()) {
        Some(node_from_str(lit_pass.as_str()))
    } else {
        None
    }
}

/// Interpolates a whole node tree: every string scalar is rewritten, every
/// sequence element and mapping value is processed recursively, mapping keys
/// and the other scalars are kept as they are.
pub fn process_yaml(yaml: &Node, parameters: &ParamMap) -> (r: Node)
    ensures
        node_model(r) == interpolate_node(node_model(*yaml), param_lookup(parameters.model())),
    decreases yaml,
{
    let ghost pm = param_lookup(parameters.model());
    match yaml {
        Node::Null => Node::Null,
        Node::Bool(b) => Node::Bool(*b),
        Node::Int(i) => Node::Int(*i),
        Node::Real(s) => Node::Real(String::from_str(s.as_str())),
        Node::Str(s) => match process_string(s, parameters) {
            Some(nd) => nd,
            None => Node::Str(String::from_str(s.as_str())),
        },
        Node::Sequence(v) => {
            let mut out: Vec<Node> = Vec::new();
            let mut i: usize = 0;
            while i < v.len()
                invariant
                    *yaml == Node::Sequence(*v),
                    pm == param_lookup(parameters.model()),
                    i <= v.len(),
                    out.len() == i,
                    forall|j: int|
                        0 <= j < i ==> node_model(out[j]) == interpolate_node(node_model(v[j]), pm),
                decreases v.len() - i,
            {
                proof {
                    assert(decreases_to!(*yaml => yaml->Sequence_0));
                    assert(decreases_to!(*v => v@));
                    assert(decreases_to!(v@ => v@[i as int]));
                }
                out.push(process_yaml(&v[i], parameters));
                i = i + 1;
            }
            let r = Node::Sequence(out);
            proof {
                crate::node::lemma_node_model_sequence(out);
                crate::node::lemma_node_model_sequence(*v);
                assert(node_model(r)->Sequence_0 =~= interpolate_node(
                    node_model(*yaml),
                    pm,
                )->Sequence_0);
            }
            r
        },
        Node::Mapping(v) => {
            let mut out: Vec<(Node, Node)> = Vec::new();
            let mut i: usize = 0;
            while i < v.len()
                invariant
                    *yaml == Node::Mapping(*v),
                    pm == param_lookup(parameters.model()),
                    i <= v.len(),
                    out.len() == i,
                    forall|j: int|
                        0 <= j < i ==> node_model(out[j].0) == node_model(v[j].0) && node_model(
                            out[j].1,
                        ) == interpolate_node(node_model(v[j].1), pm),
                decreases v.len() - i,
            {
                proof {
                    assert(decreases_to!(*yaml => yaml->Mapping_0));
                    assert(decreases_to!(*v => v@));
                    assert(decreases_to!(v@ => v@[i as int]));
                    assert(decreases_to!(v@[i as int] => v@[i as int].1));
                }
                let k = crate::node::clone_node(&v[i].0);
                let val = process_yaml(&v[i].1, parameters);
                out.push((k, val));
                i = i + 1;
            }
            let r = Node::Mapping(out);
            proof {
                crate::node::lemma_node_model_mapping(out);
                crate::node::lemma_node_model_mapping(*v);
                assert(node_model(r)->Mapping_0 =~= interpolate_node(
                    node_model(*yaml),
                    pm,
                )->Mapping_0);
            }
            r
        },
    }
}

} // verus!
