//! Declared template parameters, their types, and the values supplied for
//! them.

use vstd::prelude::*;

use crate::encoding::{base64_encode, base64_of};
use crate::node::{node_lookup, node_model, Node, NodeModel};
use crate::text::{i64_dec, int_dec, str_eq};

verus! {

/// The declared type of a parameter. A `Base64` parameter's supplied value is
/// Base64-encoded before storage unless it arrives pre-encoded.
#[derive(Clone, Copy)]
pub enum ParameterType {
    /// The supplied value is Base64-encoded before storage.
    Base64,
    /// A boolean parameter.
    Bool,
    /// An integer parameter.
    Int,
    /// A plain string parameter.
    String,
}

impl ParameterType {
    /// Parses a declared parameter type: exactly one of `base64`, `bool`,
    /// `int` or `string`.
    pub fn from_str(s: &str) -> (r: Result<ParameterType, String>)
        ensures
            match r {
                Ok(pt) => parameter_type_of(s@) == Ok::<ParameterType, Seq<char>>(pt),
                Err(e) => parameter_type_of(s@) == Err::<ParameterType, Seq<char>>(e@),
            },
    {
        if str_eq(s, "base64") {
            Ok(ParameterType::Base64)
        } else if str_eq(s, "bool") {
            Ok(ParameterType::Bool)
        } else if str_eq(s, "int") {
            Ok(ParameterType::Int)
        } else if str_eq(s, "string") {
            Ok(ParameterType::String)
        } else {
            let mut msg = String::from_str("Invalid parameterType \"");
            msg.append(s);
            msg.append("\": parameterType must be base64, bool, int, or string.");
            Err(msg)
        }
    }
}

/// The parameter type a declared type text names, or, for any other text, the
/// error naming the offending value.
pub open spec fn parameter_type_of(s: Seq<char>) -> Result<ParameterType, Seq<char>> {
    if s == "base64"@ {
        Ok(ParameterType::Base64)
    } else if s == "bool"@ {
        Ok(ParameterType::Bool)
    } else if s == "int"@ {
        Ok(ParameterType::Int)
    } else if s == "string"@ {
        Ok(ParameterType::String)
    } else {
        Err(
            "Invalid parameterType \""@ + s
                + "\": parameterType must be base64, bool, int, or string."@,
        )
    }
}

/// The user-supplied value of a template parameter, either plain text or
/// Base64-encoded.
pub enum ParameterValue {
    /// A plain text parameter value.
    Plain(String),
    /// A Base64-encoded parameter value.
    Encoded(String),
}

/// The model of a supplied parameter value.
pub enum ValueModel {
    /// Model of a plain text value.
    Plain(Seq<char>),
    /// Model of a pre-encoded value.
    Encoded(Seq<char>),
}

/// The model of a supplied value.
pub open spec fn pv_model(v: ParameterValue) -> ValueModel {
    match v {
        ParameterValue::Plain(s) => ValueModel::Plain(s@),
        ParameterValue::Encoded(s) => ValueModel::Encoded(s@),
    }
}

/// One declared template parameter with its resolved value.
pub struct Parameter {
    /// The optional description of the parameter.
    pub description: Option<String>,
    /// The optional display name of the parameter, used in error messages.
    pub display_name: Option<String>,
    /// The parameter's name, the key placeholders refer to.
    pub name: String,
    /// The declared type, if any.
    pub parameter_type: Option<ParameterType>,
    /// Whether the parameter must resolve to a value.
    pub required: bool,
    /// The resolved value, absent when the parameter is optional and no value
    /// was supplied or declared.
    pub value: Option<String>,
}

/// The model of a declared parameter.
pub struct ParameterModel {
    /// Model of the optional description.
    pub description: Option<Seq<char>>,
    /// Model of the optional display name.
    pub display_name: Option<Seq<char>>,
    /// Model of the name.
    pub name: Seq<char>,
    /// The declared type, if any.
    pub parameter_type: Option<ParameterType>,
    /// Whether the parameter must resolve to a value.
    pub required: bool,
    /// Model of the resolved value.
    pub value: Option<Seq<char>>,
}

/// The model of a parameter.
pub open spec fn parameter_model(p: Parameter) -> ParameterModel {
    ParameterModel {
        description: match p.description {
            Some(s) => Some(s@),
            None => None,
        },
        display_name: match p.display_name {
            Some(s) => Some(s@),
            None => None,
        },
        name: p.name@,
        parameter_type: p.parameter_type,
        required: p.required,
        value: match p.value {
            Some(s) => Some(s@),
            None => None,
        },
    }
}

/// A map of parameter names to user-supplied values of the parameters. A later
/// insertion under the same name replaces the earlier one.
pub struct ParameterValues {
    entries: Vec<(String, ParameterValue)>,
}

/// The map a list of name-value entries builds up, later entries winning.
pub open spec fn values_map(entries: Seq<(String, ParameterValue)>) -> Map<Seq<char>, ValueModel>
    decreases entries.len(),
{
    if entries.len() == 0 {
        Map::empty()
    } else {
        values_map(entries.drop_last()).insert(entries.last().0@, pv_model(entries.last().1))
    }
}

proof fn lemma_values_map_frame(entries: Seq<(String, ParameterValue)>, key: Seq<char>, i: int)
    requires
        0 <= i <= entries.len(),
        forall|j: int| i <= j < entries.len() ==> entries[j].0@ != key,
    ensures
        values_map(entries).contains_key(key) == values_map(entries.take(i)).contains_key(key),
        values_map(entries).contains_key(key) ==> values_map(entries)[key] == values_map(
            entries.take(i),
        )[key],
    decreases entries.len() - i,
{
    if i == entries.len() {
        assert(entries.take(i) =~= entries);
    } else {
        lemma_values_map_frame(entries, key, i + 1);
        let t = entries.take(i + 1);
        assert(t.drop_last() =~= entries.take(i));
        assert(t.last() == entries[i]);
    }
}

proof fn lemma_values_map_concat(a: Seq<(String, ParameterValue)>, b: Seq<(String, ParameterValue)>)
    ensures
        values_map(a + b) == values_map(a).union_prefer_right(values_map(b)),
    decreases b.len(),
{
    if b.len() == 0 {
        assert(a + b =~= a);
        assert(values_map(a).union_prefer_right(values_map(b)) =~= values_map(a));
    } else {
        lemma_values_map_concat(a, b.drop_last());
        assert((a + b).drop_last() =~= a + b.drop_last());
        assert((a + b).last() == b.last());
        assert(values_map(a).union_prefer_right(values_map(b.drop_last())).insert(
            b.last().0@,
            pv_model(b.last().1),
        ) =~= values_map(a).union_prefer_right(values_map(b)));
    }
}

impl ParameterValues {
    /// The map this value stands for.
    pub closed spec fn model(&self) -> Map<Seq<char>, ValueModel> {
        values_map(self.entries@)
    }

    /// Creates an empty map.
    pub fn new() -> (r: ParameterValues)
        ensures
            r.model() == Map::<Seq<char>, ValueModel>::empty(),
    {
        ParameterValues { entries: Vec::new() }
    }

    /// Adds a value under a name, replacing any earlier value under it.
    pub fn insert(&mut self, name: String, value: ParameterValue)
        ensures
            final(self).model() == old(self).model().insert(name@, pv_model(value)),
    {
        let ghost before = self.entries@;
        self.entries.push((name, value));
        proof {
            assert(self.entries@.drop_last() =~= before);
        }
    }

    /// Adds every entry of another map, in its insertion order; its values
    /// replace values already present under the same names.
    pub fn extend(&mut self, other: ParameterValues)
        ensures
            final(self).model() == old(self).model().union_prefer_right(other.model()),
    {
        let ghost a = self.entries@;
        let ghost b = other.entries@;
        let mut other = other;
        self.entries.append(&mut other.entries);
        proof {
            lemma_values_map_concat(a, b);
        }
    }

    /// Looks a name up, returning the value last inserted under it.
    pub fn get<'a>(&'a self, name: &str) -> (r: Option<&'a ParameterValue>)
        ensures
            match r {
                Some(v) => self.model().contains_key(name@) && self.model()[name@] == pv_model(*v),
                None => !self.model().contains_key(name@),
            },
    {
        let mut i: usize = self.entries.len();
        while i > 0
            invariant
                i <= self.entries.len(),
                forall|j: int| i <= j < self.entries.len() ==> self.entries[j].0@ != name@,
            decreases i,
        {
            i = i - 1;
            if str_eq(self.entries[i].0.as_str(), name) {
                proof {
                    lemma_values_map_frame(self.entries@, name@, i as int + 1);
                    let t = self.entries@.take(i as int + 1);
                    assert(t.drop_last() =~= self.entries@.take(i as int));
                    assert(t.last() == self.entries@[i as int]);
                }
                return Some(&self.entries[i].1);
            }
        }
        proof {
            lemma_values_map_frame(self.entries@, name@, 0);
            assert(self.entries@.take(0) =~= Seq::<(String, ParameterValue)>::empty());
        }
        None
    }
}

/// A map of parameter names to declared parameters, keyed by each parameter's
/// own name. A later insertion under the same name replaces the earlier one.
pub struct ParamMap {
    entries: Vec<Parameter>,
}

/// The map a list of parameters builds up, keyed by name, later entries
/// winning.
pub open spec fn params_map(entries: Seq<Parameter>) -> Map<Seq<char>, ParameterModel>
    decreases entries.len(),
{
    if entries.len() == 0 {
        Map::empty()
    } else {
        params_map(entries.drop_last()).insert(
            entries.last().name@,
            parameter_model(entries.last()),
        )
    }
}

proof fn lemma_params_map_frame(entries: Seq<Parameter>, key: Seq<char>, i: int)
    requires
        0 <= i <= entries.len(),
        forall|j: int| i <= j < entries.len() ==> entries[j].name@ != key,
    ensures
        params_map(entries).contains_key(key) == params_map(entries.take(i)).contains_key(key),
        params_map(entries).contains_key(key) ==> params_map(entries)[key] == params_map(
            entries.take(i),
        )[key],
    decreases entries.len() - i,
{
    if i == entries.len() {
        assert(entries.take(i) =~= entries);
    } else {
        lemma_params_map_frame(entries, key, i + 1);
        let t = entries.take(i + 1);
        assert(t.drop_last() =~= entries.take(i));
        assert(t.last() == entries[i]);
    }
}

impl ParamMap {
    /// The map this value stands for.
    pub closed spec fn model(&self) -> Map<Seq<char>, ParameterModel> {
        params_map(self.entries@)
    }

    /// Creates an empty map.
    pub fn new() -> (r: ParamMap)
        ensures
            r.model() == Map::<Seq<char>, ParameterModel>::empty(),
    {
        ParamMap { entries: Vec::new() }
    }

    /// Adds a parameter under its name, replacing any earlier one under it.
    pub fn insert(&mut self, parameter: Parameter)
        ensures
            final(self).model() == old(self).model().insert(
                parameter.name@,
                parameter_model(parameter),
            ),
    {
        let ghost before = self.entries@;
        self.entries.push(parameter);
        proof {
            assert(self.entries@.drop_last() =~= before);
        }
    }

    /// Looks a name up, returning the parameter last inserted under it.
    pub fn get<'a>(&'a self, name: &str) -> (r: Option<&'a Parameter>)
        ensures
            match r {
                Some(p) => self.model().contains_key(name@) && self.model()[name@]
                    == parameter_model(*p),
                None => !self.model().contains_key(name@),
            },
    {
        let mut i: usize = self.entries.len();
        while i > 0
            invariant
                i <= self.entries.len(),
                forall|j: int| i <= j < self.entries.len() ==> self.entries[j].name@ != name@,
            decreases i,
        {
            i = i - 1;
            if str_eq(self.entries[i].name.as_str(), name) {
                proof {
                    lemma_params_map_frame(self.entries@, name@, i as int + 1);
                    let t = self.entries@.take(i as int + 1);
                    assert(t.drop_last() =~= self.entries@.take(i as int));
                    assert(t.last() == self.entries@[i as int]);
                }
                return Some(&self.entries[i]);
            }
        }
        proof {
            lemma_params_map_frame(self.entries@, name@, 0);
            assert(self.entries@.take(0) =~= Seq::<Parameter>::empty());
        }
        None
    }
}


/// The resolved text of a supplied value: a plain value of a `Base64`-typed
/// parameter is Base64-encoded, a pre-encoded one is taken as it is, and for
/// any other declared type the raw text is taken unchanged.
pub open spec fn resolve_supplied(pt: Option<ParameterType>, v: ValueModel) -> Seq<char> {
    match v {
        ValueModel::Plain(s) => if pt is Some && pt->0 is Base64 {
            base64_of(s)
        } else {
            s
        },
        ValueModel::Encoded(s) => s,
    }
}

/// Resolves a supplied value against the declared type, Base64-encoding a
/// plain value when the type asks for it.
pub(crate) fn maybe_base64_encode(
    parameter_type: &Option<ParameterType>,
    user_value: &ParameterValue,
) -> (r: String)
    ensures
        r@ == resolve_supplied(*parameter_type, pv_model(*user_value)),
{
    match (parameter_type, user_value) {
        (Some(ParameterType::Base64), ParameterValue::Plain(s)) => base64_encode(s.as_str()),
        (_, ParameterValue::Plain(s)) => String::from_str(s.as_str()),
        (_, ParameterValue::Encoded(s)) => String::from_str(s.as_str()),
    }
}

/// The wording for a declared type in the error for a required parameter that
/// has no value.
pub open spec fn type_phrase(pt: Option<ParameterType>) -> Seq<char> {
    match pt {
        Some(ParameterType::Base64) => "base64"@,
        Some(ParameterType::Bool) => "a bool"@,
        Some(ParameterType::Int) => "an int"@,
        Some(ParameterType::String) => "a string"@,
        None => "base64, bool, int, or string"@,
    }
}

fn type_phrase_str(pt: &Option<ParameterType>) -> (r: &'static str)
    ensures
        r@ == type_phrase(*pt),
{
    match pt {
        Some(ParameterType::Base64) => "base64",
        Some(ParameterType::Bool) => "a bool",
        Some(ParameterType::Int) => "an int",
        Some(ParameterType::String) => "a string",
        None => "base64, bool, int, or string",
    }
}

/// The parameter a declaration node and the supplied values determine, or the
/// error the declaration is rejected with: a missing or non-string `name`, an
/// unknown `parameterType` text, or a required parameter with no supplied
/// value and no inline `value`.
pub open spec fn param_from_decl(decl: NodeModel, vals: Map<Seq<char>, ValueModel>) -> Result<
    ParameterModel,
    Seq<char>,
> {
    let description = match node_lookup(decl, "description"@) {
        Some(NodeModel::Str(s)) => Some(s),
        _ => None,
    };
    let display_name = match node_lookup(decl, "displayName"@) {
        Some(NodeModel::Str(s)) => Some(s),
        _ => None,
    };
    match node_lookup(decl, "name"@) {
        Some(NodeModel::Str(name)) => {
            let pt_res = match node_lookup(decl, "parameterType"@) {
                Some(NodeModel::Str(t)) => match parameter_type_of(t) {
                    Ok(pt) => Ok(Some(pt)),
                    Err(e) => Err(e),
                },
                _ => Ok(None),
            };
            match pt_res {
                Err(e) => Err(e),
                Ok(parameter_type) => {
                    let required = match node_lookup(decl, "required"@) {
                        Some(NodeModel::Bool(b)) => b,
                        _ => false,
                    };
                    let value_res = if vals.contains_key(name) {
                        Ok(Some(resolve_supplied(parameter_type, vals[name])))
                    } else {
                        match node_lookup(decl, "value"@) {
                            Some(NodeModel::Bool(b)) => Ok(
                                Some(
                                    if b {
                                        "true"@
                                    } else {
                                        "false"@
                                    },
                                ),
                            ),
                            Some(NodeModel::Int(i)) => Ok(Some(int_dec(i))),
                            Some(NodeModel::Str(s)) => Ok(Some(s)),
                            _ => if required {
                                Err(
                                    "Parameter "@ + (match display_name {
                                        Some(d) => d,
                                        None => name,
                                    }) + " required and must be "@ + type_phrase(parameter_type),
                                )
                            } else {
                                Ok(None)
                            },
                        }
                    };
                    match value_res {
                        Err(e) => Err(e),
                        Ok(value) => Ok(
                            ParameterModel {
                                description,
                                display_name,
                                name,
                                parameter_type,
                                required,
                                value,
                            },
                        ),
                    }
                },
            }
        },
        _ => Err("Parameters must have a \"name\" field."@),
    }
}

impl Parameter {
    /// Builds a parameter from its declaration node and the supplied values:
    /// reads `name` (required), `description`, `displayName`, `parameterType`
    /// and `required`, then resolves the value from the supplied values first,
    /// the inline `value` second; a required parameter that resolves to
    /// nothing is an error.
    pub fn new(yaml: &Node, user_values: &ParameterValues) -> (r: Result<Parameter, String>)
        ensures
            match r {
                Ok(p) => param_from_decl(node_model(*yaml), user_values.model()) == Ok::<
                    ParameterModel,
                    Seq<char>,
                >(parameter_model(p)),
                Err(e) => param_from_decl(node_model(*yaml), user_values.model()) == Err::<
                    ParameterModel,
                    Seq<char>,
                >(e@),
            },
    {
        let description: Option<String> = match yaml.lookup("description") {
            Some(Node::Str(s)) => Some(String::from_str(s.as_str())),
            _ => None,
        };
        let display_name: Option<String> = match yaml.lookup("displayName") {
            Some(Node::Str(s)) => Some(String::from_str(s.as_str())),
            _ => None,
        };
        let name: String = match yaml.lookup("name") {
            Some(Node::Str(s)) => String::from_str(s.as_str()),
            _ => {
                return Err(String::from_str("Parameters must have a \"name\" field."));
            },
        };
        let parameter_type: Option<ParameterType> = match yaml.lookup("parameterType") {
            Some(Node::Str(s)) => match ParameterType::from_str(s.as_str()) {
                Ok(pt) => Some(pt),
                Err(e) => {
                    return Err(e);
                },
            },
            _ => None,
        };
        let required: bool = match yaml.lookup("required") {
            Some(Node::Bool(b)) => *b,
            _ => false,
        };
        let value: Option<String> = match user_values.get(name.as_str()) {
            Some(user_value) => Some(maybe_base64_encode(&parameter_type, user_value)),
            None => match yaml.lookup("value") {
                Some(Node::Bool(b)) => Some(
                    if *b {
                        String::from_str("true")
                    } else {
                        String::from_str("false")
                    },
                ),
                Some(Node::Int(i)) => Some(i64_dec(*i)),
                Some(Node::Str(s)) => Some(String::from_str(s.as_str())),
                _ => {
                    if required {
                        let mut msg = String::from_str("Parameter ");
                        match &display_name {
                            Some(d) => msg.append(d.as_str()),
                            None => msg.append(name.as_str()),
                        };
                        msg.append(" required and must be ");
                        msg.append(type_phrase_str(&parameter_type));
                        return Err(msg);
                    } else {
                        None
                    }
                },
            },
        };
        Ok(Parameter { description, display_name, name, parameter_type, required, value })
    }
}


/// The values a parameter-file mapping's entries add to an accumulated map,
/// processed in order from entry `i` on: every name and every value must be a
/// string, and each pair is stored as a plain value.
pub open spec fn pv_entries_fold(
    acc: Map<Seq<char>, ValueModel>,
    es: Seq<(NodeModel, NodeModel)>,
    i: int,
) -> Result<Map<Seq<char>, ValueModel>, Seq<char>>
    decreases es.len() - i,
{
    if i < 0 || i >= es.len() {
        Ok(acc)
    } else {
        match es[i].0 {
            NodeModel::Str(name) => match es[i].1 {
                NodeModel::Str(value) => pv_entries_fold(
                    acc.insert(name, ValueModel::Plain(value)),
                    es,
                    i + 1,
                ),
                _ => Err("Parameter values in parameter files must be strings."@),
            },
            _ => Err("Parameters names in parameter files must be strings."@),
        }
    }
}

/// The values one parameter-file document adds to an accumulated map; the
/// document must be a mapping.
pub open spec fn pv_from_doc(acc: Map<Seq<char>, ValueModel>, doc: NodeModel) -> Result<
    Map<Seq<char>, ValueModel>,
    Seq<char>,
> {
    match doc {
        NodeModel::Mapping(es) => pv_entries_fold(acc, es, 0),
        _ => Err("YAML documents in parameter files must be hashes."@),
    }
}

/// The values the documents from index `i` on add to an accumulated map.
pub open spec fn pv_from_docs(
    acc: Map<Seq<char>, ValueModel>,
    docs: Seq<NodeModel>,
    i: int,
) -> Result<Map<Seq<char>, ValueModel>, Seq<char>>
    decreases docs.len() - i,
{
    if i < 0 || i >= docs.len() {
        Ok(acc)
    } else {
        match pv_from_doc(acc, docs[i]) {
            Ok(acc2) => pv_from_docs(acc2, docs, i + 1),
            Err(e) => Err(e),
        }
    }
}

/// The values a whole parameter-file text yields: the parsed documents'
/// values merged in order, or the parse error or the first rejected entry.
pub open spec fn pv_from_text(text: Seq<char>) -> Result<Map<Seq<char>, ValueModel>, Seq<char>> {
    match crate::yaml_io::parse_result_of(text) {
        Ok(docs) => pv_from_docs(Map::empty(), docs, 0),
        Err(e) => Err(e),
    }
}

fn extend_values_from_yaml(values: &mut ParameterValues, yaml: &Node) -> (r: Result<(), String>)
    ensures
        match r {
            Ok(_) => pv_from_doc(old(values).model(), node_model(*yaml)) == Ok::<
                Map<Seq<char>, ValueModel>,
                Seq<char>,
            >(final(values).model()),
            Err(e) => pv_from_doc(old(values).model(), node_model(*yaml)) == Err::<
                Map<Seq<char>, ValueModel>,
                Seq<char>,
            >(e@),
        },
{
    match yaml {
        Node::Mapping(entries) => {
            proof {
                crate::node::lemma_node_model_mapping(*entries);
            }
            let ghost em = crate::node::entries_model(entries@);
            let ghost acc0 = values.model();
            let mut i: usize = 0;
            while i < entries.len()
                invariant
                    *yaml == Node::Mapping(*entries),
                    node_model(*yaml) == NodeModel::Mapping(em),
                    acc0 == old(values).model(),
                    i <= entries.len(),
                    em == crate::node::entries_model(entries@),
                    em.len() == entries.len(),
                    pv_entries_fold(acc0, em, 0) == pv_entries_fold(values.model(), em, i as int),
                decreases entries.len() - i,
            {
                proof {
                    assert(em[i as int] == (
                        node_model(entries[i as int].0),
                        node_model(entries[i as int].1),
                    ));
                }
                match &entries[i] {
                    (Node::Str(name), Node::Str(value)) => {
                        values.insert(
                            String::from_str(name.as_str()),
                            ParameterValue::Plain(String::from_str(value.as_str())),
                        );
                    },
                    (Node::Str(_), _) => {
                        return Err(
                            String::from_str("Parameter values in parameter files must be strings."),
                        );
                    },
                    _ => {
                        return Err(
                            String::from_str("Parameters names in parameter files must be strings."),
                        );
                    },
                }
                i = i + 1;
            }
            Ok(())
        },
        _ => Err(String::from_str("YAML documents in parameter files must be hashes.")),
    }
}

/// Loads supplied values from one parameter-file document: the document must
/// be a mapping whose names and values are all strings.
pub fn parameter_values_from_yaml(yaml: &Node) -> (r: Result<ParameterValues, String>)
    ensures
        match r {
            Ok(pv) => pv_from_doc(Map::empty(), node_model(*yaml)) == Ok::<
                Map<Seq<char>, ValueModel>,
                Seq<char>,
            >(pv.model()),
            Err(e) => pv_from_doc(Map::empty(), node_model(*yaml)) == Err::<
                Map<Seq<char>, ValueModel>,
                Seq<char>,
            >(e@),
        },
{
    let mut values = ParameterValues::new();
    match extend_values_from_yaml(&mut values, yaml) {
        Ok(_) => Ok(values),
        Err(e) => Err(e),
    }
}

/// Loads supplied values from the raw text of a parameter file: every parsed
/// document's values, merged in order.
pub fn parameter_values_from_str(contents: &str) -> (r: Result<ParameterValues, String>)
    ensures
        match r {
            Ok(pv) => pv_from_text(contents@) == Ok::<Map<Seq<char>, ValueModel>, Seq<char>>(
                pv.model(),
            ),
            Err(e) => pv_from_text(contents@) == Err::<Map<Seq<char>, ValueModel>, Seq<char>>(e@),
        },
{
    let docs = match crate::yaml_io::load_documents(contents) {
        Ok(docs) => docs,
        Err(e) => {
            return Err(e);
        },
    };
    let ghost dm = crate::node::seq_model(docs@);
    let mut values = ParameterValues::new();
    let mut i: usize = 0;
    while i < docs.len()
        invariant
            crate::yaml_io::parse_result_of(contents@) == Ok::<Seq<NodeModel>, Seq<char>>(dm),
            i <= docs.len(),
            dm == crate::node::seq_model(docs@),
            dm.len() == docs.len(),
            pv_from_docs(Map::empty(), dm, 0) == pv_from_docs(values.model(), dm, i as int),
        decreases docs.len() - i,
    {
        proof {
            assert(dm[i as int] == node_model(docs[i as int]));
        }
        match extend_values_from_yaml(&mut values, &docs[i]) {
            Ok(_) => {},
            Err(e) => {
                return Err(e);
            },
        }
        i = i + 1;
    }
    Ok(values)
}

} // verus!
