//! The parsed tree of a template and the values it is rendered against.
use vstd::prelude::*;
pub use crate::render::{RenderError, Renderable};
use crate::text::{char_range, slice_chars};

verus! {

/// One element of a parsed template.
#[derive(Debug, PartialEq, Eq)]
pub enum Node {
    Section { identifier: String, inverted: bool, children: Vec<Node> },
    Variable { identifier: String, escaped: bool },
    Text(String),
    Implicit,
    Comment(String),
    Partial { identifier: String, dynamic: bool },
    Block { identifier: String, children: Vec<Node> },
    Parent { identifier: String, dynamic: bool, children: Vec<Node> },
}

/// The mathematical value of a [`Node`].
pub ghost enum NodeModel {
    Section { identifier: Seq<char>, inverted: bool, children: Seq<NodeModel> },
    Variable { identifier: Seq<char>, escaped: bool },
    Text(Seq<char>),
    Implicit,
    Comment(Seq<char>),
    Partial { identifier: Seq<char>, dynamic: bool },
    Block { identifier: Seq<char>, children: Seq<NodeModel> },
    Parent { identifier: Seq<char>, dynamic: bool, children: Seq<NodeModel> },
}

/// The mathematical value of `node`.
pub open spec fn node_model(node: Node) -> NodeModel
    decreases node,
{
    match node {
        Node::Section { identifier, inverted, children } => NodeModel::Section {
            identifier: identifier@,
            inverted,
            children: Seq::new(
                children@.len(),
                |i: int|
                    if 0 <= i < children@.len() {
                        node_model(children@[i])
                    } else {
                        NodeModel::Implicit
                    },
            ),
        },
        Node::Variable { identifier, escaped } => NodeModel::Variable {
            identifier: identifier@,
            escaped,
        },
        Node::Text(text) => NodeModel::Text(text@),
        Node::Implicit => NodeModel::Implicit,
        Node::Comment(body) => NodeModel::Comment(body@),
        Node::Partial { identifier, dynamic } => NodeModel::Partial {
            identifier: identifier@,
            dynamic,
        },
        Node::Block { identifier, children } => NodeModel::Block {
            identifier: identifier@,
            children: Seq::new(
                children@.len(),
                |i: int|
                    if 0 <= i < children@.len() {
                        node_model(children@[i])
                    } else {
                        NodeModel::Implicit
                    },
            ),
        },
        Node::Parent { identifier, dynamic, children } => NodeModel::Parent {
            identifier: identifier@,
            dynamic,
            children: Seq::new(
                children@.len(),
                |i: int|
                    if 0 <= i < children@.len() {
                        node_model(children@[i])
                    } else {
                        NodeModel::Implicit
                    },
            ),
        },
    }
}

impl View for Node {
    type V = NodeModel;

    open spec fn view(&self) -> NodeModel {
        node_model(*self)
    }
}

/// The values of a sequence of nodes, in order.
pub open spec fn node_models(nodes: Seq<Node>) -> Seq<NodeModel> {
    Seq::new(nodes.len(), |i: int| nodes[i]@)
}

/// The children of a section, block or parent are the values of its child
/// nodes.
pub proof fn lemma_children_models(node: Node)
    ensures
        node matches Node::Section { children, .. } ==> node@->Section_children == node_models(
            children@,
        ),
        node matches Node::Block { children, .. } ==> node@->Block_children == node_models(
            children@,
        ),
        node matches Node::Parent { children, .. } ==> node@->Parent_children == node_models(
            children@,
        ),
{
    match node {
        Node::Section { children, .. } => {
            assert(node@->Section_children =~= node_models(children@));
        },
        Node::Block { children, .. } => {
            assert(node@->Block_children =~= node_models(children@));
        },
        Node::Parent { children, .. } => {
            assert(node@->Parent_children =~= node_models(children@));
        },
        _ => {},
    }
}

} // verus!

verus! {

/// A value that a template is rendered against.
#[derive(Debug, PartialEq, Eq)]
pub enum Value {
    String(String),
    Vec(Vec<Value>),
    Bool(bool),
    /// Named fields, in the order in which they were set; where a name
    /// stands twice, the later field is the one that counts.
    Object(Vec<(String, Value)>),
    Null,
}

/// The mathematical value of a [`Value`].
pub ghost enum ValueModel {
    String(Seq<char>),
    Vec(Seq<ValueModel>),
    Bool(bool),
    Object(Seq<(Seq<char>, ValueModel)>),
    Null,
}

/// The mathematical value of `value`.
pub open spec fn value_model(value: Value) -> ValueModel
    decreases value,
{
    match value {
        Value::String(text) => ValueModel::String(text@),
        Value::Vec(items) => ValueModel::Vec(
            Seq::new(
                items@.len(),
                |i: int|
                    if 0 <= i < items@.len() {
                        value_model(items@[i])
                    } else {
                        ValueModel::Null
                    },
            ),
        ),
        Value::Bool(truth) => ValueModel::Bool(truth),
        Value::Object(fields) => ValueModel::Object(
            Seq::new(
                fields@.len(),
                |i: int|
                    if 0 <= i < fields@.len() {
                        (fields@[i].0@, value_model(fields@[i].1))
                    } else {
                        (Seq::empty(), ValueModel::Null)
                    },
            ),
        ),
        Value::Null => ValueModel::Null,
    }
}

impl View for Value {
    type V = ValueModel;

    open spec fn view(&self) -> ValueModel {
        value_model(*self)
    }
}

/// The values of a sequence of values, in order.
pub open spec fn value_models(values: Seq<Value>) -> Seq<ValueModel> {
    Seq::new(values.len(), |i: int| values[i]@)
}

/// The values of a sequence of fields, in order.
pub open spec fn field_models(fields: Seq<(String, Value)>) -> Seq<(Seq<char>, ValueModel)> {
    Seq::new(fields.len(), |i: int| (fields[i].0@, fields[i].1@))
}

/// The items of a sequence value are the values of its items, and the fields
/// of an object are the values of its fields.
pub proof fn lemma_value_parts(value: Value)
    ensures
        value matches Value::Vec(items) ==> value@ == ValueModel::Vec(value_models(items@)),
        value matches Value::Object(fields) ==> value@ == ValueModel::Object(
            field_models(fields@),
        ),
{
    match value {
        Value::Vec(items) => {
            assert(value@->Vec_0 =~= value_models(items@));
        },
        Value::Object(fields) => {
            assert(value@->Object_0.len() == fields@.len());
            assert(value@->Object_0 =~= field_models(fields@));
        },
        _ => {},
    }
}

/// The string form of a value: a string is itself, a boolean is `true` or
/// `false`, a sequence is the string forms of its items one after another,
/// and an object and the null value are the empty string.
pub open spec fn to_text(value: ValueModel) -> Seq<char>
    decreases value, 0nat,
{
    match value {
        ValueModel::String(text) => text,
        ValueModel::Vec(items) => join_texts(items, items.len()),
        ValueModel::Bool(truth) => if truth {
            "true"@
        } else {
            "false"@
        },
        ValueModel::Object(_) => Seq::empty(),
        ValueModel::Null => Seq::empty(),
    }
}

/// The string forms of the first `count` of `items`, one after another.
pub open spec fn join_texts(items: Seq<ValueModel>, count: nat) -> Seq<char>
    decreases items, count,
{
    if count == 0 || count > items.len() {
        Seq::empty()
    } else {
        join_texts(items, (count - 1) as nat) + to_text(items[count - 1])
    }
}

/// Whether a section over this value is rendered: `true`, a string or a
/// sequence that is not empty, and every object.
pub open spec fn truthy(value: ValueModel) -> bool {
    match value {
        ValueModel::String(text) => text.len() > 0,
        ValueModel::Vec(items) => items.len() > 0,
        ValueModel::Bool(truth) => truth,
        ValueModel::Object(_) => true,
        ValueModel::Null => false,
    }
}

/// The value of the last field named `key`, where there is one.
pub open spec fn field_of(fields: Seq<(Seq<char>, ValueModel)>, key: Seq<char>) -> Option<
    ValueModel,
>
    decreases fields.len(),
{
    if fields.len() == 0 {
        None
    } else if fields.last().0 == key {
        Some(fields.last().1)
    } else {
        field_of(fields.drop_last(), key)
    }
}

impl Value {
    /// The string form of this value.
    pub fn to_string(&self) -> (text: String)
        ensures
            text@ == to_text(self@),
        decreases self@,
    {
        match self {
            Value::String(text) => text.clone(),
            Value::Vec(items) => {
                proof {
                    lemma_value_parts(*self);
                }
                let mut text = String::new();
                let mut i: usize = 0;
                while i < items.len()
                    invariant
                        i <= items@.len(),
                        self@ == ValueModel::Vec(value_models(items@)),
                        text@ == join_texts(value_models(items@), i as nat),
                    decreases items@.len() - i,
                {
                    proof {
                        let models = value_models(items@);
                        assert(models[i as int] == items@[i as int]@);
                        assert(decreases_to!(self@ => self@->Vec_0));
                        assert(decreases_to!(models => models[i as int]));
                    }
                    let item = items[i].to_string();
                    text.append(item.as_str());
                    i = i + 1;
                }
                text
            },
            Value::Bool(truth) => if *truth {
                String::from_str("true")
            } else {
                String::from_str("false")
            },
            Value::Object(_) => String::new(),
            Value::Null => String::new(),
        }
    }

    /// Whether a section over this value is rendered.
    pub fn to_bool(&self) -> (truth: bool)
        ensures
            truth == truthy(self@),
    {
        match self {
            Value::String(text) => text.as_str().unicode_len() > 0,
            Value::Vec(items) => items.len() > 0,
            Value::Bool(truth) => *truth,
            Value::Object(_) => true,
            Value::Null => false,
        }
    }
}

} // verus!

verus! {

/// The index of the first `.` of `path` at or after `from`, or the length of
/// `path` where there is none.
pub open spec fn dot_from(path: Seq<char>, from: int) -> int
    decreases path.len() - from,
{
    if from < 0 || from >= path.len() {
        path.len() as int
    } else if path[from] == '.' {
        from
    } else {
        dot_from(path, from + 1)
    }
}

/// The value that the parts of `path` from index `from` on lead to, starting
/// at `value`. The parts stand between the dots. Each step needs an object
/// and takes its field of that name.
pub open spec fn resolve_from(path: Seq<char>, from: int, value: ValueModel) -> Option<ValueModel>
    decreases path.len() - from,
{
    let dot = dot_from(path, from);
    match value {
        ValueModel::Object(fields) => match field_of(fields, char_range(path, from, dot)) {
            Some(field) => if from <= dot < path.len() {
                resolve_from(path, dot + 1, field)
            } else {
                Some(field)
            },
            None => None,
        },
        _ => None,
    }
}

/// The value that `identifier` names in `context`. In a context that is no
/// object, `.` names the context itself and nothing else is found.
pub open spec fn lookup_spec(identifier: Seq<char>, context: ValueModel) -> Option<ValueModel> {
    if !(context is Object) && identifier == seq!['.'] {
        Some(context)
    } else {
        resolve_from(identifier, 0, context)
    }
}

/// The value of an optional reference to a value.
pub open spec fn value_option_model(value: Option<&Value>) -> Option<ValueModel> {
    match value {
        Some(value) => Some(value@),
        None => None,
    }
}

/// The last field named `key`.
pub fn get_field<'a>(fields: &'a Vec<(String, Value)>, key: &String) -> (found: Option<&'a Value>)
    ensures
        value_option_model(found) == field_of(field_models(fields@), key@),
{
    let ghost models = field_models(fields@);
    let mut i: usize = fields.len();
    assert(models.subrange(0, i as int) =~= models);
    while i > 0
        invariant
            i <= fields@.len(),
            models == field_models(fields@),
            field_of(models, key@) == field_of(models.subrange(0, i as int), key@),
        decreases i,
    {
        let ghost head = models.subrange(0, i as int);
        i = i - 1;
        assert(head.last() == models[i as int]);
        assert(head.drop_last() =~= models.subrange(0, i as int));
        if fields[i].0 == *key {
            return Some(&fields[i].1);
        }
    }
    assert(models.subrange(0, 0).len() == 0);
    None
}

/// Looks `identifier` up in `context`: a dotted path leads through nested
/// objects, one field for each part.
pub fn lookup<'a>(identifier: String, context: &'a Value) -> (found: Option<&'a Value>)
    ensures
        value_option_model(found) == lookup_spec(identifier@, context@),
{
    let path = identifier.as_str();
    let length = path.unicode_len();
    let is_object = match context {
        Value::Object(_) => true,
        _ => false,
    };
    if !is_object {
        if length == 1 && path.get_char(0) == '.' {
            assert(path@ =~= seq!['.']);
            return Some(context);
        }
        return None;
    }
    let mut current = context;
    let mut from: usize = 0;
    loop
        invariant
            path@ == identifier@,
            length == path@.len(),
            from <= length,
            lookup_spec(identifier@, context@) == resolve_from(path@, from as int, current@),
        decreases length - from,
    {
        let mut dot = from;
        while dot < length && path.get_char(dot) != '.'
            invariant
                from <= dot <= length,
                length == path@.len(),
                dot_from(path@, from as int) == dot_from(path@, dot as int),
            decreases length - dot,
        {
            dot = dot + 1;
        }
        let part = slice_chars(path, from, dot);
        match current {
            Value::Object(fields) => {
                proof {
                    lemma_value_parts(*current);
                }
                match get_field(fields, &part) {
                    Some(field) => {
                        if dot >= length {
                            return Some(field);
                        }
                        current = field;
                        from = dot + 1;
                    },
                    None => {
                        return None;
                    },
                }
            },
            _ => {
                return None;
            },
        }
    }
}

} // verus!

verus! {

impl Clone for Value {
    fn clone(&self) -> (copy: Value)
        ensures
            copy@ == self@,
        decreases self@,
    {
        match self {
            Value::String(text) => Value::String(text.clone()),
            Value::Vec(items) => {
                proof {
                    lemma_value_parts(*self);
                }
                let mut copies: Vec<Value> = Vec::new();
                let mut i: usize = 0;
                while i < items.len()
                    invariant
                        i <= items@.len(),
                        copies@.len() == i,
                        self@ == ValueModel::Vec(value_models(items@)),
                        forall|j: int| 0 <= j < i ==> (#[trigger] copies@[j])@ == items@[j]@,
                    decreases items@.len() - i,
                {
                    proof {
                        let models = value_models(items@);
                        assert(models[i as int] == items@[i as int]@);
                        assert(decreases_to!(self@ => self@->Vec_0));
                        assert(decreases_to!(models => models[i as int]));
                    }
                    copies.push(items[i].clone());
                    i = i + 1;
                }
                let copy = Value::Vec(copies);
                proof {
                    lemma_value_parts(copy);
                    assert(value_models(copies@) =~= value_models(items@));
                }
                copy
            },
            Value::Bool(truth) => Value::Bool(*truth),
            Value::Object(fields) => {
                proof {
                    lemma_value_parts(*self);
                }
                let mut copies: Vec<(String, Value)> = Vec::new();
                let mut i: usize = 0;
                while i < fields.len()
                    invariant
                        i <= fields@.len(),
                        copies@.len() == i,
                        self@ == ValueModel::Object(field_models(fields@)),
                        forall|j: int|
                            0 <= j < i ==> (#[trigger] copies@[j]).0@ == fields@[j].0@
                                && copies@[j].1@ == fields@[j].1@,
                    decreases fields@.len() - i,
                {
                    proof {
                        let models = field_models(fields@);
                        assert(models[i as int] == (fields@[i as int].0@, fields@[i as int].1@));
                        assert(decreases_to!(self@ => self@->Object_0));
                        assert(decreases_to!(models => models[i as int]));
                        assert(decreases_to!(models[i as int] => models[i as int].1));
                    }
                    copies.push((fields[i].0.clone(), fields[i].1.clone()));
                    i = i + 1;
                }
                let copy = Value::Object(copies);
                proof {
                    lemma_value_parts(copy);
                    assert(field_models(copies@) =~= field_models(fields@));
                }
                copy
            },
            Value::Null => Value::Null,
        }
    }
}

} // verus!

verus! {

/// A copy of each of `nodes`.
pub fn clone_nodes(nodes: &Vec<Node>) -> (copies: Vec<Node>)
    ensures
        node_models(copies@) == node_models(nodes@),
    decreases node_models(nodes@), 0nat,
{
    let mut copies: Vec<Node> = Vec::new();
    let mut i: usize = 0;
    while i < nodes.len()
        invariant
            i <= nodes@.len(),
            copies@.len() == i,
            forall|j: int| 0 <= j < i ==> (#[trigger] copies@[j])@ == nodes@[j]@,
        decreases nodes@.len() - i,
    {
        proof {
            let models = node_models(nodes@);
            assert(models[i as int] == nodes@[i as int]@);
            assert(decreases_to!(models => models[i as int]));
        }
        copies.push(nodes[i].clone());
        i = i + 1;
    }
    assert(node_models(copies@) =~= node_models(nodes@));
    copies
}

impl Clone for Node {
    fn clone(&self) -> (copy: Node)
        ensures
            copy@ == self@,
        decreases self@, 1nat,
    {
        proof {
            lemma_children_models(*self);
        }
        let copy = match self {
            Node::Section { identifier, inverted, children } => {
                assert(decreases_to!(self@ => self@->Section_children));
                Node::Section {
                    identifier: identifier.clone(),
                    inverted: *inverted,
                    children: clone_nodes(children),
                }
            },
            Node::Variable { identifier, escaped } => Node::Variable {
                identifier: identifier.clone(),
                escaped: *escaped,
            },
            Node::Text(text) => Node::Text(text.clone()),
            Node::Implicit => Node::Implicit,
            Node::Comment(body) => Node::Comment(body.clone()),
            Node::Partial { identifier, dynamic } => Node::Partial {
                identifier: identifier.clone(),
                dynamic: *dynamic,
            },
            Node::Block { identifier, children } => {
                assert(decreases_to!(self@ => self@->Block_children));
                Node::Block { identifier: identifier.clone(), children: clone_nodes(children) }
            },
            Node::Parent { identifier, dynamic, children } => {
                assert(decreases_to!(self@ => self@->Parent_children));
                Node::Parent {
                    identifier: identifier.clone(),
                    dynamic: *dynamic,
                    children: clone_nodes(children),
                }
            },
        };
        proof {
            lemma_children_models(copy);
        }
        copy
    }
}

} // verus!
