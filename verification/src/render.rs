//! The renderer: a node tree, a value and the registry of templates give
//! text.
//!
//! A partial, a parent and an overridden block are rendered from a tree of
//! the registry. Such trees may name each other without end, so each
//! rendering has a depth: the number of such steps, one inside the other,
//! that it may take.
use vstd::prelude::*;
use crate::node::{
    Node, NodeModel, Value, ValueModel, clone_nodes, lookup, lookup_spec, node_models, to_text,
    truthy, value_models, lemma_children_models, lemma_value_parts,
};
use crate::text::{encode_html, escape_html};

verus! {

/// Why a rendering stopped.
#[derive(Debug, PartialEq, Eq)]
pub enum RenderError {
    /// The context has no value of this name.
    IdentifierDoesNotExist(String),
    /// The registry has no template of this name, or there is no registry.
    PartialDoesNotExist(String),
    /// The template or block of this name lies deeper than the rendering may
    /// go.
    RecursionLimit(String),
}

/// The mathematical value of a [`RenderError`].
pub ghost enum RenderErrorModel {
    IdentifierDoesNotExist(Seq<char>),
    PartialDoesNotExist(Seq<char>),
    RecursionLimit(Seq<char>),
}

impl View for RenderError {
    type V = RenderErrorModel;

    open spec fn view(&self) -> RenderErrorModel {
        match self {
            RenderError::IdentifierDoesNotExist(name) => RenderErrorModel::IdentifierDoesNotExist(
                name@,
            ),
            RenderError::PartialDoesNotExist(name) => RenderErrorModel::PartialDoesNotExist(name@),
            RenderError::RecursionLimit(name) => RenderErrorModel::RecursionLimit(name@),
        }
    }
}

impl Clone for RenderError {
    fn clone(&self) -> (copy: RenderError)
        ensures
            copy@ == self@,
    {
        match self {
            RenderError::IdentifierDoesNotExist(name) => RenderError::IdentifierDoesNotExist(
                name.clone(),
            ),
            RenderError::PartialDoesNotExist(name) => RenderError::PartialDoesNotExist(
                name.clone(),
            ),
            RenderError::RecursionLimit(name) => RenderError::RecursionLimit(name.clone()),
        }
    }
}

/// The message of an error.
pub open spec fn render_error_text(error: RenderErrorModel) -> Seq<char> {
    match error {
        RenderErrorModel::IdentifierDoesNotExist(name) => "identifier: '"@ + name
            + "' does not exist"@,
        RenderErrorModel::PartialDoesNotExist(name) => "partial: '"@ + name
            + "' does not exist"@,
        RenderErrorModel::RecursionLimit(name) => "template: '"@ + name + "' lies too deep"@,
    }
}

impl RenderError {
    /// The message of this error.
    pub fn message(&self) -> (text: String)
        ensures
            text@ == render_error_text(self@),
    {
        match self {
            RenderError::IdentifierDoesNotExist(name) => String::from_str("identifier: '").concat(
                name.as_str(),
            ).concat("' does not exist"),
            RenderError::PartialDoesNotExist(name) => String::from_str("partial: '").concat(
                name.as_str(),
            ).concat("' does not exist"),
            RenderError::RecursionLimit(name) => String::from_str("template: '").concat(
                name.as_str(),
            ).concat("' lies too deep"),
        }
    }
}

/// The templates of a registry, by name.
pub type Templates = Map<Seq<char>, Seq<NodeModel>>;

/// The outcome of a rendering: the text written, and the error that stopped
/// it, if one did.
pub ghost struct Rendered {
    pub text: Seq<char>,
    pub error: Option<RenderErrorModel>,
}

/// A rendering that wrote `text`.
pub open spec fn written(text: Seq<char>) -> Rendered {
    Rendered { text, error: None }
}

/// A rendering that wrote nothing and stopped on `error`.
pub open spec fn failed(error: RenderErrorModel) -> Rendered {
    Rendered { text: Seq::empty(), error: Some(error) }
}

/// One rendering after another: the second does not begin where the first
/// stopped on an error.
pub open spec fn then(first: Rendered, second: Rendered) -> Rendered {
    if first.error is Some {
        first
    } else {
        Rendered { text: first.text + second.text, error: second.error }
    }
}

/// The template of that name, where there is one.
pub open spec fn entry(templates: Templates, name: Seq<char>) -> Option<Seq<NodeModel>> {
    if templates.contains_key(name) {
        Some(templates[name])
    } else {
        None
    }
}

/// The name of the template that a partial or a parent stands for: its
/// identifier, or, where it is dynamic, the string that the identifier names
/// in the context.
pub open spec fn target(identifier: Seq<char>, dynamic: bool, context: ValueModel) -> Result<
    Seq<char>,
    RenderErrorModel,
> {
    if !dynamic {
        Ok(identifier)
    } else {
        match lookup_spec(identifier, context) {
            Some(ValueModel::String(name)) => Ok(name),
            _ => Err(RenderErrorModel::IdentifierDoesNotExist(identifier)),
        }
    }
}

/// `templates` with the body of each block among `children` bound to the
/// block's identifier; a later block shadows an earlier one of its name.
pub open spec fn overlay(templates: Templates, children: Seq<NodeModel>) -> Templates
    decreases children.len(),
{
    if children.len() == 0 {
        templates
    } else {
        let below = overlay(templates, children.drop_last());
        match children.last() {
            NodeModel::Block { identifier, children: body } => below.insert(identifier, body),
            _ => below,
        }
    }
}

/// The text of one node in `context`.
pub open spec fn render_node_spec(
    node: NodeModel,
    context: ValueModel,
    registry: Option<Templates>,
    depth: nat,
) -> Rendered
    decreases depth, node, 0nat, 0nat,
{
    match node {
        NodeModel::Text(text) => written(text),
        NodeModel::Comment(_) => written(Seq::empty()),
        NodeModel::Implicit => written(to_text(context)),
        NodeModel::Variable { identifier, escaped } => match lookup_spec(identifier, context) {
            Some(value) => written(
                if escaped {
                    escape_html(to_text(value))
                } else {
                    to_text(value)
                },
            ),
            None => failed(RenderErrorModel::IdentifierDoesNotExist(identifier)),
        },
        NodeModel::Section { identifier, inverted, children } => {
            if inverted {
                render_nodes_spec(children, 0, context, registry, depth)
            } else {
                match lookup_spec(identifier, context) {
                    None => failed(RenderErrorModel::IdentifierDoesNotExist(identifier)),
                    Some(value) => if !truthy(value) {
                        written(Seq::empty())
                    } else {
                        match value {
                            ValueModel::Vec(items) => render_each_spec(
                                children,
                                items,
                                0,
                                registry,
                                depth,
                            ),
                            _ => render_nodes_spec(children, 0, value, registry, depth),
                        }
                    },
                }
            }
        },
        NodeModel::Partial { identifier, dynamic } => match registry {
            None => failed(RenderErrorModel::PartialDoesNotExist(identifier)),
            Some(templates) => match target(identifier, dynamic, context) {
                Err(error) => failed(error),
                Ok(name) => if !templates.contains_key(name) {
                    failed(RenderErrorModel::PartialDoesNotExist(name))
                } else if depth == 0 {
                    failed(RenderErrorModel::RecursionLimit(name))
                } else {
                    render_nodes_spec(templates[name], 0, context, registry, (depth - 1) as nat)
                },
            },
        },
        NodeModel::Parent { identifier, dynamic, children } => match registry {
            None => failed(RenderErrorModel::PartialDoesNotExist(identifier)),
            Some(templates) => match target(identifier, dynamic, context) {
                Err(error) => failed(error),
                Ok(name) => if !templates.contains_key(name) {
                    failed(RenderErrorModel::PartialDoesNotExist(name))
                } else if depth == 0 {
                    failed(RenderErrorModel::RecursionLimit(name))
                } else {
                    render_nodes_spec(
                        templates[name],
                        0,
                        context,
                        Some(overlay(templates, children)),
                        (depth - 1) as nat,
                    )
                },
            },
        },
        NodeModel::Block { identifier, children } => {
            if registry is Some && registry->Some_0.contains_key(identifier) {
                if depth == 0 {
                    failed(RenderErrorModel::RecursionLimit(identifier))
                } else {
                    render_nodes_spec(
                        registry->Some_0[identifier],
                        0,
                        context,
                        registry,
                        (depth - 1) as nat,
                    )
                }
            } else {
                render_nodes_spec(children, 0, context, registry, depth)
            }
        },
    }
}

/// The text of the nodes from index `from` on, one after another, in
/// `context`.
pub open spec fn render_nodes_spec(
    nodes: Seq<NodeModel>,
    from: int,
    context: ValueModel,
    registry: Option<Templates>,
    depth: nat,
) -> Rendered
    decreases depth, nodes, 0nat, nodes.len() - from,
{
    if from < 0 || from >= nodes.len() {
        written(Seq::empty())
    } else {
        then(
            render_node_spec(nodes[from], context, registry, depth),
            render_nodes_spec(nodes, from + 1, context, registry, depth),
        )
    }
}

/// The text of `nodes`, once for each of `items` from index `from` on, with
/// that item as the context.
pub open spec fn render_each_spec(
    nodes: Seq<NodeModel>,
    items: Seq<ValueModel>,
    from: int,
    registry: Option<Templates>,
    depth: nat,
) -> Rendered
    decreases depth, nodes, 1nat, items.len() - from,
{
    if from < 0 || from >= items.len() {
        written(Seq::empty())
    } else {
        then(
            render_nodes_spec(nodes, 0, items[from], registry, depth),
            render_each_spec(nodes, items, from + 1, registry, depth),
        )
    }
}

} // verus!

verus! {

/// The templates that a rendering can name, in the order in which they were
/// put in; where a name stands twice, the later template is the one that
/// counts.
#[derive(Debug)]
pub struct Registry {
    entries: Vec<(String, Vec<Node>)>,
}

/// The templates of a sequence of entries.
pub open spec fn entries_model(entries: Seq<(String, Vec<Node>)>) -> Templates
    decreases entries.len(),
{
    if entries.len() == 0 {
        Map::empty()
    } else {
        entries_model(entries.drop_last()).insert(
            entries.last().0@,
            node_models(entries.last().1@),
        )
    }
}

impl View for Registry {
    type V = Templates;

    closed spec fn view(&self) -> Templates {
        entries_model(self.entries@)
    }
}

/// The value of an optional reference to a tree.
pub open spec fn tree_option_model(tree: Option<&Vec<Node>>) -> Option<Seq<NodeModel>> {
    match tree {
        Some(nodes) => Some(node_models(nodes@)),
        None => None,
    }
}

/// The value of an optional reference to a registry.
pub open spec fn registry_option_model(registry: Option<&Registry>) -> Option<Templates> {
    match registry {
        Some(registry) => Some(registry@),
        None => None,
    }
}

impl Registry {
    /// A registry without templates.
    pub fn new() -> (registry: Registry)
        ensures
            registry@ == Map::<Seq<char>, Seq<NodeModel>>::empty(),
    {
        Registry { entries: Vec::new() }
    }

    /// Binds `name` to `nodes`; an earlier template of that name no longer
    /// counts.
    pub fn insert(&mut self, name: String, nodes: Vec<Node>)
        ensures
            final(self)@ == old(self)@.insert(name@, node_models(nodes@)),
    {
        let ghost before = self.entries@;
        self.entries.push((name, nodes));
        assert(self.entries@.drop_last() =~= before);
    }

    /// The template of that name, where there is one.
    pub fn get(&self, name: &String) -> (tree: Option<&Vec<Node>>)
        ensures
            tree_option_model(tree) == entry(self@, name@),
    {
        let ghost all = self.entries@;
        let mut i: usize = self.entries.len();
        assert(all.subrange(0, i as int) =~= all);
        while i > 0
            invariant
                i <= all.len(),
                all == self.entries@,
                entry(entries_model(all), name@) == entry(
                    entries_model(all.subrange(0, i as int)),
                    name@,
                ),
            decreases i,
        {
            let ghost head = all.subrange(0, i as int);
            i = i - 1;
            assert(head.last() == all[i as int]);
            assert(head.drop_last() =~= all.subrange(0, i as int));
            if self.entries[i].0 == *name {
                return Some(&self.entries[i].1);
            }
        }
        assert(all.subrange(0, 0).len() == 0);
        None
    }

    /// Whether there is a template of that name.
    pub fn contains_key(&self, name: &String) -> (found: bool)
        ensures
            found == self@.contains_key(name@),
    {
        self.get(name).is_some()
    }
}

impl Clone for Registry {
    fn clone(&self) -> (copy: Registry)
        ensures
            copy@ == self@,
    {
        let mut entries: Vec<(String, Vec<Node>)> = Vec::new();
        let mut i: usize = 0;
        assert(self.entries@.subrange(0, 0) =~= Seq::<(String, Vec<Node>)>::empty());
        while i < self.entries.len()
            invariant
                i <= self.entries@.len(),
                entries_model(entries@) == entries_model(self.entries@.subrange(0, i as int)),
            decreases self.entries@.len() - i,
        {
            let ghost before = entries@;
            let ghost head = self.entries@.subrange(0, i + 1);
            entries.push((self.entries[i].0.clone(), clone_nodes(&self.entries[i].1)));
            assert(entries@.drop_last() =~= before);
            assert(head.drop_last() =~= self.entries@.subrange(0, i as int));
            assert(head.last() == self.entries@[i as int]);
            i = i + 1;
        }
        assert(self.entries@.subrange(0, i as int) =~= self.entries@);
        Registry { entries }
    }
}

/// The body of the last block named `name` among `children`.
pub open spec fn block_named(children: Seq<NodeModel>, name: Seq<char>) -> Option<Seq<NodeModel>>
    decreases children.len(),
{
    if children.len() == 0 {
        None
    } else {
        match children.last() {
            NodeModel::Block { identifier, children: body } => if identifier == name {
                Some(body)
            } else {
                block_named(children.drop_last(), name)
            },
            _ => block_named(children.drop_last(), name),
        }
    }
}

/// Under an overlay a name stands for the body of the last block of that
/// name, and for what it stood for before where there is no such block.
pub proof fn lemma_overlay_entry(templates: Templates, children: Seq<NodeModel>, name: Seq<char>)
    ensures
        entry(overlay(templates, children), name) == match block_named(children, name) {
            Some(body) => Some(body),
            None => entry(templates, name),
        },
    decreases children.len(),
{
    if children.len() > 0 {
        lemma_overlay_entry(templates, children.drop_last(), name);
    }
}

/// What a rendering can name: nothing, the templates of a registry, or
/// those of another scope under the blocks of a parent.
pub enum Scope<'a> {
    Empty,
    Base(&'a Registry),
    Layer { blocks: &'a Vec<Node>, below: &'a Scope<'a> },
}

/// The templates of a scope, or `None` where there is no registry.
pub open spec fn scope_model(scope: Scope) -> Option<Templates>
    decreases scope,
{
    match scope {
        Scope::Empty => None,
        Scope::Base(registry) => Some(registry@),
        Scope::Layer { blocks, below } => match scope_model(*below) {
            Some(templates) => Some(overlay(templates, node_models(blocks@))),
            None => Some(overlay(Map::empty(), node_models(blocks@))),
        },
    }
}

/// The body of the last block named `name` among `nodes`.
fn find_block<'a>(nodes: &'a Vec<Node>, name: &String) -> (body: Option<&'a Vec<Node>>)
    ensures
        tree_option_model(body) == block_named(node_models(nodes@), name@),
{
    let ghost models = node_models(nodes@);
    let mut i: usize = nodes.len();
    assert(models.subrange(0, i as int) =~= models);
    while i > 0
        invariant
            i <= nodes@.len(),
            models == node_models(nodes@),
            block_named(models, name@) == block_named(models.subrange(0, i as int), name@),
        decreases i,
    {
        let ghost head = models.subrange(0, i as int);
        i = i - 1;
        assert(head.last() == models[i as int]);
        assert(head.drop_last() =~= models.subrange(0, i as int));
        match &nodes[i] {
            Node::Block { identifier, children } => {
                proof {
                    lemma_children_models(nodes@[i as int]);
                }
                if *identifier == *name {
                    return Some(children);
                }
            },
            _ => {},
        }
    }
    assert(models.subrange(0, 0).len() == 0);
    None
}

/// The template that `name` stands for in `scope`.
fn find<'a>(scope: &Scope<'a>, name: &String) -> (tree: Option<&'a Vec<Node>>)
    ensures
        tree_option_model(tree) == match scope_model(*scope) {
            Some(templates) => entry(templates, name@),
            None => None,
        },
    decreases scope,
{
    match scope {
        Scope::Empty => None,
        Scope::Base(registry) => registry.get(name),
        Scope::Layer { blocks, below } => {
            proof {
                let templates = match scope_model(**below) {
                    Some(templates) => templates,
                    None => Map::empty(),
                };
                lemma_overlay_entry(templates, node_models(blocks@), name@);
            }
            match find_block(blocks, name) {
                Some(body) => Some(body),
                None => find(below, name),
            }
        },
    }
}

} // verus!

verus! {

/// Whether `result` and the text added to `before` are what `rendered`
/// says: the text is written up to the error, and the error is handed out.
pub open spec fn renders(
    before: Seq<char>,
    after: Seq<char>,
    result: Result<(), RenderError>,
    rendered: Rendered,
) -> bool {
    &&& after == before + rendered.text
    &&& match rendered.error {
        None => result is Ok,
        Some(error) => result is Err && result->Err_0@ == error,
    }
}

/// `rendered` after the text `done`.
pub open spec fn after_text(done: Seq<char>, rendered: Rendered) -> Rendered {
    Rendered { text: done + rendered.text, error: rendered.error }
}

/// Text, then two renderings, is the text and the first rendering, then the
/// second, where the first did not stop.
pub proof fn lemma_then_after_text(done: Seq<char>, first: Rendered, second: Rendered)
    ensures
        first.error is None ==> after_text(done, then(first, second)) == after_text(
            done + first.text,
            second,
        ),
        first.error is Some ==> after_text(done, then(first, second)) == after_text(done, first),
{
    if first.error is None {
        assert(done + (first.text + second.text) =~= (done + first.text) + second.text);
    }
}

/// Writes the text of one node in `context` at the end of `out`.
pub fn render_node<'a>(
    node: &'a Node,
    out: &mut String,
    context: &Value,
    scope: &'a Scope<'a>,
    depth: usize,
) -> (result: Result<(), RenderError>)
    ensures
        renders(
            old(out)@,
            final(out)@,
            result,
            render_node_spec(node@, context@, scope_model(*scope), depth as nat),
        ),
    decreases depth, node@,
{
    let ghost before = out@;
    proof {
        assert(before + Seq::<char>::empty() =~= before);
        lemma_children_models(*node);
    }
    match node {
        Node::Text(text) => {
            out.append(text.as_str());
            Ok(())
        },
        Node::Comment(_) => Ok(()),
        Node::Implicit => {
            let text = context.to_string();
            out.append(text.as_str());
            Ok(())
        },
        Node::Variable { identifier, escaped } => match lookup(identifier.clone(), context) {
            Some(value) => {
                let text = value.to_string();
                if *escaped {
                    let text = encode_html(text.as_str());
                    out.append(text.as_str());
                } else {
                    out.append(text.as_str());
                }
                Ok(())
            },
            None => Err(RenderError::IdentifierDoesNotExist(identifier.clone())),
        },
        Node::Section { identifier, inverted, children } => {
            assert(decreases_to!(node@ => node@->Section_children));
            if *inverted {
                return render_nodes(children, out, context, scope, depth);
            }
            match lookup(identifier.clone(), context) {
                None => Err(RenderError::IdentifierDoesNotExist(identifier.clone())),
                Some(value) => {
                    if !value.to_bool() {
                        return Ok(());
                    }
                    match value {
                        Value::Vec(items) => {
                            proof {
                                lemma_value_parts(*value);
                            }
                            let ghost models = node_models(children@);
                            let ghost values = value_models(items@);
                            let ghost registry = scope_model(*scope);
                            let ghost done = Seq::<char>::empty();
                            let mut i: usize = 0;
                            while i < items.len()
                                invariant
                                    i <= items@.len(),
                                    before == old(out)@,
                                    render_node_spec(node@, context@, registry, depth as nat)
                                        == render_each_spec(
                                        models,
                                        values,
                                        0,
                                        registry,
                                        depth as nat,
                                    ),
                                    models == node_models(children@),
                                    values == value_models(items@),
                                    registry == scope_model(*scope),
                                    decreases_to!(node@ => models),
                                    out@ == before + done,
                                    render_each_spec(models, values, 0, registry, depth as nat)
                                        == after_text(
                                        done,
                                        render_each_spec(
                                            models,
                                            values,
                                            i as int,
                                            registry,
                                            depth as nat,
                                        ),
                                    ),
                                decreases items@.len() - i,
                            {
                                let ghost first = render_nodes_spec(
                                    models,
                                    0,
                                    values[i as int],
                                    registry,
                                    depth as nat,
                                );
                                let ghost rest = render_each_spec(
                                    models,
                                    values,
                                    i + 1,
                                    registry,
                                    depth as nat,
                                );
                                proof {
                                    lemma_then_after_text(done, first, rest);
                                    assert(before + (done + first.text) =~= before + done
                                        + first.text);
                                }
                                match render_nodes(children, out, &items[i], scope, depth) {
                                    Err(error) => {
                                        return Err(error);
                                    },
                                    Ok(()) => {},
                                }
                                proof {
                                    done = done + first.text;
                                }
                                i = i + 1;
                            }
                            proof {
                                assert(done + Seq::<char>::empty() =~= done);
                            }
                            Ok(())
                        },
                        _ => render_nodes(children, out, value, scope, depth),
                    }
                },
            }
        },
        Node::Partial { identifier, dynamic } => {
            let is_empty = match scope {
                Scope::Empty => true,
                _ => false,
            };
            if is_empty {
                return Err(RenderError::PartialDoesNotExist(identifier.clone()));
            }
            let name = match template_name(identifier, *dynamic, context) {
                Ok(name) => name,
                Err(error) => {
                    return Err(error);
                },
            };
            match find(scope, name) {
                None => Err(RenderError::PartialDoesNotExist(name.clone())),
                Some(tree) => {
                    if depth == 0 {
                        return Err(RenderError::RecursionLimit(name.clone()));
                    }
                    render_nodes(tree, out, context, scope, depth - 1)
                },
            }
        },
        Node::Parent { identifier, dynamic, children } => {
            let is_empty = match scope {
                Scope::Empty => true,
                _ => false,
            };
            if is_empty {
                return Err(RenderError::PartialDoesNotExist(identifier.clone()));
            }
            let name = match template_name(identifier, *dynamic, context) {
                Ok(name) => name,
                Err(error) => {
                    return Err(error);
                },
            };
            match find(scope, name) {
                None => Err(RenderError::PartialDoesNotExist(name.clone())),
                Some(tree) => {
                    if depth == 0 {
                        return Err(RenderError::RecursionLimit(name.clone()));
                    }
                    let layer = Scope::Layer { blocks: children, below: scope };
                    render_nodes(tree, out, context, &layer, depth - 1)
                },
            }
        },
        Node::Block { identifier, children } => {
            assert(decreases_to!(node@ => node@->Block_children));
            match find(scope, identifier) {
                Some(tree) => {
                    if depth == 0 {
                        return Err(RenderError::RecursionLimit(identifier.clone()));
                    }
                    render_nodes(tree, out, context, scope, depth - 1)
                },
                None => render_nodes(children, out, context, scope, depth),
            }
        },
    }
}

/// The name of the template that a partial or a parent stands for.
fn template_name<'a>(identifier: &'a String, dynamic: bool, context: &'a Value) -> (result: Result<
    &'a String,
    RenderError,
>)
    ensures
        match target(identifier@, dynamic, context@) {
            Ok(name) => result is Ok && result->Ok_0@ == name,
            Err(error) => result is Err && result->Err_0@ == error,
        },
{
    if !dynamic {
        return Ok(identifier);
    }
    match lookup(identifier.clone(), context) {
        Some(value) => match value {
            Value::String(name) => Ok(name),
            _ => Err(RenderError::IdentifierDoesNotExist(identifier.clone())),
        },
        None => Err(RenderError::IdentifierDoesNotExist(identifier.clone())),
    }
}

/// Writes the text of `nodes`, one after another, in `context` at the end of
/// `out`.
pub fn render_nodes<'a>(
    nodes: &'a Vec<Node>,
    out: &mut String,
    context: &Value,
    scope: &'a Scope<'a>,
    depth: usize,
) -> (result: Result<(), RenderError>)
    ensures
        renders(
            old(out)@,
            final(out)@,
            result,
            render_nodes_spec(
                node_models(nodes@),
                0,
                context@,
                scope_model(*scope),
                depth as nat,
            ),
        ),
    decreases depth, node_models(nodes@),
{
    let ghost before = out@;
    let ghost models = node_models(nodes@);
    let ghost registry = scope_model(*scope);
    let ghost done = Seq::<char>::empty();
    proof {
        assert(before + done =~= before);
    }
    let mut i: usize = 0;
    while i < nodes.len()
        invariant
            i <= nodes@.len(),
            before == old(out)@,
            models == node_models(nodes@),
            registry == scope_model(*scope),
            out@ == before + done,
            render_nodes_spec(models, 0, context@, registry, depth as nat) == after_text(
                done,
                render_nodes_spec(models, i as int, context@, registry, depth as nat),
            ),
        decreases nodes@.len() - i,
    {
        let ghost first = render_node_spec(models[i as int], context@, registry, depth as nat);
        let ghost rest = render_nodes_spec(models, i + 1, context@, registry, depth as nat);
        proof {
            lemma_then_after_text(done, first, rest);
            assert(before + (done + first.text) =~= before + done + first.text);
            assert(decreases_to!(models => models[i as int]));
        }
        match render_node(&nodes[i], out, context, scope, depth) {
            Err(error) => {
                return Err(error);
            },
            Ok(()) => {},
        }
        proof {
            done = done + first.text;
        }
        i = i + 1;
    }
    proof {
        assert(done + Seq::<char>::empty() =~= done);
    }
    Ok(())
}

} // verus!

verus! {

/// What can be rendered: a node, and a list of nodes.
pub trait Renderable {
    /// The outcome of rendering this in `context`, with the templates of
    /// `registry` to name and `depth` steps into them to take.
    spec fn rendered(
        &self,
        context: ValueModel,
        registry: Option<Templates>,
        depth: nat,
    ) -> Rendered;

    /// Writes the text of this in `context` at the end of `out`. Without
    /// `partials` no template can be named. Where the rendering stops on an
    /// error, `out` holds the text written up to it.
    fn render(
        &self,
        out: &mut String,
        context: &Value,
        partials: Option<&Registry>,
        depth: usize,
    ) -> (result: Result<(), RenderError>)
        ensures
            renders(
                old(out)@,
                final(out)@,
                result,
                self.rendered(context@, registry_option_model(partials), depth as nat),
            ),
    ;
}

impl Renderable for Node {
    open spec fn rendered(
        &self,
        context: ValueModel,
        registry: Option<Templates>,
        depth: nat,
    ) -> Rendered {
        render_node_spec(self@, context, registry, depth)
    }

    fn render(
        &self,
        out: &mut String,
        context: &Value,
        partials: Option<&Registry>,
        depth: usize,
    ) -> (result: Result<(), RenderError>) {
        match partials {
            Some(registry) => {
                let scope = Scope::Base(registry);
                render_node(self, out, context, &scope, depth)
            },
            None => {
                let scope = Scope::Empty;
                render_node(self, out, context, &scope, depth)
            },
        }
    }
}

impl Renderable for Vec<Node> {
    open spec fn rendered(
        &self,
        context: ValueModel,
        registry: Option<Templates>,
        depth: nat,
    ) -> Rendered {
        render_nodes_spec(node_models(self@), 0, context, registry, depth)
    }

    fn render(
        &self,
        out: &mut String,
        context: &Value,
        partials: Option<&Registry>,
        depth: usize,
    ) -> (result: Result<(), RenderError>) {
        match partials {
            Some(registry) => {
                let scope = Scope::Base(registry);
                render_nodes(self, out, context, &scope, depth)
            },
            None => {
                let scope = Scope::Empty;
                render_nodes(self, out, context, &scope, depth)
            },
        }
    }
}

} // verus!

verus! {

/// Whether no block behind index `at` of `children` has the name of the
/// block at `at`.
pub open spec fn last_of_its_name(children: Seq<NodeModel>, at: int) -> bool {
    forall|later: int|
        at < later < children.len() && #[trigger] children[later] is Block
            ==> children[later]->Block_identifier != children[at]->Block_identifier
}

/// The last block of a name is the block of that name.
pub proof fn lemma_block_named_last(children: Seq<NodeModel>, at: int)
    requires
        0 <= at < children.len(),
        children[at] is Block,
        last_of_its_name(children, at),
    ensures
        block_named(children, children[at]->Block_identifier) == Some(
            children[at]->Block_children,
        ),
    decreases children.len(),
{
    if at < children.len() - 1 {
        let front = children.drop_last();
        assert(front[at] == children[at]);
        assert forall|later: int|
            at < later < front.len() && #[trigger] front[later] is Block
                implies front[later]->Block_identifier != front[at]->Block_identifier by {
            assert(front[later] == children[later]);
        }
        assert(children[children.len() - 1] is Block ==> children[children.len()
            - 1]->Block_identifier != children[at]->Block_identifier);
        lemma_block_named_last(front, at);
    }
}

/// A parent is its template under its blocks. To render a parent is to
/// render the template it names, one step deeper, with every block of the
/// parent bound to its name: the name of a block that is the last of its
/// name stands for that block's body, and every other name stands for what
/// it stood for before.
pub proof fn lemma_parent_overlay(
    identifier: Seq<char>,
    dynamic: bool,
    blocks: Seq<NodeModel>,
    context: ValueModel,
    templates: Templates,
    depth: nat,
)
    requires
        depth > 0,
        target(identifier, dynamic, context) is Ok,
        templates.contains_key(target(identifier, dynamic, context)->Ok_0),
    ensures
        render_node_spec(
            NodeModel::Parent { identifier, dynamic, children: blocks },
            context,
            Some(templates),
            depth,
        ) == render_nodes_spec(
            templates[target(identifier, dynamic, context)->Ok_0],
            0,
            context,
            Some(overlay(templates, blocks)),
            (depth - 1) as nat,
        ),
        forall|at: int|
            0 <= at < blocks.len() && #[trigger] blocks[at] is Block && last_of_its_name(
                blocks,
                at,
            ) ==> entry(overlay(templates, blocks), blocks[at]->Block_identifier) == Some(
                blocks[at]->Block_children,
            ),
        forall|name: Seq<char>|
            block_named(blocks, name) is None ==> #[trigger] entry(
                overlay(templates, blocks),
                name,
            ) == entry(templates, name),
{
    assert forall|at: int|
        0 <= at < blocks.len() && #[trigger] blocks[at] is Block && last_of_its_name(
            blocks,
            at,
        ) implies entry(overlay(templates, blocks), blocks[at]->Block_identifier) == Some(
        blocks[at]->Block_children,
    ) by {
        lemma_block_named_last(blocks, at);
        lemma_overlay_entry(templates, blocks, blocks[at]->Block_identifier);
    }
    assert forall|name: Seq<char>| block_named(blocks, name) is None implies #[trigger] entry(
        overlay(templates, blocks),
        name,
    ) == entry(templates, name) by {
        lemma_overlay_entry(templates, blocks, name);
    }
}

/// A bound block is what it is bound to. Where the name of a block is
/// bound, the block renders as what the name is bound to, one step
/// deeper, whatever its own body is.
pub proof fn lemma_block_bound(
    identifier: Seq<char>,
    body: Seq<NodeModel>,
    context: ValueModel,
    templates: Templates,
    depth: nat,
)
    requires
        depth > 0,
        templates.contains_key(identifier),
    ensures
        render_node_spec(
            NodeModel::Block { identifier, children: body },
            context,
            Some(templates),
            depth,
        ) == render_nodes_spec(
            templates[identifier],
            0,
            context,
            Some(templates),
            (depth - 1) as nat,
        ),
{
}

/// A template that names no other needs no depth. Without a registry the
/// rendering never stops on the depth, and every depth gives the same.
pub proof fn lemma_alone_needs_no_depth(
    nodes: Seq<NodeModel>,
    from: int,
    context: ValueModel,
    depth: nat,
    other: nat,
)
    ensures
        render_nodes_spec(nodes, from, context, None, depth) == render_nodes_spec(
            nodes,
            from,
            context,
            None,
            other,
        ),
        !(render_nodes_spec(nodes, from, context, None, depth).error matches Some(
            RenderErrorModel::RecursionLimit(_),
        )),
    decreases nodes, 0nat, nodes.len() - from,
{
    if 0 <= from < nodes.len() {
        lemma_node_alone_needs_no_depth(nodes[from], context, depth, other);
        lemma_alone_needs_no_depth(nodes, from + 1, context, depth, other);
    }
}

/// A node that names no template needs no depth.
pub proof fn lemma_node_alone_needs_no_depth(
    node: NodeModel,
    context: ValueModel,
    depth: nat,
    other: nat,
)
    ensures
        render_node_spec(node, context, None, depth) == render_node_spec(
            node,
            context,
            None,
            other,
        ),
        !(render_node_spec(node, context, None, depth).error matches Some(
            RenderErrorModel::RecursionLimit(_),
        )),
    decreases node, 0nat, 0nat,
{
    match node {
        NodeModel::Section { identifier, inverted, children } => {
            lemma_alone_needs_no_depth(children, 0, context, depth, other);
            if !inverted {
                match lookup_spec(identifier, context) {
                    Some(value) => {
                        if truthy(value) {
                            match value {
                                ValueModel::Vec(items) => {
                                    lemma_each_alone_needs_no_depth(
                                        children,
                                        items,
                                        0,
                                        depth,
                                        other,
                                    );
                                },
                                _ => {
                                    lemma_alone_needs_no_depth(children, 0, value, depth, other);
                                },
                            }
                        }
                    },
                    None => {},
                }
            }
        },
        NodeModel::Block { identifier, children } => {
            lemma_alone_needs_no_depth(children, 0, context, depth, other);
        },
        _ => {},
    }
}

/// A section over a sequence that names no template needs no depth.
pub proof fn lemma_each_alone_needs_no_depth(
    nodes: Seq<NodeModel>,
    items: Seq<ValueModel>,
    from: int,
    depth: nat,
    other: nat,
)
    ensures
        render_each_spec(nodes, items, from, None, depth) == render_each_spec(
            nodes,
            items,
            from,
            None,
            other,
        ),
        !(render_each_spec(nodes, items, from, None, depth).error matches Some(
            RenderErrorModel::RecursionLimit(_),
        )),
    decreases nodes, 1nat, items.len() - from,
{
    if 0 <= from < items.len() {
        lemma_alone_needs_no_depth(nodes, 0, items[from], depth, other);
        lemma_each_alone_needs_no_depth(nodes, items, from + 1, depth, other);
    }
}

} // verus!
