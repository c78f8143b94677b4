//! A Mustache-family template engine: a lexer turns template text into
//! tokens, a parser turns tokens into a tree of nodes, and a renderer turns
//! a tree and a value into text. A registry holds the trees of many
//! templates by name, so that each can include the others.
use vstd::prelude::*;

pub mod text;
pub mod token;
pub mod lexer;
pub mod stream;
pub mod node;
pub mod encoder;
pub mod parser;
pub mod syntax;
pub mod render;
pub mod name;

pub use crate::encoder::Encoder;
use crate::lexer::{lex, lex_spec};
use crate::node::{Node, NodeModel, Value, ValueModel};
use crate::parser::{ParserError, ParserErrorModel, parse, parse_result_model, parse_spec};
use crate::syntax::{
    Syntax, all_closed_in, leaves_of, nest_from, nodes_of, texts, unparse, lemma_balanced_parses,
    lemma_sections_are_closed, lemma_text_nodes_are_text_tokens, lemma_texts_concat,
    lemma_texts_none,
};
use crate::token::TokenModel;
use crate::render::{
    Registry, RenderError, RenderErrorModel, Renderable, Rendered, Templates, failed,
    render_nodes_spec, renders,
};

verus! {

/// The number of templates, one inside the other, that a rendering goes
/// into where nothing else is asked for.
pub const DEFAULT_DEPTH: usize = 128;

/// The tree of the template `source`, or why it has none.
pub open spec fn compile_spec(source: Seq<char>) -> Result<Seq<NodeModel>, ParserErrorModel> {
    parse_spec(lex_spec(source))
}

/// Turns the text of a template into its tree: the lexer reads the text,
/// the parser reads the tokens.
pub fn compile(source: &str) -> (result: Result<Vec<Node>, ParserError>)
    ensures
        parse_result_model(result) == compile_spec(source@),
{
    parse(lex(source))
}

/// A balanced template has its tree. Where the tokens of a template are
/// the written form of a tree of items and `EOF`, and no tag with a body
/// holds a closing tag of its own name inside that body, the template has
/// the nodes of that tree, with one text node for each text token.
pub proof fn lemma_balanced_template_compiles(source: Seq<char>, items: Seq<Syntax>)
    requires
        lex_spec(source) == unparse(items) + seq![TokenModel::EOF],
        nest_from(items, 0),
    ensures
        compile_spec(source) == Ok::<Seq<NodeModel>, ParserErrorModel>(nodes_of(items)),
        leaves_of(nodes_of(items), nodes_of(items).len()) == texts(lex_spec(source)),
{
    lemma_balanced_parses(items);
    lemma_text_nodes_are_text_tokens(items, 0);
    lemma_texts_concat(unparse(items), seq![TokenModel::EOF]);
    lemma_texts_none(seq![TokenModel::EOF]);
    assert(texts(unparse(items)) + Seq::<Seq<char>>::empty() =~= texts(unparse(items)));
}

/// The sections of a template are closed. Where a template has a tree,
/// each section, block and parent of the tree has a closing tag for its
/// name among the tokens of the template.
pub proof fn lemma_template_sections_are_closed(source: Seq<char>)
    ensures
        compile_spec(source) matches Ok(nodes) ==> all_closed_in(nodes, lex_spec(source)),
{
    lemma_sections_are_closed(lex_spec(source));
}

/// The templates of a directory, each under its name.
#[derive(Debug)]
pub struct Rustache {
    /// The directory that the templates come from.
    pub directory: String,
    /// The trees of the templates, by name.
    pub partials: Registry,
    /// The number of templates, one inside the other, that a rendering
    /// goes into.
    pub depth: usize,
}

/// The outcome of rendering the template `name` of `templates` in
/// `context`.
pub open spec fn render_template(
    templates: Templates,
    name: Seq<char>,
    context: ValueModel,
    depth: nat,
) -> Rendered {
    if templates.contains_key(name) {
        render_nodes_spec(templates[name], 0, context, Some(templates), depth)
    } else {
        failed(RenderErrorModel::PartialDoesNotExist(name))
    }
}

/// `templates` with the tree of a template that was read added under
/// `name`; a template that could not be read is left out.
pub open spec fn with_template(
    templates: Templates,
    name: Seq<char>,
    parsed: Result<Seq<NodeModel>, ParserErrorModel>,
) -> Templates {
    match parsed {
        Ok(nodes) => templates.insert(name, nodes),
        Err(_) => templates,
    }
}

impl Rustache {
    /// A registry for the templates of `directory`, without templates yet.
    pub fn new(directory: &str) -> (registry: Rustache)
        ensures
            registry.directory@ == directory@,
            registry.partials@ == Map::<Seq<char>, Seq<NodeModel>>::empty(),
            registry.depth == DEFAULT_DEPTH,
    {
        Rustache {
            directory: String::from_str(directory),
            partials: Registry::new(),
            depth: DEFAULT_DEPTH,
        }
    }

    /// Takes in what the parser made of the template `name`: its tree goes
    /// under that name, and a template that could not be read is left out.
    /// Says whether the template went in.
    pub fn insert(&mut self, name: String, parsed: Result<Vec<Node>, ParserError>) -> (added: bool)
        ensures
            added == parsed is Ok,
            final(self).directory == old(self).directory,
            final(self).depth == old(self).depth,
            final(self).partials@ == with_template(
                old(self).partials@,
                name@,
                parse_result_model(parsed),
            ),
    {
        match parsed {
            Ok(nodes) => {
                self.partials.insert(name, nodes);
                true
            },
            Err(_) => false,
        }
    }

    /// Reads the text of the template `name` and takes in its tree.
    pub fn load(&mut self, name: String, source: &str) -> (added: bool)
        ensures
            added == compile_spec(source@) is Ok,
            final(self).directory == old(self).directory,
            final(self).depth == old(self).depth,
            final(self).partials@ == with_template(
                old(self).partials@,
                name@,
                compile_spec(source@),
            ),
    {
        let parsed = compile(source);
        self.insert(name, parsed)
    }

    /// Writes the text of the template `name` in `context` at the end of
    /// `out`. Where the rendering stops on an error, `out` holds the text
    /// written up to it.
    pub fn render(&self, name: &str, out: &mut String, context: &Value) -> (result: Result<
        (),
        RenderError,
    >)
        ensures
            renders(
                old(out)@,
                final(out)@,
                result,
                render_template(self.partials@, name@, context@, self.depth as nat),
            ),
    {
        let name = String::from_str(name);
        match self.partials.get(&name) {
            Some(nodes) => nodes.render(out, context, Some(&self.partials), self.depth),
            None => {
                assert(out@ + Seq::<char>::empty() =~= out@);
                Err(RenderError::PartialDoesNotExist(name))
            },
        }
    }
}

/// The context of a template that names no value.
#[derive(Debug)]
pub struct EmptyContext;

impl EmptyContext {
    /// The value of this context: the null value.
    pub fn to_value(&self) -> (value: Value)
        ensures
            value@ == ValueModel::Null,
    {
        Value::Null
    }
}

} // verus!
