use rustache::lexer::Token;
use rustache::node::{Node, Renderable, Value};
use rustache::render::RenderError;
use rustache::{compile, Rustache};

fn object(fields: Vec<(&str, Value)>) -> Value {
    Value::Object(fields.into_iter().map(|(name, value)| (name.to_string(), value)).collect())
}

fn text(value: &str) -> Value {
    Value::String(value.to_string())
}

fn render_one(template: &str, context: &Value) -> Result<String, RenderError> {
    let mut registry = Rustache::new("views");
    assert!(registry.load("main".to_string(), template));
    let mut out = String::new();
    registry.render("main", &mut out, context).map(|_| out)
}

#[test]
fn variable_is_replaced_by_its_value() {
    let context = object(vec![("greeting", text("world"))]);
    assert_eq!(render_one("Hello {{greeting}}", &context), Ok("Hello world".to_string()));
}

#[test]
fn section_is_rendered_once_for_each_item() {
    let context = object(vec![("items", Value::Vec(vec![text("a"), text("b"), text("c")]))]);
    assert_eq!(render_one("{{#items}}[{{.}}]{{/items}}", &context), Ok("[a][b][c]".to_string()));
}

#[test]
fn inverted_section_over_empty_sequence_is_rendered() {
    let context = object(vec![("empty", Value::Vec(vec![]))]);
    assert_eq!(render_one("{{^empty}}none{{/empty}}", &context), Ok("none".to_string()));
}

#[test]
fn triple_braces_do_not_escape() {
    let context = object(vec![("html", text("<b>"))]);
    assert_eq!(render_one("{{{html}}}/{{html}}", &context), Ok("<b>/&lt;b&gt;".to_string()));
}

#[test]
fn ampersand_does_not_escape() {
    let context = object(vec![("html", text("<b>"))]);
    assert_eq!(render_one("{{&html}}", &context), Ok("<b>".to_string()));
}

#[test]
fn new_delimiters_are_in_force_behind_the_change() {
    let context = object(vec![("x", text("ok"))]);
    assert_eq!(render_one("{{=<% %>=}}<%x%>", &context), Ok("ok".to_string()));
}

#[test]
fn old_delimiters_are_text_behind_the_change() {
    let context = object(vec![("x", text("ok"))]);
    assert_eq!(
        render_one("{{x}}{{=<% %>=}}{{x}}<%x%>", &context),
        Ok("ok{{x}}ok".to_string())
    );
}

#[test]
fn parent_overrides_the_block_of_its_template() {
    let mut registry = Rustache::new("views");
    assert!(registry.load("base".to_string(), "<<{{$body}}default{{/body}}>>"));
    assert!(registry.load("child".to_string(), "{{<base}}{{$body}}hi{{/body}}{{/base}}"));
    let mut out = String::new();
    assert_eq!(registry.render("child", &mut out, &object(vec![])), Ok(()));
    assert_eq!(out, "<<hi>>");
}

#[test]
fn block_without_override_renders_its_default() {
    let mut registry = Rustache::new("views");
    assert!(registry.load("base".to_string(), "<<{{$body}}default{{/body}}>>"));
    assert!(registry.load("child".to_string(), "{{<base}}{{/base}}"));
    let mut out = String::new();
    assert_eq!(registry.render("child", &mut out, &object(vec![])), Ok(()));
    assert_eq!(out, "<<default>>");
}

#[test]
fn template_that_is_not_there_is_reported() {
    let registry = Rustache::new("views");
    let mut out = String::new();
    assert_eq!(
        registry.render("missing", &mut out, &Value::Null),
        Err(RenderError::PartialDoesNotExist("missing".to_string()))
    );
    assert_eq!(out, "");
}

#[test]
fn template_that_does_not_parse_is_left_out() {
    let mut registry = Rustache::new("views");
    assert!(!registry.load("broken".to_string(), "{{#open}}never closed"));
    assert!(registry.load("fine".to_string(), "ok"));
    assert!(!registry.partials.contains_key(&"broken".to_string()));
    assert!(registry.partials.contains_key(&"fine".to_string()));
    assert_eq!(registry.directory, "views");
}

#[test]
fn later_template_of_a_name_replaces_the_earlier() {
    let mut registry = Rustache::new("views");
    assert!(registry.insert("a".to_string(), compile("one")));
    assert!(registry.insert("a".to_string(), compile("two")));
    let mut out = String::new();
    assert_eq!(registry.render("a", &mut out, &Value::Null), Ok(()));
    assert_eq!(out, "two");
}

#[test]
fn partial_is_rendered_in_the_context_of_its_tag() {
    let mut registry = Rustache::new("views");
    assert!(registry.load("item".to_string(), "<{{name}}>"));
    assert!(registry.load("list".to_string(), "{{#people}}{{>item}}{{/people}}"));
    let people = Value::Vec(vec![
        object(vec![("name", text("ada"))]),
        object(vec![("name", text("bob"))]),
    ]);
    let mut out = String::new();
    assert_eq!(registry.render("list", &mut out, &object(vec![("people", people)])), Ok(()));
    assert_eq!(out, "<ada><bob>");
}

#[test]
fn recursion_without_end_stops_at_the_depth() {
    let mut registry = Rustache::new("views");
    assert!(registry.load("loop".to_string(), "o{{>loop}}"));
    registry.depth = 3;
    let mut out = String::new();
    assert_eq!(
        registry.render("loop", &mut out, &Value::Null),
        Err(RenderError::RecursionLimit("loop".to_string()))
    );
    assert_eq!(out, "oooo");
}

#[test]
fn recursion_over_nested_data_ends_with_the_data() {
    let mut registry = Rustache::new("views");
    assert!(registry.load("node".to_string(), "{{content}}<{{#nodes}}{{>node}}{{/nodes}}>"));
    let leaf = object(vec![("content", text("Y")), ("nodes", Value::Vec(vec![]))]);
    let root = object(vec![("content", text("X")), ("nodes", Value::Vec(vec![leaf]))]);
    let mut out = String::new();
    assert_eq!(registry.render("node", &mut out, &root), Ok(()));
    assert_eq!(out, "X<Y<>>");
}

#[test]
fn items_are_found_under_the_modules_of_their_kind() {
    let tokens = rustache::lexer::lex("a");
    assert_eq!(tokens, vec![Token::Text("a".to_string()), Token::EOF]);
    let nodes = rustache::parser::parse(tokens).unwrap();
    assert_eq!(nodes, vec![Node::Text("a".to_string())]);
    let mut out = String::new();
    let result: Result<(), rustache::node::RenderError> =
        nodes.render(&mut out, &Value::Null, None, rustache::DEFAULT_DEPTH);
    assert_eq!(result, Ok(()));
    assert_eq!(out, "a");
    let _ = rustache::Encoder::new();
}
