use rustache::lexer::lex;
use rustache::node::{get_field, lookup, Node, Value};
use rustache::parser::parse;
use rustache::render::{Registry, RenderError, Renderable};

fn object(fields: Vec<(&str, Value)>) -> Value {
    Value::Object(fields.into_iter().map(|(name, value)| (name.to_string(), value)).collect())
}

fn text(value: &str) -> Value {
    Value::String(value.to_string())
}

fn tree(template: &str) -> Vec<Node> {
    parse(lex(template)).unwrap()
}

fn render(template: &str, context: &Value) -> (String, Result<(), RenderError>) {
    let mut out = String::new();
    let result = tree(template).render(&mut out, context, None, 4);
    (out, result)
}

fn render_with(
    template: &str,
    context: &Value,
    registry: &Registry,
    depth: usize,
) -> (String, Result<(), RenderError>) {
    let mut out = String::new();
    let result = tree(template).render(&mut out, context, Some(registry), depth);
    (out, result)
}

fn registry(templates: Vec<(&str, &str)>) -> Registry {
    let mut registry = Registry::new();
    for (name, template) in templates {
        registry.insert(name.to_string(), tree(template));
    }
    registry
}

#[test]
fn text_is_written_as_it_is() {
    let nodes = vec![Node::Text("Hello".to_string())];
    let mut out = String::from("> ");
    assert_eq!(nodes.render(&mut out, &Value::Null, None, 0), Ok(()));
    assert_eq!(out, "> Hello");
}

#[test]
fn single_node_is_rendered_like_a_list_of_one() {
    let node = Node::Variable { identifier: "x".to_string(), escaped: true };
    let mut out = String::new();
    assert_eq!(node.render(&mut out, &object(vec![("x", text("1"))]), None, 0), Ok(()));
    assert_eq!(out, "1");
}

#[test]
fn string_forms_of_values() {
    assert_eq!(text("abc").to_string(), "abc");
    assert_eq!(Value::Bool(true).to_string(), "true");
    assert_eq!(Value::Bool(false).to_string(), "false");
    assert_eq!(Value::Null.to_string(), "");
    assert_eq!(object(vec![("a", text("b"))]).to_string(), "");
    assert_eq!(
        Value::Vec(vec![text("a"), Value::Bool(true), Value::Vec(vec![text("b")]), Value::Null])
            .to_string(),
        "atrueb"
    );
}

#[test]
fn truth_of_values() {
    assert!(Value::Bool(true).to_bool());
    assert!(!Value::Bool(false).to_bool());
    assert!(text("x").to_bool());
    assert!(!text("").to_bool());
    assert!(Value::Vec(vec![Value::Null]).to_bool());
    assert!(!Value::Vec(vec![]).to_bool());
    assert!(object(vec![]).to_bool());
    assert!(!Value::Null.to_bool());
}

#[test]
fn dotted_name_leads_through_objects() {
    let context = object(vec![("a", object(vec![("b", object(vec![("c", text("deep"))]))]))]);
    assert_eq!(lookup("a.b.c".to_string(), &context), Some(&text("deep")));
    assert_eq!(lookup("a.b".to_string(), &context), Some(&object(vec![("c", text("deep"))])));
    assert_eq!(lookup("a.x".to_string(), &context), None);
    assert_eq!(lookup("a.b.c.d".to_string(), &context), None);
    assert_eq!(lookup("".to_string(), &context), None);
}

#[test]
fn dot_names_a_context_that_is_no_object() {
    assert_eq!(lookup(".".to_string(), &text("x")), Some(&text("x")));
    assert_eq!(lookup("name".to_string(), &text("x")), None);
    assert_eq!(lookup(".".to_string(), &object(vec![])), None);
    assert_eq!(lookup(".".to_string(), &object(vec![("", object(vec![("", text("e"))]))])), Some(&text("e")));
}

#[test]
fn later_field_of_a_name_counts() {
    let fields = vec![
        ("a".to_string(), text("1")),
        ("b".to_string(), text("2")),
        ("a".to_string(), text("3")),
    ];
    assert_eq!(get_field(&fields, &"a".to_string()), Some(&text("3")));
    assert_eq!(get_field(&fields, &"b".to_string()), Some(&text("2")));
    assert_eq!(get_field(&fields, &"c".to_string()), None);
}

#[test]
fn escaped_variable_replaces_the_five_characters() {
    let context = object(vec![("x", text("a & b < c > d \" e ' f"))]);
    assert_eq!(
        render("{{x}}|{{{x}}}", &context),
        (
            "a &amp; b &lt; c &gt; d &quot; e &#x27; f|a & b < c > d \" e ' f".to_string(),
            Ok(())
        )
    );
}

#[test]
fn variable_that_is_not_there_stops_the_rendering() {
    assert_eq!(
        render("before {{missing}} after", &object(vec![])),
        ("before ".to_string(), Err(RenderError::IdentifierDoesNotExist("missing".to_string())))
    );
}

#[test]
fn comment_writes_nothing() {
    assert_eq!(render("a{{! b }}c", &Value::Null), ("ac".to_string(), Ok(())));
}

#[test]
fn implicit_writes_the_context() {
    assert_eq!(render("[{{.}}]", &text("<x>")), ("[<x>]".to_string(), Ok(())));
}

#[test]
fn section_over_a_value_that_is_not_true_writes_nothing() {
    for value in [Value::Bool(false), text(""), Value::Vec(vec![]), Value::Null] {
        assert_eq!(
            render("a{{#x}}b{{/x}}c", &object(vec![("x", value)])),
            ("ac".to_string(), Ok(()))
        );
    }
}

#[test]
fn section_over_an_object_takes_it_as_context() {
    let context = object(vec![("person", object(vec![("name", text("ada"))]))]);
    assert_eq!(render("{{#person}}{{name}}{{/person}}", &context), ("ada".to_string(), Ok(())));
}

#[test]
fn section_over_a_string_takes_it_as_context() {
    let context = object(vec![("word", text("hey"))]);
    assert_eq!(render("{{#word}}<{{.}}>{{/word}}", &context), ("<hey>".to_string(), Ok(())));
}

#[test]
fn section_over_a_name_that_is_not_there_stops_the_rendering() {
    assert_eq!(
        render("a{{#x}}b{{/x}}", &object(vec![])),
        ("a".to_string(), Err(RenderError::IdentifierDoesNotExist("x".to_string())))
    );
}

#[test]
fn inverted_section_keeps_the_outer_context() {
    let context = object(vec![("list", Value::Vec(vec![])), ("name", text("n"))]);
    assert_eq!(render("{{^list}}{{name}}{{/list}}", &context), ("n".to_string(), Ok(())));
}

#[test]
fn inverted_section_over_a_name_that_is_not_there_is_rendered() {
    assert_eq!(render("{{^x}}none{{/x}}", &object(vec![])), ("none".to_string(), Ok(())));
}

#[test]
fn inverted_section_is_rendered_once_whatever_the_value() {
    let context =
        object(vec![("list", Value::Vec(vec![text("a"), text("b")])), ("name", text("n"))]);
    assert_eq!(render("{{^list}}{{name}}{{/list}}", &context), ("n".to_string(), Ok(())));
}

#[test]
fn error_inside_a_section_keeps_what_was_written() {
    let context = object(vec![("items", Value::Vec(vec![object(vec![("n", text("1"))]), object(vec![])]))]);
    assert_eq!(
        render("{{#items}}({{n}}){{/items}}", &context),
        ("(1)(".to_string(), Err(RenderError::IdentifierDoesNotExist("n".to_string())))
    );
}

#[test]
fn partial_without_registry_does_not_exist() {
    assert_eq!(
        render("a{{>p}}", &Value::Null),
        ("a".to_string(), Err(RenderError::PartialDoesNotExist("p".to_string())))
    );
    assert_eq!(
        render("{{<p}}{{/p}}", &Value::Null),
        (String::new(), Err(RenderError::PartialDoesNotExist("p".to_string())))
    );
}

#[test]
fn block_without_registry_renders_its_body() {
    assert_eq!(render("{{$b}}default{{/b}}", &Value::Null), ("default".to_string(), Ok(())));
}

#[test]
fn partial_that_is_not_there_does_not_exist() {
    let templates = registry(vec![("a", "A")]);
    assert_eq!(
        render_with("{{>a}}{{>b}}", &Value::Null, &templates, 4),
        ("A".to_string(), Err(RenderError::PartialDoesNotExist("b".to_string())))
    );
}

#[test]
fn dynamic_partial_is_named_by_the_context() {
    let templates = registry(vec![("a", "A"), ("b", "B")]);
    let context = object(vec![("which", text("b")), ("flag", Value::Bool(true))]);
    assert_eq!(render_with("{{>*which}}", &context, &templates, 4), ("B".to_string(), Ok(())));
    assert_eq!(
        render_with("{{>*other}}", &context, &templates, 4),
        (String::new(), Err(RenderError::IdentifierDoesNotExist("other".to_string())))
    );
    assert_eq!(
        render_with("{{>*flag}}", &context, &templates, 4),
        (String::new(), Err(RenderError::IdentifierDoesNotExist("flag".to_string())))
    );
    let nowhere = object(vec![("which", text("c"))]);
    assert_eq!(
        render_with("{{>*which}}", &nowhere, &templates, 4),
        (String::new(), Err(RenderError::PartialDoesNotExist("c".to_string())))
    );
}

#[test]
fn parent_binds_its_blocks_over_the_registry() {
    let templates = registry(vec![
        ("base", "[{{$head}}H{{/head}}|{{$body}}B{{/body}}|{{>foot}}]"),
        ("foot", "F"),
    ]);
    assert_eq!(
        render_with("{{<base}}{{$body}}mine{{/body}}{{/base}}", &Value::Null, &templates, 4),
        ("[H|mine|F]".to_string(), Ok(()))
    );
    assert_eq!(
        render_with("{{<base}}{{$foot}}f{{/foot}}{{/base}}", &Value::Null, &templates, 4),
        ("[H|B|f]".to_string(), Ok(()))
    );
}

#[test]
fn later_block_of_a_name_counts() {
    let templates = registry(vec![("base", "{{$x}}default{{/x}}")]);
    assert_eq!(
        render_with("{{<base}}{{$x}}one{{/x}}{{$x}}two{{/x}}{{/base}}", &Value::Null, &templates, 4),
        ("two".to_string(), Ok(()))
    );
}

#[test]
fn dynamic_parent_is_named_by_the_context() {
    let templates = registry(vec![("one", "1{{$x}}{{/x}}"), ("two", "2{{$x}}{{/x}}")]);
    let context = object(vec![("layout", text("two"))]);
    assert_eq!(
        render_with("{{<*layout}}{{$x}}!{{/x}}{{/*layout}}", &context, &templates, 4),
        ("2!".to_string(), Ok(()))
    );
}

#[test]
fn nested_parents_keep_the_blocks_of_the_outer() {
    let templates = registry(vec![
        ("grand", "<{{$a}}ga{{/a}}{{$b}}gb{{/b}}>"),
        ("middle", "{{<grand}}{{$a}}ma{{/a}}{{/grand}}"),
    ]);
    assert_eq!(
        render_with("{{<middle}}{{$b}}cb{{/b}}{{/middle}}", &Value::Null, &templates, 4),
        ("<macb>".to_string(), Ok(()))
    );
}

#[test]
fn each_step_into_a_template_takes_one_of_the_depth() {
    let templates = registry(vec![("a", "a{{>b}}"), ("b", "b{{>c}}"), ("c", "c")]);
    assert_eq!(render_with("{{>a}}", &Value::Null, &templates, 3), ("abc".to_string(), Ok(())));
    assert_eq!(
        render_with("{{>a}}", &Value::Null, &templates, 2),
        ("ab".to_string(), Err(RenderError::RecursionLimit("c".to_string())))
    );
    assert_eq!(
        render_with("{{>a}}", &Value::Null, &templates, 0),
        (String::new(), Err(RenderError::RecursionLimit("a".to_string())))
    );
}

#[test]
fn template_alone_needs_no_depth() {
    let context = object(vec![("items", Value::Vec(vec![text("a"), text("b")]))]);
    let nodes = tree("{{#items}}{{$x}}{{.}}{{/x}}{{/items}}");
    let mut shallow = String::new();
    let mut deep = String::new();
    assert_eq!(nodes.render(&mut shallow, &context, None, 0), Ok(()));
    assert_eq!(nodes.render(&mut deep, &context, None, 100), Ok(()));
    assert_eq!(shallow, "ab");
    assert_eq!(deep, "ab");
}

#[test]
fn registry_holds_the_later_template_of_a_name() {
    let mut templates = Registry::new();
    assert!(!templates.contains_key(&"a".to_string()));
    assert_eq!(templates.get(&"a".to_string()), None);
    templates.insert("a".to_string(), tree("one"));
    templates.insert("b".to_string(), tree("other"));
    templates.insert("a".to_string(), tree("two"));
    assert!(templates.contains_key(&"a".to_string()));
    assert_eq!(templates.get(&"a".to_string()), Some(&tree("two")));
    assert_eq!(templates.get(&"b".to_string()), Some(&tree("other")));
}

#[test]
fn messages_of_the_render_errors() {
    assert_eq!(
        RenderError::IdentifierDoesNotExist("x".to_string()).message(),
        "identifier: 'x' does not exist"
    );
    assert_eq!(
        RenderError::PartialDoesNotExist("p".to_string()).message(),
        "partial: 'p' does not exist"
    );
    assert_eq!(RenderError::RecursionLimit("t".to_string()).message(), "template: 't' lies too deep");
}

#[test]
fn copies_are_equal_to_what_they_copy() {
    let context = object(vec![
        ("a", Value::Vec(vec![text("x"), Value::Bool(true), Value::Null])),
        ("b", object(vec![("c", text("d"))])),
    ]);
    assert_eq!(context.clone(), context);
    let nodes = tree("a{{#b}}{{c}}{{^d}}{{.}}{{/d}}{{/b}}{{<p}}{{$q}}{{>*r}}{{/q}}{{/p}}{{!s}}");
    assert_eq!(nodes.clone(), nodes);
    let mut templates = Registry::new();
    templates.insert("t".to_string(), tree("one"));
    templates.insert("t".to_string(), tree("two"));
    let copy = templates.clone();
    assert_eq!(copy.get(&"t".to_string()), Some(&tree("two")));
}

#[test]
fn escaping_leaves_other_characters_as_they_are() {
    let context = object(vec![("x", text("\u{e9}<\u{4e16}/>"))]);
    assert_eq!(
        render("{{x}}", &context),
        ("\u{e9}&lt;\u{4e16}/&gt;".to_string(), Ok(()))
    );
}
