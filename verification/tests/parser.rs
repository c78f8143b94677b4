use rustache::lexer::lex;
use rustache::node::Node;
use rustache::parser::{parse, Parser, ParserError};
use rustache::token::Token;

fn text(value: &str) -> Node {
    Node::Text(value.to_string())
}

fn variable(identifier: &str, escaped: bool) -> Node {
    Node::Variable { identifier: identifier.to_string(), escaped }
}

fn section(identifier: &str, inverted: bool, children: Vec<Node>) -> Node {
    Node::Section { identifier: identifier.to_string(), inverted, children }
}

fn name(value: &str) -> Token {
    Token::Identifier(value.to_string())
}

#[test]
fn empty_stream_is_an_empty_template() {
    assert_eq!(parse(vec![]), Ok(vec![]));
    assert_eq!(parse(vec![Token::EOF]), Ok(vec![]));
}

#[test]
fn tokens_behind_eof_are_not_read() {
    assert_eq!(
        parse(vec![Token::Text("a".to_string()), Token::EOF, Token::CloseDelimiter]),
        Ok(vec![text("a")])
    );
}

#[test]
fn each_tag_gives_its_node() {
    assert_eq!(
        parse(lex("a{{b}}{{{c}}}{{&d}}{{.}}{{!e}}{{>f}}{{>*g}}{{=<% %>=}}h")),
        Ok(vec![
            text("a"),
            variable("b", true),
            variable("c", false),
            variable("d", false),
            Node::Implicit,
            Node::Comment("e".to_string()),
            Node::Partial { identifier: "f".to_string(), dynamic: false },
            Node::Partial { identifier: "g".to_string(), dynamic: true },
            text("h"),
        ])
    );
}

#[test]
fn sections_hold_their_bodies() {
    assert_eq!(
        parse(lex("{{#a}}x{{^b}}y{{/b}}{{/a}}z")),
        Ok(vec![
            section("a", false, vec![text("x"), section("b", true, vec![text("y")])]),
            text("z"),
        ])
    );
}

#[test]
fn parent_holds_blocks() {
    assert_eq!(
        parse(lex("{{<base}} {{$body}}hi{{/body}} {{/base}}")),
        Ok(vec![Node::Parent {
            identifier: "base".to_string(),
            dynamic: false,
            children: vec![
                text(" "),
                Node::Block { identifier: "body".to_string(), children: vec![text("hi")] },
                text(" "),
            ],
        }])
    );
}

#[test]
fn dynamic_parent_and_closing_tag_with_star() {
    assert_eq!(
        parse(lex("{{<*base}}{{/*base}}")),
        Ok(vec![Node::Parent { identifier: "base".to_string(), dynamic: true, children: vec![] }])
    );
}

#[test]
fn section_without_closing_tag_is_unclosed() {
    assert_eq!(parse(lex("{{#a}}x")), Err(ParserError::UnclosedSection("a".to_string())));
    assert_eq!(parse(lex("{{#a}}x{{/b}}")), Err(ParserError::UnclosedSection("a".to_string())));
    assert_eq!(parse(lex("{{$a}}")), Err(ParserError::UnclosedSection("a".to_string())));
    assert_eq!(parse(lex("{{<a}}{{/b}}")), Err(ParserError::UnclosedSection("a".to_string())));
}

#[test]
fn body_ends_at_the_first_closing_tag_of_its_name() {
    assert_eq!(
        parse(lex("{{#a}}{{#a}}x{{/a}}{{/a}}")),
        Err(ParserError::UnclosedSection("a".to_string()))
    );
}

#[test]
fn crossed_sections_are_refused() {
    assert_eq!(
        parse(lex("{{#a}}{{#b}}{{/a}}{{/b}}")),
        Err(ParserError::UnclosedSection("b".to_string()))
    );
}

#[test]
fn closing_tag_without_section_is_unexpected() {
    assert_eq!(parse(lex("a{{/b}}")), Err(ParserError::UnexpectedToken(Token::SectionEnd)));
}

#[test]
fn token_outside_a_tag_is_unexpected() {
    assert_eq!(
        parse(vec![Token::CloseDelimiter]),
        Err(ParserError::UnexpectedToken(Token::CloseDelimiter))
    );
    assert_eq!(parse(vec![name("x")]), Err(ParserError::UnexpectedToken(name("x"))));
    assert_eq!(
        parse(vec![Token::OpenDelimiter, Token::Dynamic]),
        Err(ParserError::UnexpectedToken(Token::Dynamic))
    );
}

#[test]
fn error_of_the_lexer_is_passed_on() {
    assert_eq!(
        parse(lex("a{{-}}")),
        Err(ParserError::SyntaxError {
            line: 1,
            column: 4,
            message: "unexpected character: -".to_string(),
        })
    );
    assert_eq!(
        parse(lex("{{x")),
        Err(ParserError::SyntaxError {
            line: 1,
            column: 4,
            message: "unexpected end of file".to_string(),
        })
    );
}

#[test]
fn unclosed_section_counts_before_the_error_behind_it() {
    assert_eq!(parse(lex("{{#a}}{{-}}")), Err(ParserError::UnclosedSection("a".to_string())));
}

#[test]
fn missing_token_is_expected() {
    assert_eq!(
        parse(vec![Token::OpenDelimiter]),
        Err(ParserError::ExpectedToken(Token::CloseDelimiter))
    );
    assert_eq!(
        parse(vec![Token::OpenDelimiter, name("x")]),
        Err(ParserError::ExpectedToken(Token::CloseDelimiter))
    );
    assert_eq!(
        parse(vec![Token::OpenDelimiter, Token::Raw]),
        Err(ParserError::ExpectedToken(name("")))
    );
    assert_eq!(
        parse(vec![Token::OpenDelimiter, Token::Partial, Token::Dynamic]),
        Err(ParserError::ExpectedToken(name("")))
    );
}

#[test]
fn other_token_than_expected_is_reported_with_it() {
    assert_eq!(
        parse(vec![Token::OpenDelimiter, name("x"), Token::EOF]),
        Err(ParserError::ExpectedTokenGot(Token::CloseDelimiter, Token::EOF))
    );
    assert_eq!(
        parse(vec![Token::OpenDelimiter, Token::Section, Token::Dynamic, name("x")]),
        Err(ParserError::ExpectedTokenGot(name(""), Token::Dynamic))
    );
    assert_eq!(
        parse(vec![Token::OpenDelimiter, Token::Section, name("x"), Token::Text("y".to_string())]),
        Err(ParserError::ExpectedTokenGot(Token::CloseDelimiter, Token::Text("y".to_string())))
    );
}

#[test]
fn error_inside_a_body_is_handed_out() {
    assert_eq!(
        parse(lex("{{#a}}{{/b}}{{/a}}")),
        Err(ParserError::UnexpectedToken(Token::SectionEnd))
    );
}

#[test]
fn parser_reads_its_buffer_token_by_token() {
    let mut parser = Parser::new(vec![Token::Text("a".to_string()), Token::EOF]);
    assert_eq!(parser.next(), Some(Token::Text("a".to_string())));
    assert_eq!(parser.parse(), Ok(vec![]));
    assert_eq!(parser.next(), None);
}

#[test]
fn written_form_reads_back_as_its_tree() {
    let tree = vec![
        text("a"),
        section(
            "outer",
            false,
            vec![
                variable("x", true),
                section("inner", true, vec![text("b"), Node::Implicit]),
                Node::Block { identifier: "slot".to_string(), children: vec![] },
            ],
        ),
        Node::Comment(" note ".to_string()),
        variable("y", false),
    ];
    let written =
        "a{{#outer}}{{x}}{{^inner}}b{{.}}{{/inner}}{{$slot}}{{/slot}}{{/outer}}{{! note }}{{{y}}}";
    assert_eq!(parse(lex(written)), Ok(tree));
}

#[test]
fn each_section_of_a_tree_has_its_closing_tag_in_the_stream() {
    let tokens = lex("{{#a}}{{^b}}{{/b}}{{<c}}{{$d}}{{/d}}{{/c}}{{/a}}");
    let closes = |identifier: &str| {
        tokens.windows(2).any(|pair| pair[0] == Token::SectionEnd && pair[1] == name(identifier))
    };
    assert!(parse(tokens.clone()).is_ok());
    for identifier in ["a", "b", "c", "d"] {
        assert!(closes(identifier));
    }
}

#[test]
fn copies_of_tokens_and_errors_are_equal_to_them() {
    let tokens = lex("a{{#b}}{{! c }}{{/b}}{{-");
    assert_eq!(tokens.clone(), tokens);
    for error in [
        ParserError::SyntaxError { line: 2, column: 3, message: "m".to_string() },
        ParserError::UnexpectedToken(name("x")),
        ParserError::ExpectedToken(Token::CloseDelimiter),
        ParserError::ExpectedTokenGot(Token::CloseDelimiter, Token::Text("t".to_string())),
        ParserError::UnclosedSection("s".to_string()),
    ] {
        assert_eq!(error.clone(), error);
    }
}
