use rustache::lexer::{class_holds, lex, tag_start, CharClass, Lexer, LexerError, State, TagStart};
use rustache::token::Token;

fn text(value: &str) -> Token {
    Token::Text(value.to_string())
}

fn identifier(value: &str) -> Token {
    Token::Identifier(value.to_string())
}

fn error(line: usize, column: usize, message: &str) -> Token {
    Token::Error { line, column, message: message.to_string() }
}

#[test]
fn empty_text_is_only_eof() {
    assert_eq!(lex(""), vec![Token::EOF]);
}

#[test]
fn text_without_tags_is_one_token() {
    assert_eq!(lex("plain text"), vec![text("plain text"), Token::EOF]);
}

#[test]
fn variable_between_texts() {
    assert_eq!(
        lex("ab{{x}}cd"),
        vec![
            text("ab"),
            Token::OpenDelimiter,
            identifier("x"),
            Token::CloseDelimiter,
            text("cd"),
            Token::EOF,
        ]
    );
}

#[test]
fn text_is_counted_in_characters_not_bytes() {
    assert_eq!(
        lex("\u{e9}\u{4e16}{{a.b}}\u{1f600}!"),
        vec![
            text("\u{e9}\u{4e16}"),
            Token::OpenDelimiter,
            identifier("a.b"),
            Token::CloseDelimiter,
            text("\u{1f600}!"),
            Token::EOF,
        ]
    );
}

#[test]
fn each_sigil_gives_its_token() {
    assert_eq!(
        lex("{{#a}}{{^b}}{{/c}}{{$d}}{{<e}}{{>f}}{{&g}}"),
        vec![
            Token::OpenDelimiter,
            Token::Section,
            identifier("a"),
            Token::CloseDelimiter,
            Token::OpenDelimiter,
            Token::InvertedSection,
            identifier("b"),
            Token::CloseDelimiter,
            Token::OpenDelimiter,
            Token::SectionEnd,
            identifier("c"),
            Token::CloseDelimiter,
            Token::OpenDelimiter,
            Token::Block,
            identifier("d"),
            Token::CloseDelimiter,
            Token::OpenDelimiter,
            Token::Parent,
            identifier("e"),
            Token::CloseDelimiter,
            Token::OpenDelimiter,
            Token::Partial,
            identifier("f"),
            Token::CloseDelimiter,
            Token::OpenDelimiter,
            Token::Raw,
            identifier("g"),
            Token::CloseDelimiter,
            Token::EOF,
        ]
    );
}

#[test]
fn triple_braces_are_raw() {
    assert_eq!(
        lex("{{{ html }}}"),
        vec![
            Token::OpenDelimiter,
            Token::Raw,
            identifier("html"),
            Token::CloseDelimiter,
            Token::EOF,
        ]
    );
}

#[test]
fn implicit_is_a_dot() {
    assert_eq!(
        lex("{{.}}"),
        vec![Token::OpenDelimiter, Token::Implicit, Token::CloseDelimiter, Token::EOF]
    );
}

#[test]
fn spaces_round_a_name_are_dropped() {
    assert_eq!(
        lex("{{#  name  }}"),
        vec![
            Token::OpenDelimiter,
            Token::Section,
            identifier("name"),
            Token::CloseDelimiter,
            Token::EOF,
        ]
    );
}

#[test]
fn star_makes_a_name_dynamic() {
    assert_eq!(
        lex("{{>*name}}{{< * other}}"),
        vec![
            Token::OpenDelimiter,
            Token::Partial,
            Token::Dynamic,
            identifier("name"),
            Token::CloseDelimiter,
            Token::OpenDelimiter,
            Token::Parent,
            Token::Dynamic,
            identifier(""),
            error(1, 17, "unexpected character: o"),
        ]
    );
}

#[test]
fn comment_holds_any_text() {
    assert_eq!(
        lex("a{{! {x} \n # }}b"),
        vec![
            text("a"),
            Token::OpenDelimiter,
            Token::Comment(" {x} \n # ".to_string()),
            Token::CloseDelimiter,
            text("b"),
            Token::EOF,
        ]
    );
}

#[test]
fn comment_without_end_is_unexpected_eof() {
    assert_eq!(
        lex("{{! never"),
        vec![Token::OpenDelimiter, error(1, 10, "unexpected end of file")]
    );
}

#[test]
fn delimiter_change_gives_no_name() {
    assert_eq!(
        lex("{{=<% %>=}}<%x%>{{y}}"),
        vec![
            Token::OpenDelimiter,
            Token::SetDelimiter,
            Token::CloseDelimiter,
            Token::OpenDelimiter,
            identifier("x"),
            Token::CloseDelimiter,
            text("{{y}}"),
            Token::EOF,
        ]
    );
}

#[test]
fn delimiter_change_takes_spaces() {
    assert_eq!(
        lex("{{= (( ))=}}((x))"),
        vec![
            Token::OpenDelimiter,
            Token::SetDelimiter,
            Token::CloseDelimiter,
            Token::OpenDelimiter,
            identifier("x"),
            Token::CloseDelimiter,
            Token::EOF,
        ]
    );
}

#[test]
fn raw_close_follows_the_new_close_delimiter() {
    assert_eq!(
        lex("{{=<% %>=}}<%{x}%>"),
        vec![
            Token::OpenDelimiter,
            Token::SetDelimiter,
            Token::CloseDelimiter,
            Token::OpenDelimiter,
            Token::Raw,
            identifier("x"),
            Token::CloseDelimiter,
            Token::EOF,
        ]
    );
}

#[test]
fn delimiters_can_be_changed_again() {
    assert_eq!(
        lex("{{=<% %>=}}<%=(( ))=%>((x))<%y%>"),
        vec![
            Token::OpenDelimiter,
            Token::SetDelimiter,
            Token::CloseDelimiter,
            Token::OpenDelimiter,
            Token::SetDelimiter,
            Token::CloseDelimiter,
            Token::OpenDelimiter,
            identifier("x"),
            Token::CloseDelimiter,
            text("<%y%>"),
            Token::EOF,
        ]
    );
}

#[test]
fn braces_cannot_be_set_as_delimiters() {
    assert_eq!(
        lex("{{=<% %>=}}<%={{ }}=%>"),
        vec![
            Token::OpenDelimiter,
            Token::SetDelimiter,
            Token::CloseDelimiter,
            Token::OpenDelimiter,
            Token::SetDelimiter,
            error(1, 15, "unexpected character: {"),
        ]
    );
}

#[test]
fn closing_delimiter_can_be_set_to_nothing() {
    assert_eq!(
        lex("{{=<% =}}<%x<%#y z"),
        vec![
            Token::OpenDelimiter,
            Token::SetDelimiter,
            Token::CloseDelimiter,
            Token::OpenDelimiter,
            identifier("x"),
            Token::CloseDelimiter,
            Token::OpenDelimiter,
            Token::Section,
            identifier("y"),
            Token::CloseDelimiter,
            text("z"),
            Token::EOF,
        ]
    );
}

#[test]
fn delimiter_change_without_space_fails() {
    assert_eq!(
        lex("{{=<%=}}"),
        vec![
            Token::OpenDelimiter,
            Token::SetDelimiter,
            error(1, 6, "unexpected character: ="),
        ]
    );
}

#[test]
fn delimiter_change_without_equals_fails() {
    assert_eq!(
        lex("{{=<% %>}}"),
        vec![
            Token::OpenDelimiter,
            Token::SetDelimiter,
            error(1, 9, "unexpected character: }"),
        ]
    );
}

#[test]
fn delimiter_change_cut_short_is_unexpected_eof() {
    assert_eq!(
        lex("{{=<% %>="),
        vec![Token::OpenDelimiter, Token::SetDelimiter, error(1, 10, "unexpected end of file")]
    );
}

#[test]
fn line_end_inside_a_tag_is_unclosed_delimiter() {
    assert_eq!(
        lex("one\ntwo {{\nx}}"),
        vec![text("one\ntwo "), Token::OpenDelimiter, error(2, 7, "unclosed delimiter")]
    );
}

#[test]
fn end_behind_an_opening_delimiter_is_unexpected_eof() {
    assert_eq!(lex("a{{"), vec![text("a"), Token::OpenDelimiter, error(1, 4, "unexpected end of file")]);
}

#[test]
fn character_that_starts_no_tag_is_unexpected() {
    assert_eq!(lex("{{-}}"), vec![Token::OpenDelimiter, error(1, 3, "unexpected character: -")]);
    assert_eq!(lex("{{ x}}"), vec![Token::OpenDelimiter, error(1, 3, "unexpected character:  ")]);
}

#[test]
fn letter_of_another_script_starts_a_name_but_is_no_part_of_one() {
    assert_eq!(
        lex("{{\u{e9}}}"),
        vec![Token::OpenDelimiter, identifier(""), error(1, 3, "unexpected character: \u{e9}")]
    );
}

#[test]
fn name_cut_short_is_unexpected_eof() {
    assert_eq!(
        lex("{{name"),
        vec![Token::OpenDelimiter, identifier("name"), error(1, 7, "unexpected end of file")]
    );
}

#[test]
fn name_with_something_behind_it_is_unexpected_character() {
    assert_eq!(
        lex("\n\n{{a b}}"),
        vec![
            text("\n\n"),
            Token::OpenDelimiter,
            identifier("a"),
            error(3, 5, "unexpected character: b"),
        ]
    );
}

#[test]
fn messages_of_the_errors() {
    assert_eq!(LexerError::UnclosedDelimiter.message(), "unclosed delimiter");
    assert_eq!(LexerError::UnexpectedEOF.message(), "unexpected end of file");
    assert_eq!(LexerError::UnexpectedCharacter('%').message(), "unexpected character: %");
}

#[test]
fn classes_of_characters() {
    for c in "azAZ09.?_".chars() {
        assert!(class_holds(CharClass::Identifier, c));
    }
    for c in " -/{*\u{e9}".chars() {
        assert!(!class_holds(CharClass::Identifier, c));
    }
    for c in "<>%()@".chars() {
        assert!(class_holds(CharClass::Delimiter, c));
    }
    for c in "{}= a".chars() {
        assert!(!class_holds(CharClass::Delimiter, c));
    }
    assert!(class_holds(CharClass::Space, ' '));
    assert!(!class_holds(CharClass::Space, '\t'));
}

#[test]
fn start_of_a_tag() {
    assert_eq!(tag_start('#', false), TagStart::Sigil(Token::Section, State::Identifier));
    assert_eq!(tag_start('{', false), TagStart::Sigil(Token::Raw, State::RawIdentifier));
    assert_eq!(tag_start('.', false), TagStart::Sigil(Token::Implicit, State::CloseDelimiter));
    assert_eq!(tag_start('=', false), TagStart::Sigil(Token::SetDelimiter, State::NewDelimiter));
    assert_eq!(tag_start('!', false), TagStart::Comment);
    assert_eq!(tag_start('\n', false), TagStart::Unclosed);
    assert_eq!(tag_start('x', true), TagStart::Name);
    assert_eq!(tag_start('x', false), TagStart::Unexpected);
    assert_eq!(tag_start('#', true), TagStart::Sigil(Token::Section, State::Identifier));
}

#[test]
fn steps_of_the_machine_one_by_one() {
    let mut lexer = Lexer::new("a{{x}}");
    assert_eq!(lexer.step(State::Text), Some(State::OpenDelimiter));
    assert_eq!(lexer.take_tokens(), vec![text("a")]);
    assert_eq!(lexer.step(State::OpenDelimiter), Some(State::InsideDelimiter));
    assert_eq!(lexer.step(State::InsideDelimiter), Some(State::Identifier));
    assert_eq!(lexer.step(State::Identifier), Some(State::CloseDelimiter));
    assert_eq!(lexer.step(State::CloseDelimiter), Some(State::Text));
    assert_eq!(
        lexer.take_tokens(),
        vec![Token::OpenDelimiter, identifier("x"), Token::CloseDelimiter]
    );
    assert_eq!(lexer.step(State::Text), None);
    assert_eq!(lexer.into_tokens(), vec![Token::EOF]);
}

#[test]
fn stream_ends_once_and_texts_stand_apart() {
    for template in ["", "a", "a{{b}}c{{#d}}e{{/d}}", "{{x", "a{{=<% %>=}}b<%c%>d{{e}}", "{{!x}}y"] {
        let tokens = lex(template);
        assert!(!tokens.is_empty());
        for (k, token) in tokens.iter().enumerate() {
            let ends = matches!(token, Token::EOF | Token::Error { .. });
            assert_eq!(ends, k + 1 == tokens.len());
            if let Token::Text(text) = token {
                assert!(!text.is_empty());
                assert!(matches!(tokens[k + 1], Token::OpenDelimiter | Token::EOF));
            }
        }
    }
}

#[test]
fn text_holds_no_opening_delimiter_in_force() {
    let tokens = lex("a{b{{x}}c<%d{{=<% %>=}}e{{f<%y%>g");
    assert_eq!(
        tokens,
        vec![
            text("a{b"),
            Token::OpenDelimiter,
            identifier("x"),
            Token::CloseDelimiter,
            text("c<%d"),
            Token::OpenDelimiter,
            Token::SetDelimiter,
            Token::CloseDelimiter,
            text("e{{f"),
            Token::OpenDelimiter,
            identifier("y"),
            Token::CloseDelimiter,
            text("g"),
            Token::EOF,
        ]
    );
}

#[test]
fn machine_stops_within_eight_steps_for_each_character() {
    for template in ["", "a", "{{x}}", "a{{#b}} {{.}} {{/b}}{{=<% %>=}}<%! c %>d<%", "{{{x}}}{{&y}}"] {
        let mut lexer = Lexer::new(template);
        let mut state = Some(State::Text);
        let mut steps = 0;
        while let Some(current) = state {
            state = lexer.step(current);
            steps += 1;
        }
        assert!(steps <= 8 * template.chars().count() + 1);
    }
}

#[test]
fn long_template_is_read_to_its_end() {
    let mut template = String::new();
    for i in 0..300 {
        template.push_str("line ");
        template.push_str(&i.to_string());
        template.push_str(" {{#s}}{{name}}{{/s}}\n");
    }
    let tokens = lex(&template);
    assert_eq!(tokens.len(), 300 * 12 + 2);
    assert_eq!(tokens.last(), Some(&Token::EOF));
}
