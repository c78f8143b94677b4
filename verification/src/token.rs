//! Tokens: what the lexer hands to the parser.
use vstd::prelude::*;

verus! {

/// One lexical unit of a template.
#[derive(Debug, PartialEq, Eq)]
pub enum Token {
    /// A lexical failure, with the line and the column of the character
    /// it is about, both counted from 1 and in characters; it ends the
    /// stream.
    Error { line: usize, column: usize, message: String },
    /// The end of the template; it ends the stream.
    EOF,
    /// Literal template text.
    Text(String),
    OpenDelimiter,
    CloseDelimiter,
    /// The `#` sigil.
    Section,
    /// The `^` sigil.
    InvertedSection,
    /// A simple or dotted name.
    Identifier(String),
    /// The `.` self-reference.
    Implicit,
    /// The body of a `!` comment.
    Comment(String),
    /// The `>` sigil.
    Partial,
    /// The `*` modifier.
    Dynamic,
    /// The `$` sigil.
    Block,
    /// The `<` sigil.
    Parent,
    /// The `=` sigil that starts a delimiter change.
    SetDelimiter,
    /// The `{` or `&` sigil of an unescaped variable.
    Raw,
    /// The `/` sigil.
    SectionEnd,
}

/// The mathematical value of a [`Token`].
pub ghost enum TokenModel {
    Error { line: nat, column: nat, message: Seq<char> },
    EOF,
    Text(Seq<char>),
    OpenDelimiter,
    CloseDelimiter,
    Section,
    InvertedSection,
    Identifier(Seq<char>),
    Implicit,
    Comment(Seq<char>),
    Partial,
    Dynamic,
    Block,
    Parent,
    SetDelimiter,
    Raw,
    SectionEnd,
}

impl View for Token {
    type V = TokenModel;

    open spec fn view(&self) -> TokenModel {
        match self {
            Token::Error { line, column, message } => TokenModel::Error {
                line: *line as nat,
                column: *column as nat,
                message: message@,
            },
            Token::EOF => TokenModel::EOF,
            Token::Text(text) => TokenModel::Text(text@),
            Token::OpenDelimiter => TokenModel::OpenDelimiter,
            Token::CloseDelimiter => TokenModel::CloseDelimiter,
            Token::Section => TokenModel::Section,
            Token::InvertedSection => TokenModel::InvertedSection,
            Token::Identifier(name) => TokenModel::Identifier(name@),
            Token::Implicit => TokenModel::Implicit,
            Token::Comment(body) => TokenModel::Comment(body@),
            Token::Partial => TokenModel::Partial,
            Token::Dynamic => TokenModel::Dynamic,
            Token::Block => TokenModel::Block,
            Token::Parent => TokenModel::Parent,
            Token::SetDelimiter => TokenModel::SetDelimiter,
            Token::Raw => TokenModel::Raw,
            Token::SectionEnd => TokenModel::SectionEnd,
        }
    }
}

/// The values of a sequence of tokens, in order.
pub open spec fn token_models(tokens: Seq<Token>) -> Seq<TokenModel> {
    Seq::new(tokens.len(), |i: int| tokens[i]@)
}

} // verus!

verus! {

impl Clone for Token {
    fn clone(&self) -> (copy: Token)
        ensures
            copy@ == self@,
    {
        match self {
            Token::Error { line, column, message } => Token::Error {
                line: *line,
                column: *column,
                message: message.clone(),
            },
            Token::EOF => Token::EOF,
            Token::Text(text) => Token::Text(text.clone()),
            Token::OpenDelimiter => Token::OpenDelimiter,
            Token::CloseDelimiter => Token::CloseDelimiter,
            Token::Section => Token::Section,
            Token::InvertedSection => Token::InvertedSection,
            Token::Identifier(name) => Token::Identifier(name.clone()),
            Token::Implicit => Token::Implicit,
            Token::Comment(body) => Token::Comment(body.clone()),
            Token::Partial => Token::Partial,
            Token::Dynamic => Token::Dynamic,
            Token::Block => Token::Block,
            Token::Parent => Token::Parent,
            Token::SetDelimiter => Token::SetDelimiter,
            Token::Raw => Token::Raw,
            Token::SectionEnd => Token::SectionEnd,
        }
    }
}

} // verus!
