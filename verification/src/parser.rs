//! The parser: from a token stream to a node tree.
//!
//! A template is a sequence of items. An item is a piece of text or a tag; a
//! tag stands between an opening and a closing delimiter. A section, a block
//! and a parent hold a body, which ends at the first closing tag that names
//! them, and which is parsed on its own.
use vstd::prelude::*;
use std::collections::VecDeque;
use crate::token::{Token, TokenModel, token_models};
use crate::node::{Node, NodeModel, node_models, lemma_children_models};

verus! {

/// Why a token stream is not a template.
#[derive(Debug, PartialEq, Eq)]
pub enum ParserError {
    /// The lexer failed; its report is passed on.
    SyntaxError { line: usize, column: usize, message: String },
    /// A token stands where no rule accepts it.
    UnexpectedToken(Token),
    /// The stream ended where this token had to come.
    ExpectedToken(Token),
    /// The first token had to come; the second came.
    ExpectedTokenGot(Token, Token),
    /// The stream ended before the closing tag of this section.
    UnclosedSection(String),
}

/// The mathematical value of a [`ParserError`].
pub ghost enum ParserErrorModel {
    SyntaxError { line: nat, column: nat, message: Seq<char> },
    UnexpectedToken(TokenModel),
    ExpectedToken(TokenModel),
    ExpectedTokenGot(TokenModel, TokenModel),
    UnclosedSection(Seq<char>),
}

impl View for ParserError {
    type V = ParserErrorModel;

    open spec fn view(&self) -> ParserErrorModel {
        match self {
            ParserError::SyntaxError { line, column, message } => ParserErrorModel::SyntaxError {
                line: *line as nat,
                column: *column as nat,
                message: message@,
            },
            ParserError::UnexpectedToken(token) => ParserErrorModel::UnexpectedToken(token@),
            ParserError::ExpectedToken(token) => ParserErrorModel::ExpectedToken(token@),
            ParserError::ExpectedTokenGot(wanted, got) => ParserErrorModel::ExpectedTokenGot(
                wanted@,
                got@,
            ),
            ParserError::UnclosedSection(identifier) => ParserErrorModel::UnclosedSection(
                identifier@,
            ),
        }
    }
}

impl Clone for ParserError {
    fn clone(&self) -> (copy: ParserError)
        ensures
            copy@ == self@,
    {
        match self {
            ParserError::SyntaxError { line, column, message } => ParserError::SyntaxError {
                line: *line,
                column: *column,
                message: message.clone(),
            },
            ParserError::UnexpectedToken(token) => ParserError::UnexpectedToken(token.clone()),
            ParserError::ExpectedToken(token) => ParserError::ExpectedToken(token.clone()),
            ParserError::ExpectedTokenGot(wanted, got) => ParserError::ExpectedTokenGot(
                wanted.clone(),
                got.clone(),
            ),
            ParserError::UnclosedSection(identifier) => ParserError::UnclosedSection(
                identifier.clone(),
            ),
        }
    }
}

/// The value of a parse result.
pub open spec fn parse_result_model(result: Result<Vec<Node>, ParserError>) -> Result<
    Seq<NodeModel>,
    ParserErrorModel,
> {
    match result {
        Ok(nodes) => Ok(node_models(nodes@)),
        Err(error) => Err(error@),
    }
}

/// A parsed tag: the node it stands for, if any, and the number of tokens it
/// takes after its opening delimiter, its closing delimiter included.
pub ghost struct Tag {
    pub node: Option<NodeModel>,
    pub len: int,
}

/// The name of a tag: the identifier, whether `*` stood before it, and the
/// number of tokens it takes.
pub ghost struct Name {
    pub identifier: Seq<char>,
    pub dynamic: bool,
    pub len: int,
}

/// The tags that hold a body.
#[derive(Debug, Clone, Copy, PartialEq, Eq)]
pub enum Opener {
    Section,
    InvertedSection,
    Block,
    Parent,
}

/// The error for a token that had to stand at `at` and does not: the stream
/// ended, or the lexer's error stands there, or another token does.
pub open spec fn missing(tokens: Seq<TokenModel>, at: int, wanted: TokenModel) -> ParserErrorModel {
    if at < 0 || at >= tokens.len() {
        ParserErrorModel::ExpectedToken(wanted)
    } else {
        match tokens[at] {
            TokenModel::Error { line, column, message } => ParserErrorModel::SyntaxError {
                line,
                column,
                message,
            },
            got => ParserErrorModel::ExpectedTokenGot(wanted, got),
        }
    }
}

/// The identifier that has to stand at `at`.
pub open spec fn plain_name(tokens: Seq<TokenModel>, at: int) -> Result<Seq<char>, ParserErrorModel> {
    if 0 <= at < tokens.len() && tokens[at] is Identifier {
        Ok(tokens[at]->Identifier_0)
    } else {
        Err(missing(tokens, at, TokenModel::Identifier(Seq::empty())))
    }
}

/// The identifier that has to stand at `at`, with or without `*` before it.
pub open spec fn dynamic_name(tokens: Seq<TokenModel>, at: int) -> Result<Name, ParserErrorModel> {
    if 0 <= at < tokens.len() && tokens[at] is Dynamic {
        match plain_name(tokens, at + 1) {
            Ok(identifier) => Ok(Name { identifier, dynamic: true, len: name_len(true) }),
            Err(error) => Err(error),
        }
    } else {
        match plain_name(tokens, at) {
            Ok(identifier) => Ok(Name { identifier, dynamic: false, len: name_len(false) }),
            Err(error) => Err(error),
        }
    }
}

/// A tag whose last token before the closing delimiter stands at `at - 1`:
/// the closing delimiter has to stand at `at`.
pub open spec fn closed(tokens: Seq<TokenModel>, at: int, node: Option<NodeModel>) -> Result<
    Tag,
    ParserErrorModel,
> {
    if 0 <= at < tokens.len() && tokens[at] is CloseDelimiter {
        Ok(Tag { node, len: at + 1 })
    } else {
        Err(missing(tokens, at, TokenModel::CloseDelimiter))
    }
}

/// Whether the inside of a closing tag for `identifier` starts at `at`: the
/// `/` sigil, then the identifier, with or without `*` before it.
pub open spec fn closes_at(tokens: Seq<TokenModel>, at: int, identifier: Seq<char>) -> bool {
    &&& 0 <= at < tokens.len()
    &&& tokens[at] is SectionEnd
    &&& {
        ||| at + 1 < tokens.len() && tokens[at + 1] == TokenModel::Identifier(identifier)
        ||| at + 2 < tokens.len() && tokens[at + 1] is Dynamic && tokens[at + 2]
            == TokenModel::Identifier(identifier)
    }
}

/// The number of tokens of the closing tag's inside that starts at `at`.
pub open spec fn close_len(tokens: Seq<TokenModel>, at: int) -> int {
    if 0 <= at + 1 < tokens.len() && tokens[at + 1] is Dynamic {
        3
    } else {
        2
    }
}

/// The first index from `from` on at which a closing tag for `identifier`
/// starts, if one starts before the stream ends.
pub open spec fn find_close(tokens: Seq<TokenModel>, from: int, identifier: Seq<char>) -> Option<
    int,
>
    decreases tokens.len() - from,
{
    if from < 0 || from >= tokens.len() {
        None
    } else if tokens[from] is EOF {
        None
    } else if closes_at(tokens, from, identifier) {
        Some(from)
    } else {
        find_close(tokens, from + 1, identifier)
    }
}

/// The tokens of a body that starts at `start` and whose closing tag's inside
/// starts at `end`: the token before `end`, the closing tag's opening
/// delimiter, is left out.
pub open spec fn body_of(tokens: Seq<TokenModel>, start: int, end: int) -> Seq<TokenModel> {
    if 0 <= start < end <= tokens.len() {
        tokens.subrange(start, end - 1)
    } else {
        Seq::empty()
    }
}

/// The node of a tag that holds a body.
pub open spec fn body_node(opener: Opener, name: Name, children: Seq<NodeModel>) -> NodeModel {
    match opener {
        Opener::Section => NodeModel::Section {
            identifier: name.identifier,
            inverted: false,
            children,
        },
        Opener::InvertedSection => NodeModel::Section {
            identifier: name.identifier,
            inverted: true,
            children,
        },
        Opener::Block => NodeModel::Block { identifier: name.identifier, children },
        Opener::Parent => NodeModel::Parent {
            identifier: name.identifier,
            dynamic: name.dynamic,
            children,
        },
    }
}

/// `nodes` with `node` before them, where there is one.
pub open spec fn prepend(
    node: Option<NodeModel>,
    rest: Result<Seq<NodeModel>, ParserErrorModel>,
) -> Result<Seq<NodeModel>, ParserErrorModel> {
    match rest {
        Ok(nodes) => match node {
            Some(node) => Ok(seq![node] + nodes),
            None => Ok(nodes),
        },
        Err(error) => Err(error),
    }
}

/// What follows an item of `used + 1` tokens.
pub open spec fn after(tokens: Seq<TokenModel>, used: int) -> Seq<TokenModel> {
    if 0 <= used < tokens.len() {
        tokens.skip(used + 1)
    } else {
        Seq::empty()
    }
}

/// The items of a stream: the nodes up to the end of `tokens` or to its first
/// `EOF`, or the first error.
pub open spec fn parse_items(tokens: Seq<TokenModel>) -> Result<Seq<NodeModel>, ParserErrorModel>
    decreases tokens.len(), 2nat,
{
    if tokens.len() == 0 {
        Ok(Seq::empty())
    } else {
        match tokens[0] {
            TokenModel::EOF => Ok(Seq::empty()),
            TokenModel::Text(text) => prepend(
                Some(NodeModel::Text(text)),
                parse_items(tokens.skip(1)),
            ),
            TokenModel::Error { line, column, message } => Err(
                ParserErrorModel::SyntaxError { line, column, message },
            ),
            TokenModel::OpenDelimiter => match parse_tag(tokens.skip(1)) {
                Ok(tag) => prepend(tag.node, parse_items(after(tokens, tag.len))),
                Err(error) => Err(error),
            },
            other => Err(ParserErrorModel::UnexpectedToken(other)),
        }
    }
}

/// The tag whose tokens follow an opening delimiter.
pub open spec fn parse_tag(tokens: Seq<TokenModel>) -> Result<Tag, ParserErrorModel>
    decreases tokens.len(), 1nat,
{
    if tokens.len() == 0 {
        Err(ParserErrorModel::ExpectedToken(TokenModel::CloseDelimiter))
    } else {
        match tokens[0] {
            TokenModel::Error { line, column, message } => Err(
                ParserErrorModel::SyntaxError { line, column, message },
            ),
            TokenModel::Identifier(identifier) => closed(
                tokens,
                1,
                Some(NodeModel::Variable { identifier, escaped: true }),
            ),
            TokenModel::Raw => match plain_name(tokens, 1) {
                Ok(identifier) => closed(
                    tokens,
                    2,
                    Some(NodeModel::Variable { identifier, escaped: false }),
                ),
                Err(error) => Err(error),
            },
            TokenModel::Implicit => closed(tokens, 1, Some(NodeModel::Implicit)),
            TokenModel::Comment(body) => closed(tokens, 1, Some(NodeModel::Comment(body))),
            TokenModel::SetDelimiter => closed(tokens, 1, None),
            TokenModel::Partial => match dynamic_name(tokens, 1) {
                Ok(name) => closed(
                    tokens,
                    1 + name.len,
                    Some(
                        NodeModel::Partial { identifier: name.identifier, dynamic: name.dynamic },
                    ),
                ),
                Err(error) => Err(error),
            },
            TokenModel::Section => match plain_name(tokens, 1) {
                Ok(identifier) => parse_body(
                    tokens,
                    Opener::Section,
                    Name { identifier, dynamic: false, len: name_len(false) },
                ),
                Err(error) => Err(error),
            },
            TokenModel::InvertedSection => match plain_name(tokens, 1) {
                Ok(identifier) => parse_body(
                    tokens,
                    Opener::InvertedSection,
                    Name { identifier, dynamic: false, len: name_len(false) },
                ),
                Err(error) => Err(error),
            },
            TokenModel::Block => match plain_name(tokens, 1) {
                Ok(identifier) => parse_body(
                    tokens,
                    Opener::Block,
                    Name { identifier, dynamic: false, len: name_len(false) },
                ),
                Err(error) => Err(error),
            },
            TokenModel::Parent => match dynamic_name(tokens, 1) {
                Ok(name) => parse_body(tokens, Opener::Parent, name),
                Err(error) => Err(error),
            },
            other => Err(ParserErrorModel::UnexpectedToken(other)),
        }
    }
}

/// The rest of a tag that holds a body, after its sigil at index 0 and its
/// name: the closing delimiter, the body up to the first closing tag that
/// names the tag, parsed on its own, and that closing tag.
pub open spec fn parse_body(tokens: Seq<TokenModel>, opener: Opener, name: Name) -> Result<
    Tag,
    ParserErrorModel,
>
    decreases tokens.len(), 0nat,
{
    let at = 1 + name.len;
    if !(0 <= at < tokens.len() && tokens[at] is CloseDelimiter) {
        Err(missing(tokens, at, TokenModel::CloseDelimiter))
    } else {
        match find_close(tokens, at + 1, name.identifier) {
            None => Err(ParserErrorModel::UnclosedSection(name.identifier)),
            Some(end) => match parse_items(body_of(tokens, at + 1, end)) {
                Ok(children) => closed(
                    tokens,
                    end + close_len(tokens, end),
                    Some(body_node(opener, name, children)),
                ),
                Err(error) => Err(error),
            },
        }
    }
}

/// The number of tokens of a name: 2 with `*` before it, else 1.
pub open spec fn name_len(dynamic: bool) -> int {
    if dynamic {
        2
    } else {
        1
    }
}

/// `nodes` after `prefix`, or the error.
pub open spec fn extend(prefix: Seq<NodeModel>, rest: Result<Seq<NodeModel>, ParserErrorModel>) -> Result<
    Seq<NodeModel>,
    ParserErrorModel,
> {
    match rest {
        Ok(nodes) => Ok(prefix + nodes),
        Err(error) => Err(error),
    }
}

/// The value of an optional node.
pub open spec fn node_option_model(node: Option<Node>) -> Option<NodeModel> {
    match node {
        Some(node) => Some(node@),
        None => None,
    }
}

/// A closing tag that `find_close` reports starts inside the stream, at or
/// after the index the search began at.
pub proof fn lemma_find_close_bounds(tokens: Seq<TokenModel>, from: int, identifier: Seq<char>)
    requires
        0 <= from,
    ensures
        find_close(tokens, from, identifier) matches Some(end) ==> from <= end < tokens.len()
            && closes_at(tokens, end, identifier),
    decreases tokens.len() - from,
{
    if from < tokens.len() && !(tokens[from] is EOF) && !closes_at(tokens, from, identifier) {
        lemma_find_close_bounds(tokens, from + 1, identifier);
    }
}

/// A parser over a buffer of tokens.
pub struct Parser {
    buffer: VecDeque<Token>,
}

impl Parser {
    /// The tokens not yet read.
    pub closed spec fn remaining(&self) -> Seq<TokenModel> {
        token_models(self.buffer@)
    }

    /// A parser that reads `tokens` from the first on.
    pub fn new(tokens: Vec<Token>) -> (parser: Parser)
        ensures
            parser.remaining() == token_models(tokens@),
    {
        let mut tokens = tokens;
        let ghost all = tokens@;
        let mut buffer: VecDeque<Token> = VecDeque::new();
        while tokens.len() > 0
            invariant
                tokens@ + buffer@ == all,
            decreases tokens.len(),
        {
            let ghost before = tokens@;
            let ghost held = buffer@;
            let token = tokens.pop().unwrap();
            buffer.push_front(token);
            assert(tokens@ + buffer@ =~= before + held);
        }
        assert(buffer@ =~= all);
        Parser { buffer }
    }

    /// Takes the next token out of the buffer.
    pub fn next(&mut self) -> (token: Option<Token>)
        ensures
            old(self).remaining().len() == 0 ==> {
                &&& token is None
                &&& final(self).remaining() == old(self).remaining()
            },
            old(self).remaining().len() > 0 ==> {
                &&& token is Some
                &&& token.unwrap()@ == old(self).remaining()[0]
                &&& final(self).remaining() == old(self).remaining().skip(1)
            },
    {
        let token = self.buffer.pop_front();
        proof {
            if old(self).buffer@.len() > 0 {
                assert(token_models(self.buffer@) =~= token_models(old(self).buffer@).skip(1));
            }
        }
        token
    }

    /// Reads the items of the buffer into a tree.
    pub fn parse(&mut self) -> (result: Result<Vec<Node>, ParserError>)
        ensures
            parse_result_model(result) == parse_items(old(self).remaining()),
        decreases old(self).remaining().len(), 2nat,
    {
        let ghost all = self.remaining();
        let mut nodes: Vec<Node> = Vec::new();
        loop
            invariant
                all == old(self).remaining(),
                parse_items(all) == extend(node_models(nodes@), parse_items(self.remaining())),
                self.remaining().len() <= all.len(),
            decreases self.remaining().len(),
        {
            let ghost rest = self.remaining();
            let ghost done = node_models(nodes@);
            match self.next() {
                None => {
                    assert(done + Seq::<NodeModel>::empty() =~= done);
                    return Ok(nodes);
                },
                Some(token) => match token {
                    Token::EOF => {
                        assert(done + Seq::<NodeModel>::empty() =~= done);
                        return Ok(nodes);
                    },
                    Token::Text(text) => {
                        nodes.push(Node::Text(text));
                        proof {
                            let node = NodeModel::Text(text@);
                            assert(node_models(nodes@) =~= done + seq![node]);
                            lemma_extend_prepend(done, Some(node), parse_items(rest.skip(1)));
                        }
                    },
                    Token::Error { line, column, message } => {
                        return Err(ParserError::SyntaxError { line, column, message });
                    },
                    Token::OpenDelimiter => {
                        match self.tag() {
                            Err(error) => {
                                return Err(error);
                            },
                            Ok(node) => {
                                proof {
                                    let tag = parse_tag(rest.skip(1))->Ok_0;
                                    assert(self.remaining() =~= after(rest, tag.len));
                                    lemma_extend_prepend(
                                        done,
                                        tag.node,
                                        parse_items(after(rest, tag.len)),
                                    );
                                }
                                match node {
                                    Some(node) => {
                                        proof {
                                            assert(node_models(nodes@.push(node)) =~= done
                                                + seq![node@]);
                                        }
                                        nodes.push(node);
                                    },
                                    None => {
                                        proof {
                                            assert(done + Seq::<NodeModel>::empty() =~= done);
                                        }
                                    },
                                }
                            },
                        }
                    },
                    other => {
                        return Err(ParserError::UnexpectedToken(other));
                    },
                },
            }
        }
    }

    /// Reads the tag that follows an opening delimiter.
    fn tag(&mut self) -> (result: Result<Option<Node>, ParserError>)
        ensures
            match parse_tag(old(self).remaining()) {
                Ok(tag) => {
                    &&& result is Ok
                    &&& node_option_model(result->Ok_0) == tag.node
                    &&& 1 <= tag.len <= old(self).remaining().len()
                    &&& final(self).remaining() == old(self).remaining().skip(tag.len)
                },
                Err(error) => result is Err && result->Err_0@ == error,
            },
        decreases old(self).remaining().len(), 1nat,
    {
        let ghost all = self.remaining();
        match self.next() {
            None => Err(ParserError::ExpectedToken(Token::CloseDelimiter)),
            Some(token) => match token {
                Token::Error { line, column, message } => Err(
                    ParserError::SyntaxError { line, column, message },
                ),
                Token::Identifier(identifier) => self.close(
                    Some(Node::Variable { identifier, escaped: true }),
                    Ghost(all),
                    Ghost(1),
                ),
                Token::Raw => match self.identifier(Ghost(all), Ghost(1)) {
                    Ok(identifier) => self.close(
                        Some(Node::Variable { identifier, escaped: false }),
                        Ghost(all),
                        Ghost(2),
                    ),
                    Err(error) => Err(error),
                },
                Token::Implicit => self.close(Some(Node::Implicit), Ghost(all), Ghost(1)),
                Token::Comment(body) => self.close(Some(Node::Comment(body)), Ghost(all), Ghost(1)),
                Token::SetDelimiter => self.close(None, Ghost(all), Ghost(1)),
                Token::Partial => match self.name(Ghost(all), Ghost(1)) {
                    Ok((identifier, dynamic)) => self.close(
                        Some(Node::Partial { identifier, dynamic }),
                        Ghost(all),
                        Ghost(1 + name_len(dynamic)),
                    ),
                    Err(error) => Err(error),
                },
                Token::Section => match self.identifier(Ghost(all), Ghost(1)) {
                    Ok(identifier) => self.body(identifier, false, Opener::Section, Ghost(all)),
                    Err(error) => Err(error),
                },
                Token::InvertedSection => match self.identifier(Ghost(all), Ghost(1)) {
                    Ok(identifier) => self.body(
                        identifier,
                        false,
                        Opener::InvertedSection,
                        Ghost(all),
                    ),
                    Err(error) => Err(error),
                },
                Token::Block => match self.identifier(Ghost(all), Ghost(1)) {
                    Ok(identifier) => self.body(identifier, false, Opener::Block, Ghost(all)),
                    Err(error) => Err(error),
                },
                Token::Parent => match self.name(Ghost(all), Ghost(1)) {
                    Ok((identifier, dynamic)) => self.body(
                        identifier,
                        dynamic,
                        Opener::Parent,
                        Ghost(all),
                    ),
                    Err(error) => Err(error),
                },
                other => Err(ParserError::UnexpectedToken(other)),
            },
        }
    }

    /// Reads the closing delimiter that has to stand at `at` of `all`.
    fn expect_close(&mut self, Ghost(all): Ghost<Seq<TokenModel>>, Ghost(at): Ghost<int>) -> (result:
        Result<(), ParserError>)
        requires
            0 <= at <= all.len(),
            old(self).remaining() == all.skip(at),
        ensures
            at < all.len() && all[at] is CloseDelimiter ==> {
                &&& result is Ok
                &&& final(self).remaining() == all.skip(at + 1)
            },
            !(at < all.len() && all[at] is CloseDelimiter) ==> {
                &&& result is Err
                &&& result->Err_0@ == missing(all, at, TokenModel::CloseDelimiter)
            },
    {
        match self.next() {
            None => Err(ParserError::ExpectedToken(Token::CloseDelimiter)),
            Some(token) => match token {
                Token::CloseDelimiter => {
                    assert(all.skip(at).skip(1) =~= all.skip(at + 1));
                    Ok(())
                },
                Token::Error { line, column, message } => Err(
                    ParserError::SyntaxError { line, column, message },
                ),
                got => Err(ParserError::ExpectedTokenGot(Token::CloseDelimiter, got)),
            },
        }
    }

    /// Ends a tag: reads its closing delimiter and hands out its node.
    fn close(
        &mut self,
        node: Option<Node>,
        Ghost(all): Ghost<Seq<TokenModel>>,
        Ghost(at): Ghost<int>,
    ) -> (result: Result<Option<Node>, ParserError>)
        requires
            0 <= at <= all.len(),
            old(self).remaining() == all.skip(at),
        ensures
            match closed(all, at, node_option_model(node)) {
                Ok(tag) => {
                    &&& result is Ok
                    &&& node_option_model(result->Ok_0) == tag.node
                    &&& 1 <= tag.len <= all.len()
                    &&& final(self).remaining() == all.skip(tag.len)
                },
                Err(error) => result is Err && result->Err_0@ == error,
            },
    {
        match self.expect_close(Ghost(all), Ghost(at)) {
            Ok(()) => Ok(node),
            Err(error) => Err(error),
        }
    }

    /// Reads the identifier that has to stand at `at` of `all`.
    fn identifier(&mut self, Ghost(all): Ghost<Seq<TokenModel>>, Ghost(at): Ghost<int>) -> (result:
        Result<String, ParserError>)
        requires
            0 <= at <= all.len(),
            old(self).remaining() == all.skip(at),
        ensures
            match plain_name(all, at) {
                Ok(identifier) => {
                    &&& result is Ok
                    &&& result->Ok_0@ == identifier
                    &&& at < all.len()
                    &&& final(self).remaining() == all.skip(at + 1)
                },
                Err(error) => result is Err && result->Err_0@ == error,
            },
    {
        match self.next() {
            None => Err(ParserError::ExpectedToken(Token::Identifier(String::new()))),
            Some(token) => match token {
                Token::Identifier(identifier) => {
                    assert(all.skip(at).skip(1) =~= all.skip(at + 1));
                    Ok(identifier)
                },
                Token::Error { line, column, message } => Err(
                    ParserError::SyntaxError { line, column, message },
                ),
                got => Err(ParserError::ExpectedTokenGot(Token::Identifier(String::new()), got)),
            },
        }
    }

    /// Reads the identifier that has to stand at `at` of `all`, with or
    /// without `*` before it.
    fn name(&mut self, Ghost(all): Ghost<Seq<TokenModel>>, Ghost(at): Ghost<int>) -> (result: Result<
        (String, bool),
        ParserError,
    >)
        requires
            0 <= at <= all.len(),
            old(self).remaining() == all.skip(at),
        ensures
            match dynamic_name(all, at) {
                Ok(name) => {
                    &&& result is Ok
                    &&& result->Ok_0.0@ == name.identifier
                    &&& result->Ok_0.1 == name.dynamic
                    &&& at + name.len <= all.len()
                    &&& final(self).remaining() == all.skip(at + name.len)
                },
                Err(error) => result is Err && result->Err_0@ == error,
            },
    {
        match self.next() {
            None => Err(ParserError::ExpectedToken(Token::Identifier(String::new()))),
            Some(token) => match token {
                Token::Dynamic => {
                    assert(all.skip(at).skip(1) =~= all.skip(at + 1));
                    match self.identifier(Ghost(all), Ghost(at + 1)) {
                        Ok(identifier) => Ok((identifier, true)),
                        Err(error) => Err(error),
                    }
                },
                Token::Identifier(identifier) => {
                    assert(all.skip(at).skip(1) =~= all.skip(at + 1));
                    Ok((identifier, false))
                },
                Token::Error { line, column, message } => Err(
                    ParserError::SyntaxError { line, column, message },
                ),
                got => Err(ParserError::ExpectedTokenGot(Token::Identifier(String::new()), got)),
            },
        }
    }

    /// Reads the rest of a tag that holds a body, after its name: the closing
    /// delimiter, the body, which is parsed on its own, and the closing tag.
    fn body(
        &mut self,
        identifier: String,
        dynamic: bool,
        opener: Opener,
        Ghost(all): Ghost<Seq<TokenModel>>,
    ) -> (result: Result<Option<Node>, ParserError>)
        requires
            1 + name_len(dynamic) <= all.len(),
            old(self).remaining() == all.skip(1 + name_len(dynamic)),
        ensures
            match parse_body(
                all,
                opener,
                Name { identifier: identifier@, dynamic, len: name_len(dynamic) },
            ) {
                Ok(tag) => {
                    &&& result is Ok
                    &&& node_option_model(result->Ok_0) == tag.node
                    &&& 1 <= tag.len <= all.len()
                    &&& final(self).remaining() == all.skip(tag.len)
                },
                Err(error) => result is Err && result->Err_0@ == error,
            },
        decreases all.len(), 0nat,
    {
        let ghost name = Name { identifier: identifier@, dynamic, len: name_len(dynamic) };
        let ghost at = 1 + name.len;
        match self.expect_close(Ghost(all), Ghost(at)) {
            Err(error) => {
                return Err(error);
            },
            Ok(()) => {},
        }
        match self.section_tokens(&identifier, Ghost(all), Ghost(at + 1)) {
            None => Err(ParserError::UnclosedSection(identifier)),
            Some(tokens) => {
                let ghost end = find_close(all, at + 1, identifier@)->Some_0;
                proof {
                    lemma_find_close_bounds(all, at + 1, identifier@);
                }
                let mut inner = Parser::new(tokens);
                match inner.parse() {
                    Err(error) => Err(error),
                    Ok(children) => {
                        let node = match opener {
                            Opener::Section => Node::Section {
                                identifier,
                                inverted: false,
                                children,
                            },
                            Opener::InvertedSection => Node::Section {
                                identifier,
                                inverted: true,
                                children,
                            },
                            Opener::Block => Node::Block { identifier, children },
                            Opener::Parent => Node::Parent { identifier, dynamic, children },
                        };
                        proof {
                            lemma_children_models(node);
                        }
                        self.close(Some(node), Ghost(all), Ghost(end + close_len(all, end)))
                    },
                }
            },
        }
    }

    /// Takes the tokens of a body out of the buffer, up to the closing tag
    /// that names `identifier`, and that closing tag's inside with them.
    /// The body is handed out without the closing tag's opening delimiter.
    fn section_tokens(
        &mut self,
        identifier: &String,
        Ghost(all): Ghost<Seq<TokenModel>>,
        Ghost(start): Ghost<int>,
    ) -> (result: Option<Vec<Token>>)
        requires
            0 <= start <= all.len(),
            old(self).remaining() == all.skip(start),
        ensures
            match find_close(all, start, identifier@) {
                Some(end) => {
                    &&& result is Some
                    &&& token_models(result->Some_0@) == body_of(all, start, end)
                    &&& final(self).remaining() == all.skip(end + close_len(all, end))
                },
                None => result is None,
            },
    {
        let mut tokens: Vec<Token> = Vec::new();
        loop
            invariant
                0 <= start <= start + tokens@.len() <= all.len(),
                self.remaining() == all.skip(start + tokens@.len()),
                token_models(tokens@) == all.subrange(start, start + tokens@.len()),
                find_close(all, start, identifier@) == find_close(
                    all,
                    start + tokens@.len(),
                    identifier@,
                ),
            decreases all.len() - tokens@.len(),
        {
            let ghost at = start + tokens@.len();
            let ghost rest = self.buffer@;
            assert(rest.len() == all.len() - at) by {
                assert(token_models(rest).len() == all.skip(at).len());
            }
            assert forall|i: int| 0 <= i < rest.len() implies #[trigger] rest[i]@ == all[at
                + i] by {
                assert(token_models(rest)[i] == all.skip(at)[i]);
            }
            if self.buffer.len() == 0 {
                return None;
            }
            let stop = match &self.buffer[0] {
                Token::EOF => true,
                _ => false,
            };
            if stop {
                assert(rest[0]@ == all[at]);
                return None;
            }
            let length = self.closing(identifier);
            if length > 0 {
                let mut taken: usize = 0;
                while taken < length
                    invariant
                        taken <= length <= rest.len(),
                        self.buffer@ == rest.skip(taken as int),
                    decreases length - taken,
                {
                    let ghost held = self.buffer@;
                    let _ = self.buffer.pop_front();
                    taken = taken + 1;
                    assert(self.buffer@ =~= rest.skip(taken as int));
                }
                let ghost scanned = tokens@;
                let _ = tokens.pop();
                proof {
                    assert(token_models(self.buffer@) =~= all.skip(at + length));
                    if scanned.len() > 0 {
                        assert(token_models(tokens@) =~= all.subrange(start, at - 1));
                    } else {
                        assert(token_models(tokens@) =~= Seq::<TokenModel>::empty());
                    }
                }
                return Some(tokens);
            }
            let ghost scanned = tokens@;
            match self.buffer.pop_front() {
                Some(token) => {
                    tokens.push(token);
                },
                None => {},
            }
            proof {
                assert(token_models(self.buffer@) =~= all.skip(at + 1));
                assert(token_models(tokens@) =~= all.subrange(start, at + 1));
            }
        }
    }

    /// The number of tokens of the closing tag's inside for `identifier` at
    /// the front of the buffer: 2 or 3, or 0 where none stands there.
    fn closing(&self, identifier: &String) -> (length: usize)
        ensures
            closes_at(self.remaining(), 0, identifier@) ==> length == close_len(
                self.remaining(),
                0,
            ),
            !closes_at(self.remaining(), 0, identifier@) ==> length == 0,
            length <= self.remaining().len(),
    {
        let ghost rest = self.buffer@;
        assert(forall|i: int| 0 <= i < rest.len() ==> #[trigger] token_models(rest)[i] == rest[i]@);
        if self.buffer.len() < 2 {
            return 0;
        }
        let ends = match &self.buffer[0] {
            Token::SectionEnd => true,
            _ => false,
        };
        if !ends {
            return 0;
        }
        match &self.buffer[1] {
            Token::Identifier(name) => {
                if *name == *identifier {
                    assert(rest[1]@ == TokenModel::Identifier(identifier@));
                    2
                } else {
                    0
                }
            },
            Token::Dynamic => {
                if self.buffer.len() < 3 {
                    return 0;
                }
                match &self.buffer[2] {
                    Token::Identifier(name) => {
                        if *name == *identifier {
                            assert(rest[2]@ == TokenModel::Identifier(identifier@));
                            3
                        } else {
                            0
                        }
                    },
                    _ => 0,
                }
            },
            _ => 0,
        }
    }
}

/// Putting a node before the rest and then the nodes read so far before both
/// is putting the rest after the nodes read so far and the node.
pub proof fn lemma_extend_prepend(
    done: Seq<NodeModel>,
    node: Option<NodeModel>,
    rest: Result<Seq<NodeModel>, ParserErrorModel>,
)
    ensures
        extend(done, prepend(node, rest)) == extend(
            match node {
                Some(node) => done + seq![node],
                None => done,
            },
            rest,
        ),
{
    match rest {
        Ok(nodes) => match node {
            Some(node) => {
                assert(done + (seq![node] + nodes) =~= (done + seq![node]) + nodes);
            },
            None => {},
        },
        Err(_) => {},
    }
}

/// The tree of a token stream, or why it has none.
pub open spec fn parse_spec(tokens: Seq<TokenModel>) -> Result<Seq<NodeModel>, ParserErrorModel> {
    parse_items(tokens)
}

/// Parses a token stream into the top-level nodes of its template.
pub fn parse(tokens: Vec<Token>) -> (result: Result<Vec<Node>, ParserError>)
    ensures
        parse_result_model(result) == parse_spec(token_models(tokens@)),
{
    let mut parser = Parser::new(tokens);
    parser.parse()
}

} // verus!
