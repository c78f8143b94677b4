//! The lexer: from template text to tokens.
//!
//! The lexer is a machine of nine states. Each step reads characters, adds
//! tokens to the stream and names the state that follows, until `EOF` or an
//! error ends the stream. The delimiters of a tag are `{{` and `}}` until a
//! tag `{{=<% %>=}}` sets others.
use vstd::prelude::*;
use crate::text::{
    alphanumeric, char_range, char_string, chars_of, is_alphanumeric, slice_chars,
};
pub use crate::token::Token;
use crate::token::{TokenModel, token_models};

verus! {

/// Why template text has no tokens.
#[derive(Debug, Clone, Copy, PartialEq, Eq)]
pub enum LexerError {
    /// A line ended inside a tag.
    UnclosedDelimiter,
    /// The text ended inside a tag.
    UnexpectedEOF,
    /// This character cannot stand where it stands.
    UnexpectedCharacter(char),
}

/// The states of the lexer.
#[derive(Debug, Clone, Copy, PartialEq, Eq)]
pub enum State {
    /// Outside a tag.
    Text,
    /// At an opening delimiter.
    OpenDelimiter,
    /// Behind an opening delimiter.
    InsideDelimiter,
    /// Before the name of a tag.
    Identifier,
    /// Before the name of a tag that began with `{`.
    RawIdentifier,
    /// Behind the `!` of a comment.
    Comment,
    /// Before a closing delimiter.
    CloseDelimiter,
    /// Before the closing delimiter of a tag that began with `{`.
    CloseRawDelimiter,
    /// Behind the `=` of a delimiter change.
    NewDelimiter,
}

/// The classes of characters that the lexer reads in runs.
#[derive(Debug, Clone, Copy, PartialEq, Eq)]
pub enum CharClass {
    /// The space.
    Space,
    /// What a name is made of: `A-Z`, `a-z`, `0-9`, `.`, `?` and `_`.
    Identifier,
    /// What a delimiter can be set to: `<`, `>`, `%`, `(`, `)` and `@`.
    Delimiter,
}

/// Whether `c` belongs to `class`.
pub open spec fn in_class(class: CharClass, c: char) -> bool {
    match class {
        CharClass::Space => c == ' ',
        CharClass::Identifier => ('a' <= c <= 'z') || ('A' <= c <= 'Z') || ('0' <= c <= '9') || c
            == '.' || c == '?' || c == '_',
        CharClass::Delimiter => c == '<' || c == '>' || c == '%' || c == '(' || c == ')' || c
            == '@',
    }
}

/// The message of an error.
pub open spec fn message_of(error: LexerError) -> Seq<char> {
    match error {
        LexerError::UnclosedDelimiter => "unclosed delimiter"@,
        LexerError::UnexpectedEOF => "unexpected end of file"@,
        LexerError::UnexpectedCharacter(c) => "unexpected character: "@ + seq![c],
    }
}

/// The state of a lexer: the text, the start of the token being read, the
/// index of the next character, the delimiters in force and the tokens of
/// the stream so far.
pub ghost struct LexerModel {
    pub input: Seq<char>,
    pub start: int,
    pub position: int,
    pub open: Seq<char>,
    pub close: Seq<char>,
    pub tokens: Seq<TokenModel>,
}

/// What a step gives: the state that follows, if the stream has not ended,
/// and the lexer after the step.
pub ghost struct Step {
    pub next: Option<State>,
    pub lexer: LexerModel,
}

impl LexerModel {
    /// A lexer at the start of `input`, with the delimiters `{{` and `}}`.
    pub open spec fn initial(input: Seq<char>) -> LexerModel {
        LexerModel {
            input,
            start: 0,
            position: 0,
            open: seq!['{', '{'],
            close: seq!['}', '}'],
            tokens: Seq::empty(),
        }
    }

    /// The indices lie in the text, one behind the other, and the opening
    /// delimiter is not empty.
    pub open spec fn wf(self) -> bool {
        &&& 0 <= self.start <= self.position <= self.input.len()
        &&& self.open.len() > 0
    }

    /// The closing delimiter of a tag that began with `{`.
    pub open spec fn raw_close(self) -> Seq<char> {
        seq!['}'] + self.close
    }

    /// The characters of the token being read.
    pub open spec fn current(self) -> Seq<char> {
        char_range(self.input, self.start, self.position)
    }

    /// The lexer at index `position`.
    pub open spec fn at(self, position: int) -> LexerModel {
        LexerModel { position, ..self }
    }

    /// The lexer with the token being read dropped.
    pub open spec fn ignore(self) -> LexerModel {
        LexerModel { start: self.position, ..self }
    }

    /// The lexer with `token` added to the stream; the next token starts at
    /// the next character.
    pub open spec fn emit(self, token: TokenModel) -> LexerModel {
        LexerModel { tokens: self.tokens.push(token), start: self.position, ..self }
    }

    /// The lexer with the token being read added as text, where it is not
    /// empty.
    pub open spec fn flush(self) -> LexerModel {
        if self.position > self.start {
            self.emit(TokenModel::Text(self.current()))
        } else {
            self
        }
    }

    /// The lexer with the report of `error` at index `at` added to the
    /// stream.
    pub open spec fn error(self, error: LexerError, at: int) -> LexerModel {
        LexerModel {
            tokens: self.tokens.push(
                TokenModel::Error {
                    line: saturate(line_at(self.input, at)),
                    column: saturate(column_at(self.input, at)),
                    message: message_of(error),
                },
            ),
            ..self
        }
    }

    /// The end of the stream on what stands at the next character and
    /// cannot: the character is read and reported, or the end of the text
    /// is.
    pub open spec fn fail(self) -> Step {
        if 0 <= self.position < self.input.len() {
            Step {
                next: None,
                lexer: self.at(self.position + 1).error(
                    LexerError::UnexpectedCharacter(self.input[self.position]),
                    self.position,
                ),
            }
        } else {
            Step { next: None, lexer: self.error(LexerError::UnexpectedEOF, self.position) }
        }
    }
}

/// `n`, or the largest `usize` where `n` is larger.
pub open spec fn saturate(n: nat) -> nat {
    if n > usize::MAX {
        usize::MAX as nat
    } else {
        n
    }
}

/// The line of the character at index `at`, counted from 1: one more than
/// the number of line feeds before it.
pub open spec fn line_at(input: Seq<char>, at: int) -> nat
    decreases at,
{
    if at <= 0 {
        1
    } else if at - 1 < input.len() && input[at - 1] == '\n' {
        line_at(input, at - 1) + 1
    } else {
        line_at(input, at - 1)
    }
}

/// The column of the character at index `at`, counted from 1: one more than
/// the number of characters between it and the line feed before it.
pub open spec fn column_at(input: Seq<char>, at: int) -> nat
    decreases at,
{
    if at <= 0 {
        1
    } else if at - 1 < input.len() && input[at - 1] == '\n' {
        1
    } else {
        column_at(input, at - 1) + 1
    }
}

/// Whether `pattern` stands in `input` at index `at`.
pub open spec fn matches_at(input: Seq<char>, at: int, pattern: Seq<char>) -> bool {
    &&& 0 <= at
    &&& at + pattern.len() <= input.len()
    &&& input.subrange(at, at + pattern.len()) == pattern
}

/// The first index from `from` on at which `pattern` stands in `input`.
pub open spec fn find_from(input: Seq<char>, from: int, pattern: Seq<char>) -> Option<int>
    decreases input.len() - from,
{
    if from < 0 || from > input.len() {
        None
    } else if matches_at(input, from, pattern) {
        Some(from)
    } else if from >= input.len() {
        None
    } else {
        find_from(input, from + 1, pattern)
    }
}

/// The index behind the run of characters of `class` that starts at `from`.
pub open spec fn run_end(input: Seq<char>, from: int, class: CharClass) -> int
    decreases input.len() - from,
{
    if from < 0 || from >= input.len() || !in_class(class, input[from]) {
        from
    } else {
        run_end(input, from + 1, class)
    }
}

/// What the character behind an opening delimiter begins.
#[derive(Debug, PartialEq, Eq)]
pub enum TagStart {
    /// A tag with a sigil: the token of the sigil, and the state that reads
    /// what follows it.
    Sigil(Token, State),
    /// A comment.
    Comment,
    /// The name of a variable, of which the character is the first.
    Name,
    /// Nothing: the line ended.
    Unclosed,
    /// Nothing: the character cannot stand there.
    Unexpected,
}

/// The value of a [`TagStart`].
pub ghost enum TagStartModel {
    Sigil(TokenModel, State),
    Comment,
    Name,
    Unclosed,
    Unexpected,
}

impl View for TagStart {
    type V = TagStartModel;

    open spec fn view(&self) -> TagStartModel {
        match self {
            TagStart::Sigil(token, state) => TagStartModel::Sigil(token@, *state),
            TagStart::Comment => TagStartModel::Comment,
            TagStart::Name => TagStartModel::Name,
            TagStart::Unclosed => TagStartModel::Unclosed,
            TagStart::Unexpected => TagStartModel::Unexpected,
        }
    }
}

/// What the character `c` behind an opening delimiter begins, where
/// `alphanumeric` says whether `c` is a letter or a number.
pub open spec fn tag_start_spec(c: char, alphanumeric: bool) -> TagStartModel {
    if c == '#' {
        TagStartModel::Sigil(TokenModel::Section, State::Identifier)
    } else if c == '^' {
        TagStartModel::Sigil(TokenModel::InvertedSection, State::Identifier)
    } else if c == '/' {
        TagStartModel::Sigil(TokenModel::SectionEnd, State::Identifier)
    } else if c == '$' {
        TagStartModel::Sigil(TokenModel::Block, State::Identifier)
    } else if c == '<' {
        TagStartModel::Sigil(TokenModel::Parent, State::Identifier)
    } else if c == '>' {
        TagStartModel::Sigil(TokenModel::Partial, State::Identifier)
    } else if c == '&' {
        TagStartModel::Sigil(TokenModel::Raw, State::Identifier)
    } else if c == '{' {
        TagStartModel::Sigil(TokenModel::Raw, State::RawIdentifier)
    } else if c == '.' {
        TagStartModel::Sigil(TokenModel::Implicit, State::CloseDelimiter)
    } else if c == '=' {
        TagStartModel::Sigil(TokenModel::SetDelimiter, State::NewDelimiter)
    } else if c == '!' {
        TagStartModel::Comment
    } else if c == '\n' {
        TagStartModel::Unclosed
    } else if alphanumeric {
        TagStartModel::Name
    } else {
        TagStartModel::Unexpected
    }
}

/// Outside a tag: the text up to the next opening delimiter is one token;
/// at the end of the text the stream ends with `EOF`.
pub open spec fn text_step(lexer: LexerModel) -> Step {
    match find_from(lexer.input, lexer.position, lexer.open) {
        Some(at) => Step { next: Some(State::OpenDelimiter), lexer: lexer.at(at).flush() },
        None => Step {
            next: None,
            lexer: lexer.at(lexer.input.len() as int).flush().emit(TokenModel::EOF),
        },
    }
}

/// At an opening delimiter: it is read, as far as the text goes.
pub open spec fn open_step(lexer: LexerModel) -> Step {
    let end = lexer.position + lexer.open.len();
    let after = if end <= lexer.input.len() {
        end
    } else {
        lexer.input.len() as int
    };
    Step {
        next: Some(State::InsideDelimiter),
        lexer: lexer.at(after).emit(TokenModel::OpenDelimiter),
    }
}

/// Behind an opening delimiter: one character says what the tag is.
pub open spec fn inside_step(lexer: LexerModel) -> Step {
    if !(0 <= lexer.position < lexer.input.len()) {
        Step { next: None, lexer: lexer.error(LexerError::UnexpectedEOF, lexer.position) }
    } else {
        let c = lexer.input[lexer.position];
        let read = lexer.at(lexer.position + 1);
        match tag_start_spec(c, is_alphanumeric(c)) {
            TagStartModel::Sigil(token, state) => Step { next: Some(state), lexer: read.emit(token) },
            TagStartModel::Comment => Step { next: Some(State::Comment), lexer: read },
            TagStartModel::Name => Step { next: Some(State::Identifier), lexer },
            TagStartModel::Unclosed => Step {
                next: None,
                lexer: read.error(LexerError::UnclosedDelimiter, lexer.position),
            },
            TagStartModel::Unexpected => Step {
                next: None,
                lexer: read.error(LexerError::UnexpectedCharacter(c), lexer.position),
            },
        }
    }
}

/// The lexer behind the spaces at the next character, which belong to no
/// token.
pub open spec fn skip_spaces(lexer: LexerModel) -> LexerModel {
    lexer.at(run_end(lexer.input, lexer.position, CharClass::Space)).ignore()
}

/// The lexer behind the run of characters of `class` at the next character.
pub open spec fn take_run(lexer: LexerModel, class: CharClass) -> LexerModel {
    lexer.at(run_end(lexer.input, lexer.position, class))
}

/// Whether `c` is the next character.
pub open spec fn next_is(lexer: LexerModel, c: char) -> bool {
    0 <= lexer.position < lexer.input.len() && lexer.input[lexer.position] == c
}

/// Before the name of a tag: spaces, then `*` where the name is dynamic,
/// then the name, which may be empty.
pub open spec fn identifier_step(lexer: LexerModel) -> Step {
    let spaced = skip_spaces(lexer);
    let marked = if next_is(spaced, '*') {
        spaced.at(spaced.position + 1).emit(TokenModel::Dynamic)
    } else {
        spaced
    };
    let named = take_run(marked, CharClass::Identifier);
    Step {
        next: Some(State::CloseDelimiter),
        lexer: named.emit(TokenModel::Identifier(named.current())),
    }
}

/// Before the name of a tag that began with `{`: spaces, then the name.
pub open spec fn raw_identifier_step(lexer: LexerModel) -> Step {
    let named = take_run(skip_spaces(lexer), CharClass::Identifier);
    Step {
        next: Some(State::CloseRawDelimiter),
        lexer: named.emit(TokenModel::Identifier(named.current())),
    }
}

/// Behind the `!` of a comment: the text up to the next closing delimiter is
/// the comment.
pub open spec fn comment_step(lexer: LexerModel) -> Step {
    let begun = lexer.ignore();
    match find_from(lexer.input, lexer.position, lexer.close) {
        Some(at) => {
            let body = begun.at(at);
            let commented = body.emit(TokenModel::Comment(body.current()));
            Step {
                next: Some(State::Text),
                lexer: commented.at(at + lexer.close.len()).emit(TokenModel::CloseDelimiter),
            }
        },
        None => Step {
            next: None,
            lexer: begun.at(lexer.input.len() as int).error(
                LexerError::UnexpectedEOF,
                lexer.input.len() as int,
            ),
        },
    }
}

/// Before the closing delimiter `pattern`: spaces, then the delimiter.
pub open spec fn close_step(lexer: LexerModel, pattern: Seq<char>) -> Step {
    let spaced = skip_spaces(lexer);
    if matches_at(spaced.input, spaced.position, pattern) {
        Step {
            next: Some(State::Text),
            lexer: spaced.at(spaced.position + pattern.len()).emit(TokenModel::CloseDelimiter),
        }
    } else {
        spaced.fail()
    }
}

/// Behind the `=` of a delimiter change: spaces, the new opening delimiter,
/// one space and more spaces, the new closing delimiter, `=` and the
/// closing delimiter in force. From the next step on the new ones are in
/// force.
pub open spec fn new_delimiter_step(lexer: LexerModel) -> Step {
    let first = skip_spaces(lexer);
    let opened = take_run(first, CharClass::Delimiter);
    if !next_is(opened, ' ') {
        opened.ignore().fail()
    } else {
        let second = skip_spaces(opened.at(opened.position + 1));
        let closed = take_run(second, CharClass::Delimiter);
        if !next_is(closed, '=') {
            closed.ignore().fail()
        } else {
            let last = closed.at(closed.position + 1).ignore();
            if matches_at(last.input, last.position, lexer.close) {
                let done = last.at(last.position + lexer.close.len()).emit(
                    TokenModel::CloseDelimiter,
                );
                Step {
                    next: Some(State::Text),
                    lexer: LexerModel { open: opened.current(), close: closed.current(), ..done },
                }
            } else {
                last.fail()
            }
        }
    }
}

/// One step of the lexer in `state`.
pub open spec fn step_spec(state: State, lexer: LexerModel) -> Step {
    match state {
        State::Text => text_step(lexer),
        State::OpenDelimiter => open_step(lexer),
        State::InsideDelimiter => inside_step(lexer),
        State::Identifier => identifier_step(lexer),
        State::RawIdentifier => raw_identifier_step(lexer),
        State::Comment => comment_step(lexer),
        State::CloseDelimiter => close_step(lexer, lexer.close),
        State::CloseRawDelimiter => close_step(lexer, lexer.raw_close()),
        State::NewDelimiter => new_delimiter_step(lexer),
    }
}

} // verus!

verus! {

/// The order of the states in one round of the machine: a step that reads
/// nothing leads to a state of lower rank.
pub open spec fn rank(state: State) -> nat {
    match state {
        State::OpenDelimiter => 7,
        State::InsideDelimiter => 6,
        State::Identifier => 5,
        State::RawIdentifier => 5,
        State::Comment => 5,
        State::NewDelimiter => 5,
        State::CloseDelimiter => 4,
        State::CloseRawDelimiter => 4,
        State::Text => 0,
    }
}

/// A bound on the steps that are left: the characters not yet read count
/// eight each, the state counts its rank. At an opening delimiter the
/// delimiter counts as read.
pub open spec fn measure(state: State, lexer: LexerModel) -> nat {
    let read = match state {
        State::OpenDelimiter => open_step(lexer).lexer.position,
        _ => lexer.position,
    };
    if read <= lexer.input.len() {
        ((lexer.input.len() - read) * 8 + rank(state)) as nat
    } else {
        rank(state)
    }
}

/// Where `find_from` finds the pattern, it stands there, at or behind the
/// index the search began at and before every later place where it stands.
pub proof fn lemma_find_from(input: Seq<char>, from: int, pattern: Seq<char>)
    requires
        0 <= from <= input.len(),
    ensures
        match find_from(input, from, pattern) {
            Some(at) => from <= at <= input.len() && matches_at(input, at, pattern) && forall|
                i: int,
            |
                from <= i < at ==> !matches_at(input, i, pattern),
            None => forall|i: int| from <= i ==> !matches_at(input, i, pattern),
        },
    decreases input.len() - from,
{
    if !matches_at(input, from, pattern) && from < input.len() {
        lemma_find_from(input, from + 1, pattern);
    }
}

/// A run ends in the text, at or behind the index it began at; it holds
/// characters of its class only, and the character behind it is none.
pub proof fn lemma_run_end(input: Seq<char>, from: int, class: CharClass)
    requires
        0 <= from <= input.len(),
    ensures
        from <= run_end(input, from, class) <= input.len(),
        forall|i: int| from <= i < run_end(input, from, class) ==> in_class(class, input[i]),
        run_end(input, from, class) < input.len() ==> !in_class(
            class,
            input[run_end(input, from, class)],
        ),
    decreases input.len() - from,
{
    if from < input.len() && in_class(class, input[from]) {
        lemma_run_end(input, from + 1, class);
    }
}

/// A step of a well-formed lexer gives a well-formed lexer on the same
/// text, adds to the stream without changing what was in it, and leaves
/// fewer steps to take.
pub proof fn lemma_step(state: State, lexer: LexerModel)
    requires
        lexer.wf(),
    ensures
        step_spec(state, lexer).lexer.wf(),
        step_spec(state, lexer).lexer.input == lexer.input,
        step_spec(state, lexer).lexer.position >= lexer.position,
        step_spec(state, lexer).next matches Some(next) ==> measure(
            next,
            step_spec(state, lexer).lexer,
        ) < measure(state, lexer),
{
    let input = lexer.input;
    let step = step_spec(state, lexer);
    match state {
        State::Text => {
            lemma_find_from(input, lexer.position, lexer.open);
        },
        State::OpenDelimiter => {},
        State::InsideDelimiter => {},
        State::Identifier => {
            lemma_run_end(input, lexer.position, CharClass::Space);
            let spaced = skip_spaces(lexer);
            let marked = if next_is(spaced, '*') {
                spaced.at(spaced.position + 1).emit(TokenModel::Dynamic)
            } else {
                spaced
            };
            lemma_run_end(input, marked.position, CharClass::Identifier);
        },
        State::RawIdentifier => {
            lemma_run_end(input, lexer.position, CharClass::Space);
            lemma_run_end(input, skip_spaces(lexer).position, CharClass::Identifier);
        },
        State::Comment => {
            lemma_find_from(input, lexer.position, lexer.close);
        },
        State::CloseDelimiter => {
            lemma_run_end(input, lexer.position, CharClass::Space);
        },
        State::CloseRawDelimiter => {
            lemma_run_end(input, lexer.position, CharClass::Space);
        },
        State::NewDelimiter => {
            lemma_run_end(input, lexer.position, CharClass::Space);
            let first = skip_spaces(lexer);
            lemma_run_end(input, first.position, CharClass::Delimiter);
            let opened = take_run(first, CharClass::Delimiter);
            if next_is(opened, ' ') {
                lemma_run_end(input, opened.position + 1, CharClass::Space);
                let second = skip_spaces(opened.at(opened.position + 1));
                lemma_run_end(input, second.position, CharClass::Delimiter);
            }
        },
    }
}

/// The stream that the lexer gives from `state` on.
pub open spec fn lex_run(state: State, lexer: LexerModel) -> Seq<TokenModel>
    decreases measure(state, lexer),
    when lexer.wf()
    via lex_run_decreases
{
    let step = step_spec(state, lexer);
    match step.next {
        Some(next) => lex_run(next, step.lexer),
        None => step.lexer.tokens,
    }
}

#[via_fn]
proof fn lex_run_decreases(state: State, lexer: LexerModel) {
    lemma_step(state, lexer);
}

/// The tokens of a template.
pub open spec fn lex_spec(input: Seq<char>) -> Seq<TokenModel> {
    lex_run(State::Text, LexerModel::initial(input))
}

} // verus!

verus! {

impl LexerError {
    /// The message of this error.
    pub fn message(&self) -> (text: String)
        ensures
            text@ == message_of(*self),
    {
        match self {
            LexerError::UnclosedDelimiter => String::from_str("unclosed delimiter"),
            LexerError::UnexpectedEOF => String::from_str("unexpected end of file"),
            LexerError::UnexpectedCharacter(c) => {
                let found = char_string(*c);
                String::from_str("unexpected character: ").concat(found.as_str())
            },
        }
    }
}

/// Whether `c` belongs to `class`.
pub fn class_holds(class: CharClass, c: char) -> (result: bool)
    ensures
        result == in_class(class, c),
{
    match class {
        CharClass::Space => c == ' ',
        CharClass::Identifier => ('a' <= c && c <= 'z') || ('A' <= c && c <= 'Z') || ('0' <= c && c
            <= '9') || c == '.' || c == '?' || c == '_',
        CharClass::Delimiter => c == '<' || c == '>' || c == '%' || c == '(' || c == ')' || c
            == '@',
    }
}

/// What the character `c` behind an opening delimiter begins, where
/// `alphanumeric` says whether `c` is a letter or a number.
pub fn tag_start(c: char, alphanumeric: bool) -> (start: TagStart)
    ensures
        start@ == tag_start_spec(c, alphanumeric),
{
    if c == '#' {
        TagStart::Sigil(Token::Section, State::Identifier)
    } else if c == '^' {
        TagStart::Sigil(Token::InvertedSection, State::Identifier)
    } else if c == '/' {
        TagStart::Sigil(Token::SectionEnd, State::Identifier)
    } else if c == '$' {
        TagStart::Sigil(Token::Block, State::Identifier)
    } else if c == '<' {
        TagStart::Sigil(Token::Parent, State::Identifier)
    } else if c == '>' {
        TagStart::Sigil(Token::Partial, State::Identifier)
    } else if c == '&' {
        TagStart::Sigil(Token::Raw, State::Identifier)
    } else if c == '{' {
        TagStart::Sigil(Token::Raw, State::RawIdentifier)
    } else if c == '.' {
        TagStart::Sigil(Token::Implicit, State::CloseDelimiter)
    } else if c == '=' {
        TagStart::Sigil(Token::SetDelimiter, State::NewDelimiter)
    } else if c == '!' {
        TagStart::Comment
    } else if c == '\n' {
        TagStart::Unclosed
    } else if alphanumeric {
        TagStart::Name
    } else {
        TagStart::Unexpected
    }
}

/// The characters from `at` up to `at + pattern.len()`, as far as the text
/// has them, are `pattern` just where `pattern` stands at `at`.
pub proof fn lemma_window(input: Seq<char>, at: int, pattern: Seq<char>)
    requires
        0 <= at <= input.len(),
    ensures
        (char_range(input, at, at + pattern.len()) == pattern) == matches_at(input, at, pattern),
{
    let window = char_range(input, at, at + pattern.len());
    if pattern.len() == 0 {
        assert(input.subrange(at, at) =~= pattern);
        assert(window =~= pattern);
    } else if at + pattern.len() > input.len() {
        assert(window.len() < pattern.len());
    }
}

/// A lexer over the text of one template.
pub struct Lexer {
    buffer: String,
    chars: Vec<char>,
    length: usize,
    tokens: Vec<Token>,
    start_position: usize,
    position: usize,
    open_delimiter: String,
    open_delimiter_chars: usize,
    close_delimiter: String,
    close_delimiter_chars: usize,
    raw_close_delimiter: String,
    raw_close_delimiter_chars: usize,
}

impl View for Lexer {
    type V = LexerModel;

    closed spec fn view(&self) -> LexerModel {
        LexerModel {
            input: self.buffer@,
            start: self.start_position as int,
            position: self.position as int,
            open: self.open_delimiter@,
            close: self.close_delimiter@,
            tokens: token_models(self.tokens@),
        }
    }
}

impl Lexer {
    /// What holds of every lexer: its state is well formed, it keeps the
    /// characters of its text, and the lengths it keeps are those of its
    /// text and delimiters.
    pub closed spec fn inv(&self) -> bool {
        &&& self@.wf()
        &&& self.chars@ == self.buffer@
        &&& self.length == self.buffer@.len()
        &&& self.open_delimiter_chars == self.open_delimiter@.len()
        &&& self.close_delimiter_chars == self.close_delimiter@.len()
        &&& self.raw_close_delimiter@ == self@.raw_close()
        &&& self.raw_close_delimiter_chars == self.raw_close_delimiter@.len()
    }

    /// A lexer at the start of `input`, with the delimiters `{{` and `}}`.
    pub fn new(input: &str) -> (lexer: Lexer)
        ensures
            lexer.inv(),
            lexer@ == LexerModel::initial(input@),
    {
        proof {
            reveal_strlit("{{");
            reveal_strlit("}}");
            reveal_strlit("}}}");
        }
        let chars = chars_of(input);
        let lexer = Lexer {
            buffer: String::from_str(input),
            length: chars.len(),
            chars,
            tokens: Vec::new(),
            start_position: 0,
            position: 0,
            open_delimiter: String::from_str("{{"),
            open_delimiter_chars: 2,
            close_delimiter: String::from_str("}}"),
            close_delimiter_chars: 2,
            raw_close_delimiter: String::from_str("}}}"),
            raw_close_delimiter_chars: 3,
        };
        assert(lexer@.open =~= seq!['{', '{']);
        assert(lexer@.close =~= seq!['}', '}']);
        assert(lexer.raw_close_delimiter@ =~= lexer@.raw_close());
        assert(lexer@.tokens =~= Seq::<TokenModel>::empty());
        lexer
    }

    /// Reads the next character, where the text has one.
    fn next(&mut self) -> (c: Option<char>)
        requires
            old(self).inv(),
        ensures
            final(self).inv(),
            old(self)@.position < old(self)@.input.len() ==> {
                &&& c == Some(old(self)@.input[old(self)@.position])
                &&& final(self)@ == old(self)@.at(old(self)@.position + 1)
            },
            old(self)@.position >= old(self)@.input.len() ==> {
                &&& c is None
                &&& final(self)@ == old(self)@
            },
    {
        if self.position >= self.length {
            return None;
        }
        let c = self.chars[self.position];
        self.position = self.position + 1;
        Some(c)
    }

    /// The next character, where the text has one; it is not read.
    fn peek(&self) -> (c: Option<char>)
        requires
            self.inv(),
        ensures
            self@.position < self@.input.len() ==> c == Some(self@.input[self@.position]),
            self@.position >= self@.input.len() ==> c is None,
    {
        if self.position >= self.length {
            return None;
        }
        Some(self.chars[self.position])
    }

    /// Reads the next `count` characters, as far as the text has them.
    fn nextn(&mut self, count: usize)
        requires
            old(self).inv(),
        ensures
            final(self).inv(),
            final(self)@ == old(self)@.at(
                if old(self)@.position + count <= old(self)@.input.len() {
                    old(self)@.position + count
                } else {
                    old(self)@.input.len() as int
                },
            ),
    {
        if count <= self.length - self.position {
            self.position = self.position + count;
        } else {
            self.position = self.length;
        }
    }

    /// Drops the token being read.
    fn ignore(&mut self)
        requires
            old(self).inv(),
        ensures
            final(self).inv(),
            final(self)@ == old(self)@.ignore(),
    {
        self.start_position = self.position;
    }

    /// The next `count` characters, as far as the text has them; they are
    /// not read.
    fn peekn(&self, count: usize) -> (text: String)
        requires
            self.inv(),
        ensures
            text@ == char_range(self@.input, self@.position, self@.position + count),
    {
        let end = if count <= usize::MAX - self.position {
            self.position + count
        } else {
            usize::MAX
        };
        slice_chars(self.buffer.as_str(), self.position, end)
    }

    /// Adds `token` to the stream.
    fn emit(&mut self, token: Token)
        requires
            old(self).inv(),
        ensures
            final(self).inv(),
            final(self)@ == old(self)@.emit(token@),
    {
        self.start_position = self.position;
        self.tokens.push(token);
        assert(token_models(self.tokens@) =~= token_models(old(self).tokens@).push(token@));
    }

    /// The characters of the token being read.
    fn current(&self) -> (text: String)
        requires
            self.inv(),
        ensures
            text@ == self@.current(),
    {
        slice_chars(self.buffer.as_str(), self.start_position, self.position)
    }

    /// Adds the token being read to the stream as text, where it is not
    /// empty.
    fn flush(&mut self)
        requires
            old(self).inv(),
        ensures
            final(self).inv(),
            final(self)@ == old(self)@.flush(),
    {
        if self.position > self.start_position {
            let text = self.current();
            self.emit(Token::Text(text));
        }
    }

    /// Adds the report of `error` at index `at` to the stream, which ends
    /// with it.
    fn emit_error(&mut self, error: LexerError, at: usize)
        requires
            old(self).inv(),
            at <= old(self)@.input.len(),
        ensures
            final(self).inv(),
            final(self)@ == old(self)@.error(error, at as int),
    {
        let mut line: usize = 1;
        let mut column: usize = 1;
        let mut i: usize = 0;
        while i < at
            invariant
                i <= at <= self.buffer@.len(),
                self.chars@ == self.buffer@,
                line == saturate(line_at(self.buffer@, i as int)),
                column == saturate(column_at(self.buffer@, i as int)),
            decreases at - i,
        {
            let c = self.chars[i];
            i = i + 1;
            if c == '\n' {
                if line < usize::MAX {
                    line = line + 1;
                }
                column = 1;
            } else if column < usize::MAX {
                column = column + 1;
            }
        }
        let message = error.message();
        self.tokens.push(Token::Error { line, column, message });
        assert(token_models(self.tokens@) =~= token_models(old(self).tokens@).push(
            TokenModel::Error { line: line as nat, column: column as nat, message: message@ },
        ));
    }

    /// Ends the stream on what stands at the next character and cannot.
    fn fail(&mut self) -> (next: Option<State>)
        requires
            old(self).inv(),
        ensures
            final(self).inv(),
            next == old(self)@.fail().next,
            final(self)@ == old(self)@.fail().lexer,
    {
        let at = self.position;
        match self.next() {
            Some(c) => self.emit_error(LexerError::UnexpectedCharacter(c), at),
            None => self.emit_error(LexerError::UnexpectedEOF, at),
        }
        None
    }

    /// Reads the next character where it is `c`.
    fn accept(&mut self, c: char) -> (accepted: bool)
        requires
            old(self).inv(),
        ensures
            final(self).inv(),
            accepted == next_is(old(self)@, c),
            accepted ==> final(self)@ == old(self)@.at(old(self)@.position + 1),
            !accepted ==> final(self)@ == old(self)@,
    {
        match self.peek() {
            Some(found) => {
                if found == c {
                    let _ = self.next();
                    true
                } else {
                    false
                }
            },
            None => false,
        }
    }

    /// Reads the run of characters of `class` at the next character.
    fn accept_run(&mut self, class: CharClass)
        requires
            old(self).inv(),
        ensures
            final(self).inv(),
            final(self)@ == take_run(old(self)@, class),
    {
        loop
            invariant
                self.inv(),
                self@ == old(self)@.at(self@.position),
                run_end(old(self)@.input, old(self)@.position, class) == run_end(
                    self@.input,
                    self@.position,
                    class,
                ),
            decreases self@.input.len() - self@.position,
        {
            match self.peek() {
                Some(c) => {
                    if !class_holds(class, c) {
                        return ;
                    }
                    let _ = self.next();
                },
                None => {
                    return ;
                },
            }
        }
    }

    /// Whether `pattern`, of `chars` characters, stands at the next
    /// character.
    fn stands(&self, pattern: &String, chars: usize) -> (found: bool)
        requires
            self.inv(),
            chars == pattern@.len(),
        ensures
            found == matches_at(self@.input, self@.position, pattern@),
    {
        proof {
            lemma_window(self@.input, self@.position, pattern@);
        }
        if chars > self.length - self.position {
            return false;
        }
        if chars > 0 && self.chars[self.position] != pattern.as_str().get_char(0) {
            assert(self@.input.subrange(self@.position, self@.position + chars)[0]
                == self@.input[self@.position]);
            return false;
        }
        let window = self.peekn(chars);
        window == *pattern
    }

    /// Puts new delimiters in force.
    fn set_delimiters(&mut self, open_delimiter: String, close_delimiter: String)
        requires
            old(self).inv(),
            open_delimiter@.len() > 0,
        ensures
            final(self).inv(),
            final(self)@ == (LexerModel {
                open: open_delimiter@,
                close: close_delimiter@,
                ..old(self)@
            }),
    {
        proof {
            reveal_strlit("}");
        }
        let raw_close_delimiter = String::from_str("}").concat(close_delimiter.as_str());
        assert(raw_close_delimiter@ =~= seq!['}'] + close_delimiter@);
        self.open_delimiter_chars = open_delimiter.as_str().unicode_len();
        self.open_delimiter = open_delimiter;
        self.close_delimiter_chars = close_delimiter.as_str().unicode_len();
        self.close_delimiter = close_delimiter;
        self.raw_close_delimiter_chars = raw_close_delimiter.as_str().unicode_len();
        self.raw_close_delimiter = raw_close_delimiter;
    }
}

} // verus!

verus! {

impl Lexer {
    /// Outside a tag: reads text up to the next opening delimiter or to the
    /// end.
    fn lex_text(&mut self) -> (next: Option<State>)
        requires
            old(self).inv(),
        ensures
            final(self).inv(),
            next == text_step(old(self)@).next,
            final(self)@ == text_step(old(self)@).lexer,
    {
        loop
            invariant
                self.inv(),
                self@ == old(self)@.at(self@.position),
                find_from(old(self)@.input, old(self)@.position, old(self)@.open) == find_from(
                    self@.input,
                    self@.position,
                    self@.open,
                ),
            decreases self@.input.len() - self@.position,
        {
            if self.stands(&self.open_delimiter, self.open_delimiter_chars) {
                self.flush();
                return Some(State::OpenDelimiter);
            }
            match self.next() {
                Some(_) => {},
                None => {
                    self.flush();
                    self.emit(Token::EOF);
                    return None;
                },
            }
        }
    }

    /// At an opening delimiter: reads it.
    fn lex_open_delimiter(&mut self) -> (next: Option<State>)
        requires
            old(self).inv(),
        ensures
            final(self).inv(),
            next == open_step(old(self)@).next,
            final(self)@ == open_step(old(self)@).lexer,
    {
        self.nextn(self.open_delimiter_chars);
        self.emit(Token::OpenDelimiter);
        Some(State::InsideDelimiter)
    }

    /// Behind an opening delimiter: reads the character that says what the
    /// tag is.
    fn lex_inside_delimiter(&mut self) -> (next: Option<State>)
        requires
            old(self).inv(),
        ensures
            final(self).inv(),
            next == inside_step(old(self)@).next,
            final(self)@ == inside_step(old(self)@).lexer,
    {
        let at = self.position;
        match self.peek() {
            None => {
                self.emit_error(LexerError::UnexpectedEOF, at);
                None
            },
            Some(c) => match tag_start(c, alphanumeric(c)) {
                TagStart::Sigil(token, state) => {
                    let _ = self.next();
                    self.emit(token);
                    Some(state)
                },
                TagStart::Comment => {
                    let _ = self.next();
                    Some(State::Comment)
                },
                TagStart::Name => Some(State::Identifier),
                TagStart::Unclosed => {
                    let _ = self.next();
                    self.emit_error(LexerError::UnclosedDelimiter, at);
                    None
                },
                TagStart::Unexpected => {
                    let _ = self.next();
                    self.emit_error(LexerError::UnexpectedCharacter(c), at);
                    None
                },
            },
        }
    }

    /// Reads the spaces at the next character, which belong to no token.
    fn skip_spaces(&mut self)
        requires
            old(self).inv(),
        ensures
            final(self).inv(),
            final(self)@ == skip_spaces(old(self)@),
    {
        proof {
            lemma_run_end(self@.input, self@.position, CharClass::Space);
        }
        self.accept_run(CharClass::Space);
        self.ignore();
    }

    /// Before the name of a tag: reads `*`, where it stands there, and the
    /// name.
    fn lex_identifier(&mut self) -> (next: Option<State>)
        requires
            old(self).inv(),
        ensures
            final(self).inv(),
            next == identifier_step(old(self)@).next,
            final(self)@ == identifier_step(old(self)@).lexer,
    {
        self.skip_spaces();
        if self.accept('*') {
            self.emit(Token::Dynamic);
        }
        self.accept_run(CharClass::Identifier);
        let name = self.current();
        self.emit(Token::Identifier(name));
        Some(State::CloseDelimiter)
    }

    /// Before the name of a tag that began with `{`: reads the name.
    fn lex_raw_identifier(&mut self) -> (next: Option<State>)
        requires
            old(self).inv(),
        ensures
            final(self).inv(),
            next == raw_identifier_step(old(self)@).next,
            final(self)@ == raw_identifier_step(old(self)@).lexer,
    {
        self.skip_spaces();
        self.accept_run(CharClass::Identifier);
        let name = self.current();
        self.emit(Token::Identifier(name));
        Some(State::CloseRawDelimiter)
    }

    /// Behind the `!` of a comment: reads the comment and the closing
    /// delimiter.
    fn lex_comment(&mut self) -> (next: Option<State>)
        requires
            old(self).inv(),
        ensures
            final(self).inv(),
            next == comment_step(old(self)@).next,
            final(self)@ == comment_step(old(self)@).lexer,
    {
        self.ignore();
        loop
            invariant
                self.inv(),
                self@ == old(self)@.ignore().at(self@.position),
                find_from(old(self)@.input, old(self)@.position, old(self)@.close) == find_from(
                    self@.input,
                    self@.position,
                    self@.close,
                ),
            decreases self@.input.len() - self@.position,
        {
            if self.stands(&self.close_delimiter, self.close_delimiter_chars) {
                let body = self.current();
                self.emit(Token::Comment(body));
                self.nextn(self.close_delimiter_chars);
                self.emit(Token::CloseDelimiter);
                return Some(State::Text);
            }
            let at = self.position;
            match self.next() {
                Some(_) => {},
                None => {
                    self.emit_error(LexerError::UnexpectedEOF, at);
                    return None;
                },
            }
        }
    }

    /// Before a closing delimiter: reads it.
    fn lex_close_delimiter(&mut self) -> (next: Option<State>)
        requires
            old(self).inv(),
        ensures
            final(self).inv(),
            next == close_step(old(self)@, old(self)@.close).next,
            final(self)@ == close_step(old(self)@, old(self)@.close).lexer,
    {
        self.skip_spaces();
        if self.stands(&self.close_delimiter, self.close_delimiter_chars) {
            self.nextn(self.close_delimiter_chars);
            self.emit(Token::CloseDelimiter);
            return Some(State::Text);
        }
        self.fail()
    }

    /// Before the closing delimiter of a tag that began with `{`: reads it.
    fn lex_close_raw_delimiter(&mut self) -> (next: Option<State>)
        requires
            old(self).inv(),
        ensures
            final(self).inv(),
            next == close_step(old(self)@, old(self)@.raw_close()).next,
            final(self)@ == close_step(old(self)@, old(self)@.raw_close()).lexer,
    {
        self.skip_spaces();
        if self.stands(&self.raw_close_delimiter, self.raw_close_delimiter_chars) {
            self.nextn(self.raw_close_delimiter_chars);
            self.emit(Token::CloseDelimiter);
            return Some(State::Text);
        }
        self.fail()
    }

    /// Behind the `=` of a delimiter change: reads the new delimiters and
    /// the end of the tag, and puts them in force.
    fn lex_new_delimiter(&mut self) -> (next: Option<State>)
        requires
            old(self).inv(),
        ensures
            final(self).inv(),
            next == new_delimiter_step(old(self)@).next,
            final(self)@ == new_delimiter_step(old(self)@).lexer,
    {
        proof {
            lemma_run_end(self@.input, self@.position, CharClass::Space);
        }
        self.skip_spaces();
        proof {
            lemma_run_end(self@.input, self@.position, CharClass::Delimiter);
        }
        self.accept_run(CharClass::Delimiter);
        let new_open_delimiter = self.current();
        self.ignore();
        if !self.accept(' ') {
            return self.fail();
        }
        assert(new_open_delimiter@.len() > 0);
        self.skip_spaces();
        self.accept_run(CharClass::Delimiter);
        let new_close_delimiter = self.current();
        self.ignore();
        if !self.accept('=') {
            return self.fail();
        }
        self.ignore();
        if self.stands(&self.close_delimiter, self.close_delimiter_chars) {
            self.nextn(self.close_delimiter_chars);
            self.emit(Token::CloseDelimiter);
            self.set_delimiters(new_open_delimiter, new_close_delimiter);
            return Some(State::Text);
        }
        self.fail()
    }

    /// Takes one step in `state`: reads characters, adds tokens to the
    /// stream and names the state that follows, or `None` where the stream
    /// has ended.
    pub fn step(&mut self, state: State) -> (next: Option<State>)
        requires
            old(self).inv(),
        ensures
            final(self).inv(),
            next == step_spec(state, old(self)@).next,
            final(self)@ == step_spec(state, old(self)@).lexer,
    {
        match state {
            State::Text => self.lex_text(),
            State::OpenDelimiter => self.lex_open_delimiter(),
            State::InsideDelimiter => self.lex_inside_delimiter(),
            State::Identifier => self.lex_identifier(),
            State::RawIdentifier => self.lex_raw_identifier(),
            State::Comment => self.lex_comment(),
            State::CloseDelimiter => self.lex_close_delimiter(),
            State::CloseRawDelimiter => self.lex_close_raw_delimiter(),
            State::NewDelimiter => self.lex_new_delimiter(),
        }
    }

    /// Takes the tokens of the stream so far out of the lexer, which goes
    /// on with an empty stream.
    pub fn take_tokens(&mut self) -> (tokens: Vec<Token>)
        requires
            old(self).inv(),
        ensures
            final(self).inv(),
            token_models(tokens@) == old(self)@.tokens,
            final(self)@ == (LexerModel { tokens: Seq::empty(), ..old(self)@ }),
    {
        let mut tokens: Vec<Token> = Vec::new();
        std::mem::swap(&mut tokens, &mut self.tokens);
        assert(token_models(self.tokens@) =~= Seq::<TokenModel>::empty());
        tokens
    }

    /// The tokens of the stream so far.
    pub fn into_tokens(self) -> (tokens: Vec<Token>)
        ensures
            token_models(tokens@) == self@.tokens,
    {
        self.tokens
    }
}

/// The stream from `state` on, or the stream so far where it has ended.
pub open spec fn lex_rest(state: Option<State>, lexer: LexerModel) -> Seq<TokenModel> {
    match state {
        Some(state) => lex_run(state, lexer),
        None => lexer.tokens,
    }
}

/// Turns the text of a template into its tokens. The last token is `EOF`,
/// or the error on which the lexer stopped.
pub fn lex(input: &str) -> (tokens: Vec<Token>)
    ensures
        token_models(tokens@) == lex_spec(input@),
{
    let mut lexer = Lexer::new(input);
    let mut state = Some(State::Text);
    loop
        invariant
            lexer.inv(),
            lex_rest(state, lexer@) == lex_spec(input@),
        decreases
            match state {
                Some(state) => measure(state, lexer@) + 1,
                None => 0,
            },
    {
        match state {
            Some(current) => {
                proof {
                    lemma_step(current, lexer@);
                }
                state = lexer.step(current);
            },
            None => {
                return lexer.into_tokens();
            },
        }
    }
}

} // verus!
