//! What holds of every stream of tokens that the lexer gives.
use vstd::prelude::*;
use crate::lexer::{
    CharClass, LexerModel, State, find_from, lex_run, lex_spec, matches_at, measure, next_is,
    skip_spaces, step_spec, take_run, lemma_find_from, lemma_run_end, lemma_step,
};
use crate::text::char_range;
use crate::token::TokenModel;

verus! {

/// The machine at some step: the state it is in, or `None` where the
/// stream has ended, and the lexer.
pub ghost struct Reached {
    pub state: Option<State>,
    pub lexer: LexerModel,
}

/// The machine `steps` steps after it was in `state`.
pub open spec fn run_after(state: Option<State>, lexer: LexerModel, steps: nat) -> Reached
    decreases steps,
{
    if steps == 0 {
        Reached { state, lexer }
    } else {
        match state {
            Some(current) => run_after(
                step_spec(current, lexer).next,
                step_spec(current, lexer).lexer,
                (steps - 1) as nat,
            ),
            None => Reached { state, lexer },
        }
    }
}

/// The machine after `steps` steps on the text `input`.
pub open spec fn lex_after(input: Seq<char>, steps: nat) -> Reached {
    run_after(Some(State::Text), LexerModel::initial(input), steps)
}

/// Whether `pattern` stands nowhere in `text`.
pub open spec fn avoids(text: Seq<char>, pattern: Seq<char>) -> bool {
    forall|at: int| !matches_at(text, at, pattern)
}

/// What holds of the machine at every step: the lexer is well formed, and
/// outside a tag no token is being read yet.
pub open spec fn fresh(state: Option<State>, lexer: LexerModel) -> bool {
    &&& lexer.wf()
    &&& state matches Some(State::Text) ==> lexer.start == lexer.position
}

/// Whether `token` is one of the two that end a stream.
pub open spec fn ends_stream(token: TokenModel) -> bool {
    token is EOF || token is Error
}

/// Whether `longer` is `shorter` with tokens added behind it.
pub open spec fn extends(longer: Seq<TokenModel>, shorter: Seq<TokenModel>) -> bool {
    &&& shorter.len() <= longer.len()
    &&& forall|k: int| 0 <= k < shorter.len() ==> #[trigger] longer[k] == shorter[k]
}

/// Whether the token at `k` is a text token that is not empty, holds the
/// opening delimiter `open` nowhere, and has a token behind it that is an
/// opening delimiter or `EOF`, or none yet, with the machine at an opening
/// delimiter.
pub open spec fn text_in_place(
    tokens: Seq<TokenModel>,
    k: int,
    open: Seq<char>,
    state: Option<State>,
) -> bool {
    &&& tokens[k] is Text
    &&& tokens[k]->Text_0.len() > 0
    &&& avoids(tokens[k]->Text_0, open)
    &&& if k + 1 < tokens.len() {
        tokens[k + 1] is OpenDelimiter || tokens[k + 1] is EOF
    } else {
        state matches Some(State::OpenDelimiter)
    }
}

/// Text between two indices of which none starts an occurrence of
/// `pattern` in the whole text holds `pattern` nowhere.
pub proof fn lemma_range_avoids(input: Seq<char>, start: int, end: int, pattern: Seq<char>)
    requires
        0 <= start <= end <= input.len(),
        pattern.len() > 0,
        forall|at: int| start <= at < end ==> !matches_at(input, at, pattern),
    ensures
        avoids(char_range(input, start, end), pattern),
{
    let text = char_range(input, start, end);
    assert forall|at: int| !matches_at(text, at, pattern) by {
        if matches_at(text, at, pattern) {
            assert(text =~= input.subrange(start, end));
            assert(input.subrange(start + at, start + at + pattern.len()) =~= text.subrange(
                at,
                at + pattern.len(),
            ));
            assert(matches_at(input, start + at, pattern));
        }
    }
}

/// One step adds tokens behind the stream. A text token is added outside
/// a tag only: it is not empty and holds the opening delimiter in force
/// nowhere, and `EOF` or, with the next step, an opening delimiter
/// follows it.
pub proof fn lemma_step_tokens(state: State, lexer: LexerModel)
    requires
        fresh(Some(state), lexer),
    ensures
        ({
            let step = step_spec(state, lexer);
            &&& fresh(step.next, step.lexer)
            &&& extends(step.lexer.tokens, lexer.tokens)
            &&& forall|k: int|
                lexer.tokens.len() <= k < step.lexer.tokens.len() && (
                #[trigger] step.lexer.tokens[k]) is Text ==> text_in_place(
                    step.lexer.tokens,
                    k,
                    lexer.open,
                    step.next,
                )
            &&& state is OpenDelimiter ==> step.lexer.tokens == lexer.tokens.push(
                TokenModel::OpenDelimiter,
            )
            &&& step.next is None ==> step.lexer.tokens.len() > lexer.tokens.len()
            &&& forall|k: int|
                lexer.tokens.len() <= k < step.lexer.tokens.len() ==> (ends_stream(
                    #[trigger] step.lexer.tokens[k],
                ) <==> step.next is None && k + 1 == step.lexer.tokens.len())
        }),
{
    let input = lexer.input;
    let step = step_spec(state, lexer);
    lemma_step(state, lexer);
    match state {
        State::Text => {
            lemma_find_from(input, lexer.position, lexer.open);
            match find_from(input, lexer.position, lexer.open) {
                Some(at) => {
                    lemma_range_avoids(input, lexer.start, at, lexer.open);
                },
                None => {
                    lemma_range_avoids(input, lexer.start, input.len() as int, lexer.open);
                },
            }
        },
        State::OpenDelimiter => {},
        State::InsideDelimiter => {},
        State::Identifier => {
            lemma_run_end(input, lexer.position, CharClass::Space);
            let spaced = skip_spaces(lexer);
            let marked = if next_is(spaced, '*') {
                spaced.at(spaced.position + 1).emit(TokenModel::Dynamic)
            } else {
                spaced
            };
            lemma_run_end(input, marked.position, CharClass::Identifier);
        },
        State::RawIdentifier => {
            lemma_run_end(input, lexer.position, CharClass::Space);
            lemma_run_end(input, skip_spaces(lexer).position, CharClass::Identifier);
        },
        State::Comment => {
            lemma_find_from(input, lexer.position, lexer.close);
        },
        State::CloseDelimiter => {
            lemma_run_end(input, lexer.position, CharClass::Space);
        },
        State::CloseRawDelimiter => {
            lemma_run_end(input, lexer.position, CharClass::Space);
        },
        State::NewDelimiter => {
            lemma_run_end(input, lexer.position, CharClass::Space);
            let first = skip_spaces(lexer);
            lemma_run_end(input, first.position, CharClass::Delimiter);
            let opened = take_run(first, CharClass::Delimiter);
            if next_is(opened, ' ') {
                lemma_run_end(input, opened.position + 1, CharClass::Space);
                let second = skip_spaces(opened.at(opened.position + 1));
                lemma_run_end(input, second.position, CharClass::Delimiter);
            }
        },
    }
}

} // verus!

verus! {

/// The number of steps that the machine takes from `state` on.
pub open spec fn steps_left(state: State, lexer: LexerModel) -> nat
    decreases measure(state, lexer),
    when lexer.wf()
    via steps_left_decreases
{
    let step = step_spec(state, lexer);
    match step.next {
        Some(next) => 1 + steps_left(next, step.lexer),
        None => 1,
    }
}

#[via_fn]
proof fn steps_left_decreases(state: State, lexer: LexerModel) {
    lemma_step(state, lexer);
}

/// The machine stops. After the steps that are left the stream has ended,
/// and it is the stream that the lexer gives.
pub proof fn lemma_run_ends(state: State, lexer: LexerModel)
    requires
        lexer.wf(),
    ensures
        run_after(Some(state), lexer, steps_left(state, lexer)).state is None,
        run_after(Some(state), lexer, steps_left(state, lexer)).lexer.tokens == lex_run(
            state,
            lexer,
        ),
    decreases measure(state, lexer),
{
    let step = step_spec(state, lexer);
    lemma_step(state, lexer);
    match step.next {
        Some(next) => {
            lemma_run_ends(next, step.lexer);
        },
        None => {
            assert(run_after(None, step.lexer, 0) == Reached { state: None, lexer: step.lexer });
        },
    }
}

/// What holds of the stream at every step: until it has ended no token
/// that ends a stream is in it, and then one is, the last; and each text
/// token is not empty and has an opening delimiter or `EOF` behind it, or
/// no token yet, with the machine at an opening delimiter.
pub open spec fn orderly(state: Option<State>, lexer: LexerModel) -> bool {
    &&& fresh(state, lexer)
    &&& forall|k: int|
        0 <= k < lexer.tokens.len() ==> (ends_stream(#[trigger] lexer.tokens[k]) <==> state is None
            && k + 1 == lexer.tokens.len())
    &&& state is None ==> lexer.tokens.len() > 0
    &&& forall|k: int|
        0 <= k < lexer.tokens.len() && (#[trigger] lexer.tokens[k]) is Text ==> {
            &&& lexer.tokens[k]->Text_0.len() > 0
            &&& if k + 1 < lexer.tokens.len() {
                lexer.tokens[k + 1] is OpenDelimiter || lexer.tokens[k + 1] is EOF
            } else {
                state matches Some(State::OpenDelimiter)
            }
        }
}

/// A step keeps the stream orderly.
pub proof fn lemma_step_orderly(state: State, lexer: LexerModel)
    requires
        orderly(Some(state), lexer),
    ensures
        orderly(step_spec(state, lexer).next, step_spec(state, lexer).lexer),
{
    let step = step_spec(state, lexer);
    let tokens = step.lexer.tokens;
    lemma_step_tokens(state, lexer);
    assert forall|k: int| 0 <= k < tokens.len() implies (ends_stream(#[trigger] tokens[k])
        <==> step.next is None && k + 1 == tokens.len()) by {
        if k < lexer.tokens.len() {
            assert(tokens[k] == lexer.tokens[k]);
        }
    }
    assert forall|k: int| 0 <= k < tokens.len() && (#[trigger] tokens[k]) is Text implies {
        &&& tokens[k]->Text_0.len() > 0
        &&& if k + 1 < tokens.len() {
            tokens[k + 1] is OpenDelimiter || tokens[k + 1] is EOF
        } else {
            step.next matches Some(State::OpenDelimiter)
        }
    } by {
        if k < lexer.tokens.len() {
            assert(tokens[k] == lexer.tokens[k]);
            if k + 1 < lexer.tokens.len() {
                assert(tokens[k + 1] == lexer.tokens[k + 1]);
            } else {
                assert(state is OpenDelimiter);
                assert(tokens[k + 1] is OpenDelimiter);
            }
        } else {
            assert(text_in_place(tokens, k, lexer.open, step.next));
        }
    }
}

/// The stream is orderly at every step.
pub proof fn lemma_run_orderly(state: Option<State>, lexer: LexerModel, steps: nat)
    requires
        orderly(state, lexer),
    ensures
        orderly(run_after(state, lexer, steps).state, run_after(state, lexer, steps).lexer),
    decreases steps,
{
    if steps > 0 {
        match state {
            Some(current) => {
                lemma_step_orderly(current, lexer);
                lemma_run_orderly(
                    step_spec(current, lexer).next,
                    step_spec(current, lexer).lexer,
                    (steps - 1) as nat,
                );
            },
            None => {},
        }
    }
}

/// One token ends the stream. The stream of a template is not empty; its
/// last token is `EOF` or an error, and no token before it is.
pub proof fn lemma_stream_ends_once(input: Seq<char>)
    ensures
        ({
            let tokens = lex_spec(input);
            &&& tokens.len() > 0
            &&& forall|k: int|
                0 <= k < tokens.len() ==> (ends_stream(#[trigger] tokens[k]) <==> k + 1
                    == tokens.len())
        }),
{
    let lexer = LexerModel::initial(input);
    let steps = steps_left(State::Text, lexer);
    lemma_run_ends(State::Text, lexer);
    lemma_run_orderly(Some(State::Text), lexer, steps);
}

/// One text token for each run of text. In the stream of a template no
/// text token is empty, and behind each stands an opening delimiter or
/// `EOF`, never another text token.
pub proof fn lemma_text_tokens_apart(input: Seq<char>)
    ensures
        ({
            let tokens = lex_spec(input);
            forall|k: int|
                0 <= k < tokens.len() && (#[trigger] tokens[k]) is Text ==> {
                    &&& tokens[k]->Text_0.len() > 0
                    &&& k + 1 < tokens.len()
                    &&& tokens[k + 1] is OpenDelimiter || tokens[k + 1] is EOF
                }
        }),
{
    let lexer = LexerModel::initial(input);
    let steps = steps_left(State::Text, lexer);
    lemma_run_ends(State::Text, lexer);
    lemma_run_orderly(Some(State::Text), lexer, steps);
}

/// Text holds no opening delimiter. Every text token that a step of the
/// machine adds to the stream of a template holds nowhere the opening
/// delimiter that is in force at that step.
pub proof fn lemma_text_avoids_open_delimiter(input: Seq<char>, steps: nat)
    ensures
        ({
            let before = lex_after(input, steps).lexer;
            let after = lex_after(input, steps + 1).lexer;
            &&& extends(after.tokens, before.tokens)
            &&& forall|k: int|
                before.tokens.len() <= k < after.tokens.len() && (#[trigger] after.tokens[k]) is Text
                    ==> avoids(after.tokens[k]->Text_0, before.open)
        }),
{
    let start = LexerModel::initial(input);
    let before = lex_after(input, steps);
    lemma_run_orderly(Some(State::Text), start, steps);
    lemma_run_step(Some(State::Text), start, steps);
    match before.state {
        Some(state) => {
            lemma_step_tokens(state, before.lexer);
            let after = step_spec(state, before.lexer);
            assert forall|k: int|
                before.lexer.tokens.len() <= k < after.lexer.tokens.len() && (
                #[trigger] after.lexer.tokens[k]) is Text implies avoids(
                after.lexer.tokens[k]->Text_0,
                before.lexer.open,
            ) by {
                assert(text_in_place(after.lexer.tokens, k, before.lexer.open, after.next));
            }
        },
        None => {},
    }
}

/// The machine after one more step is the machine so far, one step on.
pub proof fn lemma_run_step(state: Option<State>, lexer: LexerModel, steps: nat)
    ensures
        run_after(state, lexer, steps + 1) == match run_after(state, lexer, steps).state {
            Some(current) => Reached {
                state: step_spec(current, run_after(state, lexer, steps).lexer).next,
                lexer: step_spec(current, run_after(state, lexer, steps).lexer).lexer,
            },
            None => run_after(state, lexer, steps),
        },
    decreases steps,
{
    if steps > 0 {
        match state {
            Some(current) => {
                lemma_run_step(
                    step_spec(current, lexer).next,
                    step_spec(current, lexer).lexer,
                    (steps - 1) as nat,
                );
            },
            None => {},
        }
    } else {
        match state {
            Some(current) => {
                let step = step_spec(current, lexer);
                assert(run_after(step.next, step.lexer, 0) == Reached {
                    state: step.next,
                    lexer: step.lexer,
                });
            },
            None => {},
        }
    }
}

/// New delimiters are in force from the next step on. The step behind the
/// `=` of a delimiter change that reads the whole tag sets the delimiters
/// to the ones it read, and no other step changes them.
pub proof fn lemma_delimiters_in_force(state: State, lexer: LexerModel)
    requires
        lexer.wf(),
    ensures
        ({
            let step = step_spec(state, lexer);
            let opened = take_run(skip_spaces(lexer), CharClass::Delimiter);
            let closed = take_run(
                skip_spaces(opened.at(opened.position + 1)),
                CharClass::Delimiter,
            );
            if state is NewDelimiter && step.next is Some {
                &&& step.next == Some(State::Text)
                &&& step.lexer.open == opened.current()
                &&& step.lexer.close == closed.current()
            } else {
                &&& step.lexer.open == lexer.open
                &&& step.lexer.close == lexer.close
            }
        }),
{
}

} // verus!

verus! {

/// The steps that are left are no more than the measure says.
pub proof fn lemma_steps_bound(state: State, lexer: LexerModel)
    requires
        lexer.wf(),
    ensures
        steps_left(state, lexer) <= measure(state, lexer) + 1,
    decreases measure(state, lexer),
{
    let step = step_spec(state, lexer);
    lemma_step(state, lexer);
    match step.next {
        Some(next) => {
            lemma_steps_bound(next, step.lexer);
        },
        None => {},
    }
}

/// The lexer takes time in proportion to the text. On a text of `n`
/// characters the machine stops after no more than `8 * n + 1` steps.
pub proof fn lemma_lexer_steps_linear(input: Seq<char>)
    ensures
        steps_left(State::Text, LexerModel::initial(input)) <= 8 * input.len() + 1,
        run_after(
            Some(State::Text),
            LexerModel::initial(input),
            steps_left(State::Text, LexerModel::initial(input)),
        ).state is None,
{
    lemma_steps_bound(State::Text, LexerModel::initial(input));
    lemma_run_ends(State::Text, LexerModel::initial(input));
}

} // verus!
