//! The written form of a template, and what the parser makes of it.
//!
//! A template whose tags are nested in one another is a tree of written
//! items. Its tokens read back as the nodes of that tree, as long as no tag
//! with a body holds a closing tag of its own name inside that body.
use vstd::prelude::*;
use crate::node::NodeModel;
use crate::token::TokenModel;
use crate::parser::{
    Name, Opener, ParserErrorModel, after, body_node, body_of, close_len, closed, closes_at,
    dynamic_name, extend, find_close, name_len, parse_body, parse_items, parse_spec, parse_tag,
    plain_name, prepend, lemma_find_close_bounds,
};

verus! {

/// One written item of a template. A tag with a body records whether its
/// closing tag is written with `*`.
pub ghost enum Syntax {
    Text(Seq<char>),
    Variable { identifier: Seq<char>, escaped: bool },
    Implicit,
    Comment(Seq<char>),
    Partial { identifier: Seq<char>, dynamic: bool },
    SetDelimiter,
    Section { identifier: Seq<char>, inverted: bool, children: Seq<Syntax>, starred: bool },
    Block { identifier: Seq<char>, children: Seq<Syntax>, starred: bool },
    Parent { identifier: Seq<char>, dynamic: bool, children: Seq<Syntax>, starred: bool },
}

/// The tokens of a name, with `*` before it where it is dynamic.
pub open spec fn name_tokens(identifier: Seq<char>, dynamic: bool) -> Seq<TokenModel> {
    if dynamic {
        seq![TokenModel::Dynamic, TokenModel::Identifier(identifier)]
    } else {
        seq![TokenModel::Identifier(identifier)]
    }
}

/// The tokens of a tag that holds no body: the delimiters round `inside`.
pub open spec fn tag_tokens(inside: Seq<TokenModel>) -> Seq<TokenModel> {
    seq![TokenModel::OpenDelimiter] + inside + seq![TokenModel::CloseDelimiter]
}

/// The tokens of the closing tag for `identifier`.
pub open spec fn closing_tokens(identifier: Seq<char>, starred: bool) -> Seq<TokenModel> {
    tag_tokens(seq![TokenModel::SectionEnd] + name_tokens(identifier, starred))
}

/// The tokens of a tag with a body: the opening tag with `sigil`, the
/// tokens `body` and the closing tag.
pub open spec fn body_tokens(
    sigil: TokenModel,
    identifier: Seq<char>,
    dynamic: bool,
    body: Seq<TokenModel>,
    starred: bool,
) -> Seq<TokenModel> {
    tag_tokens(seq![sigil] + name_tokens(identifier, dynamic)) + body + closing_tokens(
        identifier,
        starred,
    )
}

/// The tokens of one written item.
pub open spec fn unparse_item(item: Syntax) -> Seq<TokenModel>
    decreases item, 0nat,
{
    match item {
        Syntax::Text(text) => seq![TokenModel::Text(text)],
        Syntax::Variable { identifier, escaped } => if escaped {
            tag_tokens(seq![TokenModel::Identifier(identifier)])
        } else {
            tag_tokens(seq![TokenModel::Raw, TokenModel::Identifier(identifier)])
        },
        Syntax::Implicit => tag_tokens(seq![TokenModel::Implicit]),
        Syntax::Comment(body) => tag_tokens(seq![TokenModel::Comment(body)]),
        Syntax::Partial { identifier, dynamic } => tag_tokens(
            seq![TokenModel::Partial] + name_tokens(identifier, dynamic),
        ),
        Syntax::SetDelimiter => tag_tokens(seq![TokenModel::SetDelimiter]),
        Syntax::Section { identifier, inverted, children, starred } => body_tokens(
            if inverted {
                TokenModel::InvertedSection
            } else {
                TokenModel::Section
            },
            identifier,
            false,
            unparse_from(children, 0),
            starred,
        ),
        Syntax::Block { identifier, children, starred } => body_tokens(
            TokenModel::Block,
            identifier,
            false,
            unparse_from(children, 0),
            starred,
        ),
        Syntax::Parent { identifier, dynamic, children, starred } => body_tokens(
            TokenModel::Parent,
            identifier,
            dynamic,
            unparse_from(children, 0),
            starred,
        ),
    }
}

/// The tokens of the written items from index `from` on.
pub open spec fn unparse_from(items: Seq<Syntax>, from: int) -> Seq<TokenModel>
    decreases items, items.len() - from,
{
    if from < 0 || from >= items.len() {
        Seq::empty()
    } else {
        unparse_item(items[from]) + unparse_from(items, from + 1)
    }
}

/// The tokens of a written template.
pub open spec fn unparse(items: Seq<Syntax>) -> Seq<TokenModel> {
    unparse_from(items, 0)
}

/// The node that a written item stands for; a delimiter change stands for
/// none.
pub open spec fn node_of(item: Syntax) -> Option<NodeModel>
    decreases item, 0nat,
{
    match item {
        Syntax::Text(text) => Some(NodeModel::Text(text)),
        Syntax::Variable { identifier, escaped } => Some(
            NodeModel::Variable { identifier, escaped },
        ),
        Syntax::Implicit => Some(NodeModel::Implicit),
        Syntax::Comment(body) => Some(NodeModel::Comment(body)),
        Syntax::Partial { identifier, dynamic } => Some(NodeModel::Partial { identifier, dynamic }),
        Syntax::SetDelimiter => None,
        Syntax::Section { identifier, inverted, children, starred } => Some(
            NodeModel::Section { identifier, inverted, children: nodes_from(children, 0) },
        ),
        Syntax::Block { identifier, children, starred } => Some(
            NodeModel::Block { identifier, children: nodes_from(children, 0) },
        ),
        Syntax::Parent { identifier, dynamic, children, starred } => Some(
            NodeModel::Parent { identifier, dynamic, children: nodes_from(children, 0) },
        ),
    }
}

/// The nodes that the written items from index `from` on stand for.
pub open spec fn nodes_from(items: Seq<Syntax>, from: int) -> Seq<NodeModel>
    decreases items, items.len() - from,
{
    if from < 0 || from >= items.len() {
        Seq::empty()
    } else {
        match node_of(items[from]) {
            Some(node) => seq![node] + nodes_from(items, from + 1),
            None => nodes_from(items, from + 1),
        }
    }
}

/// The nodes that a written template stands for.
pub open spec fn nodes_of(items: Seq<Syntax>) -> Seq<NodeModel> {
    nodes_from(items, 0)
}

/// Whether a closing tag for `identifier` starts somewhere in `tokens`.
pub open spec fn has_close(tokens: Seq<TokenModel>, identifier: Seq<char>) -> bool {
    exists|at: int| closes_at(tokens, at, identifier)
}

/// Whether no tag with a body, in `item` or below it, holds a closing tag
/// of its own name inside that body.
pub open spec fn nests(item: Syntax) -> bool
    decreases item, 0nat,
{
    match item {
        Syntax::Section { identifier, children, .. } => !has_close(
            unparse_from(children, 0),
            identifier,
        ) && nest_from(children, 0),
        Syntax::Block { identifier, children, .. } => !has_close(
            unparse_from(children, 0),
            identifier,
        ) && nest_from(children, 0),
        Syntax::Parent { identifier, children, .. } => !has_close(
            unparse_from(children, 0),
            identifier,
        ) && nest_from(children, 0),
        _ => true,
    }
}

/// Whether the items from index `from` on all nest.
pub open spec fn nest_from(items: Seq<Syntax>, from: int) -> bool
    decreases items, items.len() - from,
{
    if from < 0 || from >= items.len() {
        true
    } else {
        nests(items[from]) && nest_from(items, from + 1)
    }
}

/// Whether every `/` sigil in `tokens` has its name behind it in `tokens`,
/// and no token is `EOF`.
pub open spec fn shaped(tokens: Seq<TokenModel>) -> bool {
    forall|at: int|
        0 <= at < tokens.len() ==> {
            &&& !(#[trigger] tokens[at] is EOF)
            &&& tokens[at] is SectionEnd ==> at + 1 < tokens.len() && (tokens[at + 1] is Dynamic
                ==> at + 2 < tokens.len())
        }
}

/// Shaped tokens one after another are shaped.
pub proof fn lemma_shaped_concat(first: Seq<TokenModel>, second: Seq<TokenModel>)
    requires
        shaped(first),
        shaped(second),
    ensures
        shaped(first + second),
{
    let both = first + second;
    assert forall|at: int| 0 <= at < both.len() implies {
        &&& !(#[trigger] both[at] is EOF)
        &&& both[at] is SectionEnd ==> at + 1 < both.len() && (both[at + 1] is Dynamic ==> at + 2
            < both.len())
    } by {
        if at < first.len() {
            assert(both[at] == first[at]);
            if first[at] is SectionEnd {
                assert(both[at + 1] == first[at + 1]);
            }
        } else {
            assert(both[at] == second[at - first.len()]);
            if both[at] is SectionEnd {
                assert(both[at + 1] == second[at + 1 - first.len()]);
            }
        }
    }
}

/// The tokens of written items are shaped.
pub proof fn lemma_unparse_item_shaped(item: Syntax)
    ensures
        shaped(unparse_item(item)),
    decreases item, 0nat,
{
    match item {
        Syntax::Section { identifier, inverted, children, starred } => {
            lemma_unparse_shaped(children, 0);
            let sigil = if inverted {
                TokenModel::InvertedSection
            } else {
                TokenModel::Section
            };
            lemma_body_tokens_shaped(sigil, identifier, false, unparse_from(children, 0), starred);
        },
        Syntax::Block { identifier, children, starred } => {
            lemma_unparse_shaped(children, 0);
            lemma_body_tokens_shaped(
                TokenModel::Block,
                identifier,
                false,
                unparse_from(children, 0),
                starred,
            );
        },
        Syntax::Parent { identifier, dynamic, children, starred } => {
            lemma_unparse_shaped(children, 0);
            lemma_body_tokens_shaped(
                TokenModel::Parent,
                identifier,
                dynamic,
                unparse_from(children, 0),
                starred,
            );
        },
        _ => {},
    }
}

/// The tokens of a tag with a shaped body are shaped.
pub proof fn lemma_body_tokens_shaped(
    sigil: TokenModel,
    identifier: Seq<char>,
    dynamic: bool,
    body: Seq<TokenModel>,
    starred: bool,
)
    requires
        shaped(body),
        !(sigil is EOF),
        !(sigil is SectionEnd),
    ensures
        shaped(body_tokens(sigil, identifier, dynamic, body, starred)),
{
    let opening = tag_tokens(seq![sigil] + name_tokens(identifier, dynamic));
    let closing = closing_tokens(identifier, starred);
    assert(shaped(opening));
    assert(shaped(closing));
    lemma_shaped_concat(opening, body);
    lemma_shaped_concat(opening + body, closing);
}

/// The tokens of written items are shaped.
pub proof fn lemma_unparse_shaped(items: Seq<Syntax>, from: int)
    ensures
        shaped(unparse_from(items, from)),
    decreases items, items.len() - from,
{
    if 0 <= from < items.len() {
        lemma_unparse_item_shaped(items[from]);
        lemma_unparse_shaped(items, from + 1);
        lemma_shaped_concat(unparse_item(items[from]), unparse_from(items, from + 1));
    }
}

} // verus!

verus! {

/// The sigil of a tag that holds a body.
pub open spec fn sigil(opener: Opener) -> TokenModel {
    match opener {
        Opener::Section => TokenModel::Section,
        Opener::InvertedSection => TokenModel::InvertedSection,
        Opener::Block => TokenModel::Block,
        Opener::Parent => TokenModel::Parent,
    }
}

/// A search for a closing tag passes over tokens among which none starts
/// and none is `EOF`.
pub proof fn lemma_find_close_skip(
    tokens: Seq<TokenModel>,
    from: int,
    to: int,
    identifier: Seq<char>,
)
    requires
        0 <= from <= to <= tokens.len(),
        forall|at: int|
            from <= at < to ==> !(#[trigger] tokens[at] is EOF) && !closes_at(
                tokens,
                at,
                identifier,
            ),
    ensures
        find_close(tokens, from, identifier) == find_close(tokens, to, identifier),
    decreases to - from,
{
    if from < to {
        assert(!(tokens[from] is EOF));
        lemma_find_close_skip(tokens, from + 1, to, identifier);
    }
}

/// A tag with a body reads back as its node, where the body reads back as
/// the node's children and holds no closing tag for the tag's name.
pub proof fn lemma_parse_body_tokens(
    opener: Opener,
    identifier: Seq<char>,
    dynamic: bool,
    body: Seq<TokenModel>,
    starred: bool,
    rest: Seq<TokenModel>,
    children: Seq<NodeModel>,
)
    requires
        shaped(body),
        !has_close(body, identifier),
        parse_items(body) == Ok::<Seq<NodeModel>, ParserErrorModel>(children),
        dynamic ==> opener is Parent,
    ensures
        parse_items(body_tokens(sigil(opener), identifier, dynamic, body, starred) + rest)
            == prepend(
            Some(
                body_node(
                    opener,
                    Name { identifier, dynamic, len: name_len(dynamic) },
                    children,
                ),
            ),
            parse_items(rest),
        ),
{
    let name = Name { identifier, dynamic, len: name_len(dynamic) };
    let opening = tag_tokens(seq![sigil(opener)] + name_tokens(identifier, dynamic));
    let closing = closing_tokens(identifier, starred);
    let tokens = body_tokens(sigil(opener), identifier, dynamic, body, starred) + rest;
    let ts = tokens.skip(1);
    let at = 1 + name.len;
    let start = at + 1;
    let end = start + body.len() + 1;
    let last = end + name_len(starred) + 1;
    assert(opening.len() == start + 1);
    assert(closing.len() == name_len(starred) + 3);
    assert(tokens.len() == opening.len() + body.len() + closing.len() + rest.len());
    assert(tokens[0] is OpenDelimiter) by {
        assert(tokens[0] == opening[0]);
    }
    assert forall|i: int| 0 <= i <= at implies #[trigger] ts[i] == opening[i + 1] by {
        assert(ts[i] == tokens[i + 1]);
    }
    assert forall|i: int| 0 <= i < body.len() implies #[trigger] ts[start + i] == body[i] by {
        assert(ts[start + i] == tokens[start + i + 1]);
    }
    assert forall|i: int| 0 <= i < closing.len() implies #[trigger] ts[end - 1 + i]
        == closing[i] by {
        assert(ts[end - 1 + i] == tokens[end + i]);
    }
    assert forall|i: int| 0 <= i < rest.len() implies #[trigger] ts[last + 1 + i] == rest[i] by {
        assert(ts[last + 1 + i] == tokens[last + 2 + i]);
    }
    assert(ts[0] == sigil(opener));
    assert(ts[at] is CloseDelimiter);
    assert(ts[end - 1 + 0] is OpenDelimiter);
    assert(ts[end - 1 + 1] is SectionEnd);
    assert(closes_at(ts, end, identifier)) by {
        if starred {
            assert(ts[end - 1 + 2] is Dynamic);
            assert(ts[end - 1 + 3] == TokenModel::Identifier(identifier));
        } else {
            assert(ts[end - 1 + 2] == TokenModel::Identifier(identifier));
        }
    }
    assert(close_len(ts, end) == name_len(starred) + 1) by {
        assert(ts[end - 1 + 2] is Dynamic == starred);
    }
    assert(ts[last] is CloseDelimiter) by {
        assert(ts[end - 1 + (name_len(starred) + 2)] is CloseDelimiter);
    }
    assert forall|j: int| start <= j < end implies !(#[trigger] ts[j] is EOF) && !closes_at(
        ts,
        j,
        identifier,
    ) by {
        if j < end - 1 {
            let i = j - start;
            assert(ts[start + i] == body[i]);
            if closes_at(ts, j, identifier) {
                assert(body[i] is SectionEnd);
                assert(ts[start + (i + 1)] == body[i + 1]);
                if body[i + 1] is Dynamic {
                    assert(ts[start + (i + 2)] == body[i + 2]);
                }
                assert(closes_at(body, i, identifier));
            }
        } else {
            assert(ts[end - 1 + 0] is OpenDelimiter);
        }
    }
    lemma_find_close_skip(ts, start, end, identifier);
    assert(find_close(ts, start, identifier) == Some(end));
    assert(body_of(ts, start, end) =~= body);
    let node = body_node(opener, name, children);
    assert(parse_body(ts, opener, name) == closed(ts, last, Some(node)));
    assert(parse_tag(ts) == parse_body(ts, opener, name)) by {
        if dynamic {
            assert(ts[1] is Dynamic);
            assert(ts[2] == TokenModel::Identifier(identifier));
        } else {
            assert(ts[1] == TokenModel::Identifier(identifier));
        }
    }
    assert(after(tokens, last + 1) =~= rest);
}

} // verus!

verus! {

/// The tokens of one written item that nests, with any tokens behind
/// them, read back as the item's node and what the tokens behind it read
/// back as.
pub proof fn lemma_parse_item(item: Syntax, rest: Seq<TokenModel>)
    requires
        nests(item),
    ensures
        parse_items(unparse_item(item) + rest) == prepend(node_of(item), parse_items(rest)),
    decreases item, 0nat,
{
    let tokens = unparse_item(item) + rest;
    let ts = tokens.skip(1);
    match item {
        Syntax::Text(text) => {
            assert(tokens[0] == TokenModel::Text(text));
            assert(ts =~= rest);
            assert(parse_items(tokens) == prepend(
                Some(NodeModel::Text(text)),
                parse_items(tokens.skip(1)),
            ));
        },
        Syntax::Variable { identifier, escaped } => {
            if escaped {
                assert(tokens[0] is OpenDelimiter);
                assert(ts[0] == TokenModel::Identifier(identifier));
                assert(ts[1] is CloseDelimiter);
                assert(after(tokens, 2) =~= rest);
                assert(parse_tag(ts) == closed(ts, 1, node_of(item)));
            } else {
                assert(tokens[0] is OpenDelimiter);
                assert(ts[0] is Raw);
                assert(ts[1] == TokenModel::Identifier(identifier));
                assert(ts[2] is CloseDelimiter);
                assert(after(tokens, 3) =~= rest);
                assert(parse_tag(ts) == closed(ts, 2, node_of(item)));
            }
        },
        Syntax::Implicit => {
            assert(tokens[0] is OpenDelimiter);
            assert(ts[0] is Implicit);
            assert(ts[1] is CloseDelimiter);
            assert(after(tokens, 2) =~= rest);
            assert(parse_tag(ts) == closed(ts, 1, node_of(item)));
        },
        Syntax::Comment(body) => {
            assert(tokens[0] is OpenDelimiter);
            assert(ts[0] == TokenModel::Comment(body));
            assert(ts[1] is CloseDelimiter);
            assert(after(tokens, 2) =~= rest);
            assert(parse_tag(ts) == closed(ts, 1, node_of(item)));
        },
        Syntax::SetDelimiter => {
            assert(tokens[0] is OpenDelimiter);
            assert(ts[0] is SetDelimiter);
            assert(ts[1] is CloseDelimiter);
            assert(after(tokens, 2) =~= rest);
            assert(parse_tag(ts) == closed(ts, 1, node_of(item)));
        },
        Syntax::Partial { identifier, dynamic } => {
            assert(tokens[0] is OpenDelimiter);
            assert(ts[0] is Partial);
            if dynamic {
                assert(ts[1] is Dynamic);
                assert(ts[2] == TokenModel::Identifier(identifier));
                assert(ts[3] is CloseDelimiter);
                assert(after(tokens, 4) =~= rest);
                assert(parse_tag(ts) == closed(ts, 3, node_of(item)));
            } else {
                assert(ts[1] == TokenModel::Identifier(identifier));
                assert(ts[2] is CloseDelimiter);
                assert(after(tokens, 3) =~= rest);
                assert(parse_tag(ts) == closed(ts, 2, node_of(item)));
            }
        },
        Syntax::Section { identifier, inverted, children, starred } => {
            let body = unparse_from(children, 0);
            lemma_unparse_shaped(children, 0);
            lemma_parse_unparse(children, 0, Seq::empty());
            assert(body + Seq::<TokenModel>::empty() =~= body);
            assert(nodes_from(children, 0) + Seq::<NodeModel>::empty() =~= nodes_from(
                children,
                0,
            ));
            let opener = if inverted {
                Opener::InvertedSection
            } else {
                Opener::Section
            };
            lemma_parse_body_tokens(
                opener,
                identifier,
                false,
                body,
                starred,
                rest,
                nodes_from(children, 0),
            );
        },
        Syntax::Block { identifier, children, starred } => {
            let body = unparse_from(children, 0);
            lemma_unparse_shaped(children, 0);
            lemma_parse_unparse(children, 0, Seq::empty());
            assert(body + Seq::<TokenModel>::empty() =~= body);
            assert(nodes_from(children, 0) + Seq::<NodeModel>::empty() =~= nodes_from(
                children,
                0,
            ));
            lemma_parse_body_tokens(
                Opener::Block,
                identifier,
                false,
                body,
                starred,
                rest,
                nodes_from(children, 0),
            );
        },
        Syntax::Parent { identifier, dynamic, children, starred } => {
            let body = unparse_from(children, 0);
            lemma_unparse_shaped(children, 0);
            lemma_parse_unparse(children, 0, Seq::empty());
            assert(body + Seq::<TokenModel>::empty() =~= body);
            assert(nodes_from(children, 0) + Seq::<NodeModel>::empty() =~= nodes_from(
                children,
                0,
            ));
            lemma_parse_body_tokens(
                Opener::Parent,
                identifier,
                dynamic,
                body,
                starred,
                rest,
                nodes_from(children, 0),
            );
        },
    }
}

/// The tokens of written items that nest, with any tokens behind them,
/// read back as the items' nodes and what the tokens behind them read back
/// as.
pub proof fn lemma_parse_unparse(items: Seq<Syntax>, from: int, rest: Seq<TokenModel>)
    requires
        nest_from(items, from),
    ensures
        parse_items(unparse_from(items, from) + rest) == extend(
            nodes_from(items, from),
            parse_items(rest),
        ),
    decreases items, items.len() - from,
{
    if 0 <= from < items.len() {
        let behind = unparse_from(items, from + 1) + rest;
        lemma_parse_unparse(items, from + 1, rest);
        lemma_parse_item(items[from], behind);
        assert(unparse_from(items, from) + rest =~= unparse_item(items[from]) + behind);
        match parse_items(rest) {
            Ok(nodes) => {
                let later = nodes_from(items, from + 1);
                match node_of(items[from]) {
                    Some(node) => {
                        assert(seq![node] + (later + nodes) =~= (seq![node] + later) + nodes);
                    },
                    None => {},
                }
            },
            Err(_) => {},
        }
    } else {
        assert(unparse_from(items, from) + rest =~= rest);
        match parse_items(rest) {
            Ok(nodes) => {
                assert(Seq::<NodeModel>::empty() + nodes =~= nodes);
            },
            Err(_) => {},
        }
    }
}

/// Balanced templates parse. A stream that is the written form of a tree
/// of items, with or without `EOF` behind it, has the nodes of that tree,
/// as long as no tag with a body holds a closing tag of its own name
/// inside that body.
pub proof fn lemma_balanced_parses(items: Seq<Syntax>)
    requires
        nest_from(items, 0),
    ensures
        parse_spec(unparse(items)) == Ok::<Seq<NodeModel>, ParserErrorModel>(nodes_of(items)),
        parse_spec(unparse(items) + seq![TokenModel::EOF]) == Ok::<
            Seq<NodeModel>,
            ParserErrorModel,
        >(nodes_of(items)),
{
    lemma_parse_unparse(items, 0, Seq::empty());
    lemma_parse_unparse(items, 0, seq![TokenModel::EOF]);
    assert(unparse(items) + Seq::<TokenModel>::empty() =~= unparse(items));
    assert(nodes_of(items) + Seq::<NodeModel>::empty() =~= nodes_of(items));
    assert(seq![TokenModel::EOF][0] is EOF);
}

/// Unbalanced templates are refused. Behind any balanced items, the
/// opening tag of a section, a block or a parent that no closing tag for
/// its name follows before the stream ends gives `UnclosedSection` with
/// that name.
pub proof fn lemma_unclosed_is_refused(
    items: Seq<Syntax>,
    opener: Opener,
    identifier: Seq<char>,
    dynamic: bool,
    rest: Seq<TokenModel>,
)
    requires
        nest_from(items, 0),
        dynamic ==> opener is Parent,
        find_close(rest, 0, identifier) is None,
    ensures
        parse_spec(
            unparse(items) + tag_tokens(seq![sigil(opener)] + name_tokens(identifier, dynamic))
                + rest,
        ) == Err::<Seq<NodeModel>, ParserErrorModel>(
            ParserErrorModel::UnclosedSection(identifier),
        ),
{
    let opening = tag_tokens(seq![sigil(opener)] + name_tokens(identifier, dynamic));
    let tokens = opening + rest;
    let ts = tokens.skip(1);
    let at = 1 + name_len(dynamic);
    lemma_parse_unparse(items, 0, tokens);
    assert(unparse(items) + opening + rest =~= unparse(items) + tokens);
    assert(tokens[0] is OpenDelimiter);
    assert(ts[0] == sigil(opener));
    if dynamic {
        assert(ts[1] is Dynamic);
        assert(ts[2] == TokenModel::Identifier(identifier));
    } else {
        assert(ts[1] == TokenModel::Identifier(identifier));
    }
    assert(ts[at] is CloseDelimiter);
    assert(ts.skip(at + 1) =~= rest);
    lemma_find_close_shift(ts, at + 1, 0, identifier);
    let name = Name { identifier, dynamic, len: name_len(dynamic) };
    assert(parse_tag(ts) == parse_body(ts, opener, name));
}

/// A search in what stands behind the first `shift` tokens finds what the
/// search in all tokens finds from `shift` on.
pub proof fn lemma_find_close_shift(
    tokens: Seq<TokenModel>,
    shift: int,
    from: int,
    identifier: Seq<char>,
)
    requires
        0 <= shift <= tokens.len(),
        0 <= from,
    ensures
        find_close(tokens, shift + from, identifier) == match find_close(
            tokens.skip(shift),
            from,
            identifier,
        ) {
            Some(end) => Some(shift + end),
            None => None,
        },
    decreases tokens.len() - shift - from,
{
    let behind = tokens.skip(shift);
    if from < behind.len() {
        assert(behind[from] == tokens[shift + from]);
        if from + 1 < behind.len() {
            assert(behind[from + 1] == tokens[shift + from + 1]);
        }
        if from + 2 < behind.len() {
            assert(behind[from + 2] == tokens[shift + from + 2]);
        }
        assert(closes_at(behind, from, identifier) == closes_at(
            tokens,
            shift + from,
            identifier,
        ));
        if !(behind[from] is EOF) && !closes_at(behind, from, identifier) {
            lemma_find_close_shift(tokens, shift, from + 1, identifier);
        }
    }
}

} // verus!

verus! {

/// Whether `node` and every node below it that has a body has a closing
/// tag for its name in `tokens`.
pub open spec fn closed_in(node: NodeModel, tokens: Seq<TokenModel>) -> bool
    decreases node,
{
    match node {
        NodeModel::Section { identifier, children, .. } => has_close(tokens, identifier)
            && forall|i: int|
            0 <= i < children.len() ==> closed_in(#[trigger] children[i], tokens),
        NodeModel::Block { identifier, children } => has_close(tokens, identifier) && forall|
            i: int,
        |
            0 <= i < children.len() ==> closed_in(#[trigger] children[i], tokens),
        NodeModel::Parent { identifier, children, .. } => has_close(tokens, identifier)
            && forall|i: int|
            0 <= i < children.len() ==> closed_in(#[trigger] children[i], tokens),
        _ => true,
    }
}

/// Whether every node of `nodes` is closed in `tokens`.
pub open spec fn all_closed_in(nodes: Seq<NodeModel>, tokens: Seq<TokenModel>) -> bool {
    forall|i: int| 0 <= i < nodes.len() ==> closed_in(#[trigger] nodes[i], tokens)
}

/// Whether `inner` stands in `outer` from index `shift` on.
pub open spec fn part_of(inner: Seq<TokenModel>, outer: Seq<TokenModel>, shift: int) -> bool {
    &&& 0 <= shift
    &&& shift + inner.len() <= outer.len()
    &&& forall|i: int| 0 <= i < inner.len() ==> #[trigger] inner[i] == outer[shift + i]
}

/// A closing tag in a part of a stream is a closing tag in the stream.
pub proof fn lemma_has_close_part(
    inner: Seq<TokenModel>,
    outer: Seq<TokenModel>,
    shift: int,
    identifier: Seq<char>,
)
    requires
        part_of(inner, outer, shift),
        has_close(inner, identifier),
    ensures
        has_close(outer, identifier),
{
    let at = choose|at: int| closes_at(inner, at, identifier);
    assert(inner[at] == outer[shift + at]);
    assert(inner[at + 1] == outer[shift + (at + 1)]);
    if inner[at + 1] is Dynamic && at + 2 < inner.len() {
        assert(inner[at + 2] == outer[shift + (at + 2)]);
    }
    assert(closes_at(outer, shift + at, identifier));
}

/// A node that is closed in a part of a stream is closed in the stream.
pub proof fn lemma_closed_in_part(
    node: NodeModel,
    inner: Seq<TokenModel>,
    outer: Seq<TokenModel>,
    shift: int,
)
    requires
        part_of(inner, outer, shift),
        closed_in(node, inner),
    ensures
        closed_in(node, outer),
    decreases node,
{
    match node {
        NodeModel::Section { identifier, children, .. } => {
            lemma_has_close_part(inner, outer, shift, identifier);
            assert forall|i: int| 0 <= i < children.len() implies closed_in(
                #[trigger] children[i],
                outer,
            ) by {
                lemma_closed_in_part(children[i], inner, outer, shift);
            }
        },
        NodeModel::Block { identifier, children } => {
            lemma_has_close_part(inner, outer, shift, identifier);
            assert forall|i: int| 0 <= i < children.len() implies closed_in(
                #[trigger] children[i],
                outer,
            ) by {
                lemma_closed_in_part(children[i], inner, outer, shift);
            }
        },
        NodeModel::Parent { identifier, children, .. } => {
            lemma_has_close_part(inner, outer, shift, identifier);
            assert forall|i: int| 0 <= i < children.len() implies closed_in(
                #[trigger] children[i],
                outer,
            ) by {
                lemma_closed_in_part(children[i], inner, outer, shift);
            }
        },
        _ => {},
    }
}

/// Nodes that are closed in a part of a stream are closed in the stream.
pub proof fn lemma_all_closed_in_part(
    nodes: Seq<NodeModel>,
    inner: Seq<TokenModel>,
    outer: Seq<TokenModel>,
    shift: int,
)
    requires
        part_of(inner, outer, shift),
        all_closed_in(nodes, inner),
    ensures
        all_closed_in(nodes, outer),
{
    assert forall|i: int| 0 <= i < nodes.len() implies closed_in(#[trigger] nodes[i], outer) by {
        lemma_closed_in_part(nodes[i], inner, outer, shift);
    }
}

/// Every section has its closing tag. Where a stream has a tree, each
/// section, block and parent of the tree, at any depth, has a closing tag
/// for its name in the stream.
pub proof fn lemma_sections_are_closed(tokens: Seq<TokenModel>)
    ensures
        parse_items(tokens) matches Ok(nodes) ==> all_closed_in(nodes, tokens),
    decreases tokens.len(), 2nat,
{
    if tokens.len() > 0 {
        let behind = tokens.skip(1);
        match tokens[0] {
            TokenModel::Text(text) => {
                lemma_sections_are_closed(behind);
                if let Ok(later) = parse_items(behind) {
                    assert(part_of(behind, tokens, 1));
                    lemma_all_closed_in_part(later, behind, tokens, 1);
                    let nodes = seq![NodeModel::Text(text)] + later;
                    assert forall|i: int| 0 <= i < nodes.len() implies closed_in(
                        #[trigger] nodes[i],
                        tokens,
                    ) by {
                        if i > 0 {
                            assert(nodes[i] == later[i - 1]);
                        }
                    }
                }
            },
            TokenModel::OpenDelimiter => {
                lemma_tag_is_closed(behind);
                if let Ok(tag) = parse_tag(behind) {
                    let rest = after(tokens, tag.len);
                    lemma_sections_are_closed(rest);
                    if let Ok(later) = parse_items(rest) {
                        assert(part_of(rest, tokens, tag.len + 1));
                        lemma_all_closed_in_part(later, rest, tokens, tag.len + 1);
                        assert(part_of(behind, tokens, 1));
                        match tag.node {
                            Some(node) => {
                                lemma_closed_in_part(node, behind, tokens, 1);
                                let nodes = seq![node] + later;
                                assert forall|i: int| 0 <= i < nodes.len() implies closed_in(
                                    #[trigger] nodes[i],
                                    tokens,
                                ) by {
                                    if i > 0 {
                                        assert(nodes[i] == later[i - 1]);
                                    }
                                }
                            },
                            None => {},
                        }
                    }
                }
            },
            _ => {},
        }
    }
}

/// A tag that is read takes tokens of the stream, and its node is closed
/// in the stream.
pub proof fn lemma_tag_is_closed(tokens: Seq<TokenModel>)
    ensures
        parse_tag(tokens) matches Ok(tag) ==> 1 <= tag.len <= tokens.len() && (tag.node matches Some(
            node,
        ) ==> closed_in(node, tokens)),
    decreases tokens.len(), 1nat,
{
    if tokens.len() > 0 {
        match tokens[0] {
            TokenModel::Section => {
                if let Ok(identifier) = plain_name(tokens, 1) {
                    lemma_body_is_closed(
                        tokens,
                        Opener::Section,
                        Name { identifier, dynamic: false, len: name_len(false) },
                    );
                }
            },
            TokenModel::InvertedSection => {
                if let Ok(identifier) = plain_name(tokens, 1) {
                    lemma_body_is_closed(
                        tokens,
                        Opener::InvertedSection,
                        Name { identifier, dynamic: false, len: name_len(false) },
                    );
                }
            },
            TokenModel::Block => {
                if let Ok(identifier) = plain_name(tokens, 1) {
                    lemma_body_is_closed(
                        tokens,
                        Opener::Block,
                        Name { identifier, dynamic: false, len: name_len(false) },
                    );
                }
            },
            TokenModel::Parent => {
                if let Ok(name) = dynamic_name(tokens, 1) {
                    lemma_body_is_closed(tokens, Opener::Parent, name);
                }
            },
            _ => {},
        }
    }
}

/// A tag with a body that is read takes tokens of the stream, and its node
/// is closed in the stream.
proof fn lemma_body_is_closed(tokens: Seq<TokenModel>, opener: Opener, name: Name)
    requires
        1 <= name.len <= 2,
        tokens.len() > 0,
    ensures
        parse_body(tokens, opener, name) matches Ok(tag) ==> 1 <= tag.len <= tokens.len()
            && (tag.node matches Some(node) ==> closed_in(node, tokens)),
    decreases tokens.len(), 0nat,
{
    let at = 1 + name.len;
    if 0 <= at < tokens.len() && tokens[at] is CloseDelimiter {
        lemma_find_close_bounds(tokens, at + 1, name.identifier);
        if let Some(end) = find_close(tokens, at + 1, name.identifier) {
            let body = body_of(tokens, at + 1, end);
            lemma_sections_are_closed(body);
            if let Ok(children) = parse_items(body) {
                assert(part_of(body, tokens, at + 1));
                lemma_all_closed_in_part(children, body, tokens, at + 1);
                assert(has_close(tokens, name.identifier));
                assert(closed_in(body_node(opener, name, children), tokens));
            }
        }
    }
}

} // verus!

verus! {

/// The texts of the text tokens of a stream, in order.
pub open spec fn texts(tokens: Seq<TokenModel>) -> Seq<Seq<char>>
    decreases tokens.len(),
{
    if tokens.len() == 0 {
        Seq::empty()
    } else {
        match tokens.last() {
            TokenModel::Text(text) => texts(tokens.drop_last()).push(text),
            _ => texts(tokens.drop_last()),
        }
    }
}

/// The texts of the text nodes in and below `node`, in the order of the
/// template.
pub open spec fn leaves(node: NodeModel) -> Seq<Seq<char>>
    decreases node, 0nat,
{
    match node {
        NodeModel::Text(text) => seq![text],
        NodeModel::Section { children, .. } => leaves_of(children, children.len()),
        NodeModel::Block { children, .. } => leaves_of(children, children.len()),
        NodeModel::Parent { children, .. } => leaves_of(children, children.len()),
        _ => Seq::empty(),
    }
}

/// The texts of the text nodes in and below the first `count` of `nodes`.
pub open spec fn leaves_of(nodes: Seq<NodeModel>, count: nat) -> Seq<Seq<char>>
    decreases nodes, count,
{
    if count == 0 || count > nodes.len() {
        Seq::empty()
    } else {
        leaves_of(nodes, (count - 1) as nat) + leaves(nodes[count - 1])
    }
}

/// The texts of two streams, one after the other.
pub proof fn lemma_texts_concat(first: Seq<TokenModel>, second: Seq<TokenModel>)
    ensures
        texts(first + second) == texts(first) + texts(second),
    decreases second.len(),
{
    if second.len() == 0 {
        assert(first + second =~= first);
        assert(texts(first) + texts(second) =~= texts(first));
    } else {
        lemma_texts_concat(first, second.drop_last());
        assert((first + second).drop_last() =~= first + second.drop_last());
        assert((first + second).last() == second.last());
        match second.last() {
            TokenModel::Text(text) => {
                assert(texts(first + second) =~= texts(first) + texts(second));
            },
            _ => {},
        }
    }
}

/// A stream without text tokens has no texts.
pub proof fn lemma_texts_none(tokens: Seq<TokenModel>)
    requires
        forall|i: int| 0 <= i < tokens.len() ==> !(#[trigger] tokens[i] is Text),
    ensures
        texts(tokens) == Seq::<Seq<char>>::empty(),
    decreases tokens.len(),
{
    if tokens.len() > 0 {
        lemma_texts_none(tokens.drop_last());
    }
}

/// The text nodes of two lists of nodes, one after the other.
pub proof fn lemma_leaves_concat(first: Seq<NodeModel>, second: Seq<NodeModel>, count: nat)
    requires
        count <= second.len(),
    ensures
        leaves_of(first + second, first.len() + count) == leaves_of(first, first.len())
            + leaves_of(second, count),
    decreases count,
{
    let both = first + second;
    if count == 0 {
        lemma_leaves_prefix(first, both, first.len());
        assert(leaves_of(first, first.len()) + Seq::<Seq<char>>::empty() =~= leaves_of(
            first,
            first.len(),
        ));
    } else {
        lemma_leaves_concat(first, second, (count - 1) as nat);
        assert(both[first.len() + count - 1] == second[count - 1]);
        assert(leaves_of(first, first.len()) + (leaves_of(second, (count - 1) as nat) + leaves(
            second[count - 1],
        )) =~= (leaves_of(first, first.len()) + leaves_of(second, (count - 1) as nat)) + leaves(
            second[count - 1],
        ));
    }
}

/// The text nodes of the first nodes of a list depend on those nodes only.
pub proof fn lemma_leaves_prefix(first: Seq<NodeModel>, both: Seq<NodeModel>, count: nat)
    requires
        count <= first.len() <= both.len(),
        forall|i: int| 0 <= i < first.len() ==> first[i] == both[i],
    ensures
        leaves_of(both, count) == leaves_of(first, count),
    decreases count,
{
    if count > 0 {
        lemma_leaves_prefix(first, both, (count - 1) as nat);
    }
}

/// One text node for each text token. The text nodes of the tree of a
/// balanced template are the text tokens of its stream, one for one and in
/// order.
pub proof fn lemma_text_nodes_are_text_tokens(items: Seq<Syntax>, from: int)
    ensures
        leaves_of(nodes_from(items, from), nodes_from(items, from).len()) == texts(
            unparse_from(items, from),
        ),
    decreases items, items.len() - from,
{
    if 0 <= from < items.len() {
        let item = items[from];
        let later = nodes_from(items, from + 1);
        lemma_text_nodes_are_text_tokens(items, from + 1);
        lemma_item_text_nodes(item);
        lemma_texts_concat(unparse_item(item), unparse_from(items, from + 1));
        match node_of(item) {
            Some(node) => {
                lemma_leaves_concat(seq![node], later, later.len());
                assert(leaves_of(seq![node], 1) =~= leaves(node)) by {
                    assert(leaves_of(seq![node], 0) =~= Seq::<Seq<char>>::empty());
                }
            },
            None => {
                assert(Seq::<Seq<char>>::empty() + texts(unparse_from(items, from + 1)) =~= texts(
                    unparse_from(items, from + 1),
                ));
            },
        }
    }
}

/// The text nodes of the node of one written item are the text tokens of
/// the item.
pub proof fn lemma_item_text_nodes(item: Syntax)
    ensures
        texts(unparse_item(item)) == match node_of(item) {
            Some(node) => leaves(node),
            None => Seq::empty(),
        },
    decreases item, 0nat,
{
    match item {
        Syntax::Text(text) => {
            let tokens = seq![TokenModel::Text(text)];
            assert(tokens.last() == TokenModel::Text(text));
            assert(tokens.drop_last().len() == 0);
            assert(texts(tokens.drop_last()) =~= Seq::<Seq<char>>::empty());
            assert(texts(tokens) == texts(tokens.drop_last()).push(text));
            assert(texts(tokens) =~= seq![text]);
        },
        Syntax::Section { identifier, inverted, children, starred } => {
            let sigil = if inverted {
                TokenModel::InvertedSection
            } else {
                TokenModel::Section
            };
            lemma_text_nodes_are_text_tokens(children, 0);
            lemma_body_texts(sigil, identifier, false, unparse_from(children, 0), starred);
        },
        Syntax::Block { identifier, children, starred } => {
            lemma_text_nodes_are_text_tokens(children, 0);
            lemma_body_texts(
                TokenModel::Block,
                identifier,
                false,
                unparse_from(children, 0),
                starred,
            );
        },
        Syntax::Parent { identifier, dynamic, children, starred } => {
            lemma_text_nodes_are_text_tokens(children, 0);
            lemma_body_texts(
                TokenModel::Parent,
                identifier,
                dynamic,
                unparse_from(children, 0),
                starred,
            );
        },
        _ => {
            lemma_texts_none(unparse_item(item));
        },
    }
}

/// The text tokens of a tag with a body are those of the body.
pub proof fn lemma_body_texts(
    sigil: TokenModel,
    identifier: Seq<char>,
    dynamic: bool,
    body: Seq<TokenModel>,
    starred: bool,
)
    requires
        !(sigil is Text),
    ensures
        texts(body_tokens(sigil, identifier, dynamic, body, starred)) == texts(body),
{
    let opening = tag_tokens(seq![sigil] + name_tokens(identifier, dynamic));
    let closing = closing_tokens(identifier, starred);
    lemma_texts_none(opening);
    lemma_texts_none(closing);
    lemma_texts_concat(opening, body);
    lemma_texts_concat(opening + body, closing);
    assert(Seq::<Seq<char>>::empty() + texts(body) =~= texts(body));
    assert(texts(body) + Seq::<Seq<char>>::empty() =~= texts(body));
}

} // verus!
