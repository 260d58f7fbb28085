//! The grammar's model: the syntax tree and the diagnostics that a token
//! sequence denotes.

use vstd::prelude::*;
use crate::parser::decimal::num_value;
use crate::parser::lex::{TokenType, TokenView};
use crate::parser::lex_model::{lex_outcome, token_of, LOWER_A, LOWER_D, LOWER_T, LOWER_W, SPACE};
use crate::util::error_log::{Msg, MsgType};

verus! {

/// A syntax tree as the contracts see it.
#[allow(inconsistent_fields)]
pub enum Tree {
    /// The whole input: its statements in source order.
    Root { statements: Seq<Tree> },
    /// A `dat` declaration.
    Data { width: Box<Tree>, value: Box<Tree> },
    /// A numeric literal.
    Num { value: u32 },
}

/// The tree of a `dat` declaration of the given width and value.
pub open spec fn dat_tree(width: u32, value: u32) -> Tree {
    Tree::Data {
        width: Box::new(Tree::Num { value: width }),
        value: Box::new(Tree::Num { value }),
    }
}

/// Whether `tree` is a `dat` declaration with both children in place, each
/// a numeric literal.
pub open spec fn is_declaration(tree: Tree) -> bool {
    exists|width: u32, value: u32| tree == dat_tree(width, value)
}

/// Whether `tree` is a root as the grammar builds it: every statement a
/// complete declaration.
pub open spec fn well_formed(tree: Tree) -> bool {
    &&& tree is Root
    &&& forall|k: int|
        0 <= k < tree->statements.len() ==> is_declaration(#[trigger] tree->statements[k])
}

/// The kind of the token at index `i`, or `Eof` behind the last token.
pub open spec fn kind_at(tokens: Seq<TokenView>, i: int) -> TokenType {
    if 0 <= i < tokens.len() {
        tokens[i].typ
    } else {
        TokenType::Eof
    }
}

/// The diagnostic of kind `typ` for a cursor at index `i`.
///
/// It carries the position of the token under the cursor. Behind the last
/// token it carries the position of that last token, and with no token at
/// all the start of the source.
pub open spec fn msg_for(tokens: Seq<TokenView>, typ: MsgType, i: int) -> Msg {
    if 0 <= i < tokens.len() {
        Msg { typ, offset: tokens[i].offset, row: tokens[i].row, col: tokens[i].col }
    } else if tokens.len() > 0 {
        Msg {
            typ,
            offset: tokens.last().offset,
            row: tokens.last().row,
            col: tokens.last().col,
        }
    } else {
        Msg { typ, offset: 0, row: 0, col: 0 }
    }
}

/// What consuming the token at `i` reports when a token of kind `expected`
/// is due: nothing if the kinds agree, else the parser's own fault.
pub open spec fn consume_msgs(tokens: Seq<TokenView>, i: int, expected: TokenType) -> Seq<Msg> {
    if kind_at(tokens, i) != expected {
        seq![msg_for(tokens, MsgType::ParseConsumedTokenWithoutLookingFirst, i)]
    } else {
        Seq::empty()
    }
}

/// What one grammar production yields: its node if it succeeded, what it
/// reported, and the index at which the cursor came to rest.
pub struct ParseStep {
    pub node: Option<Tree>,
    pub msgs: Seq<Msg>,
    pub next: int,
}

/// The numeric literal rule, with the cursor on the token at `i`.
///
/// The token is consumed as a `Num` and its lexeme decoded. A lexeme that
/// does not decode is reported at the cursor, which by then is behind the
/// token.
pub open spec fn num_step(tokens: Seq<TokenView>, i: int) -> ParseStep
    recommends
        0 <= i < tokens.len(),
{
    let consumed = consume_msgs(tokens, i, TokenType::Num);
    match num_value(tokens[i].lexeme) {
        Some(value) => ParseStep { node: Some(Tree::Num { value }), msgs: consumed, next: i + 1 },
        None => ParseStep {
            node: None,
            msgs: consumed.push(msg_for(tokens, MsgType::ParseNumHasInvalidLexeme, i + 1)),
            next: i + 1,
        },
    }
}

/// The `dat` rule, with the cursor on the token at `i`: `Dat`, `W`, `Num`,
/// `Num`, strictly in this order.
///
/// The first element that is missing is reported at the cursor and ends the
/// rule without a node: a missing `W`, then both numbers missing, then one.
pub open spec fn data_step(tokens: Seq<TokenView>, i: int) -> ParseStep
    recommends
        0 <= i < tokens.len(),
{
    let consumed = consume_msgs(tokens, i, TokenType::Dat);
    if kind_at(tokens, i + 1) != TokenType::W {
        ParseStep {
            node: None,
            msgs: consumed.push(msg_for(tokens, MsgType::ParseDatStatementMissingWKeyword, i + 1)),
            next: i + 1,
        }
    } else if kind_at(tokens, i + 2) != TokenType::Num {
        ParseStep {
            node: None,
            msgs: consumed.push(
                msg_for(tokens, MsgType::ParseDatStatementMissingNum { missing_count: 2 }, i + 2),
            ),
            next: i + 2,
        }
    } else {
        let width = num_step(tokens, i + 2);
        if width.node is None {
            ParseStep { node: None, msgs: consumed + width.msgs, next: width.next }
        } else if kind_at(tokens, i + 3) != TokenType::Num {
            ParseStep {
                node: None,
                msgs: (consumed + width.msgs).push(
                    msg_for(
                        tokens,
                        MsgType::ParseDatStatementMissingNum { missing_count: 1 },
                        i + 3,
                    ),
                ),
                next: i + 3,
            }
        } else {
            let value = num_step(tokens, i + 3);
            ParseStep {
                node: match value.node {
                    Some(v) => Some(
                        Tree::Data { width: Box::new(width.node->0), value: Box::new(v) },
                    ),
                    None => None,
                },
                msgs: consumed + width.msgs + value.msgs,
                next: value.next,
            }
        }
    }
}

/// Whether a complete declaration starts at index `i`: the four tokens
/// `Dat`, `W`, `Num`, `Num`, with literals that decode.
pub open spec fn declaration_at(tokens: Seq<TokenView>, i: int) -> bool {
    &&& 0 <= i
    &&& i + 3 < tokens.len()
    &&& tokens[i].typ == TokenType::Dat
    &&& tokens[i + 1].typ == TokenType::W
    &&& tokens[i + 2].typ == TokenType::Num
    &&& tokens[i + 3].typ == TokenType::Num
    &&& num_value(tokens[i + 2].lexeme) is Some
    &&& num_value(tokens[i + 3].lexeme) is Some
}

/// Whether the tokens from index `i` on are complete declarations, one
/// after the other, and nothing else.
pub open spec fn declarations_from(tokens: Seq<TokenView>, i: int) -> bool
    decreases tokens.len() - i,
{
    i >= tokens.len() || (declaration_at(tokens, i) && declarations_from(tokens, i + 4))
}

/// The trees of the complete declarations that follow one another from
/// index `i` on.
pub open spec fn declaration_trees(tokens: Seq<TokenView>, i: int) -> Seq<Tree>
    decreases tokens.len() - i,
{
    if declaration_at(tokens, i) {
        seq![
            dat_tree(num_value(tokens[i + 2].lexeme)->0, num_value(tokens[i + 3].lexeme)->0),
        ] + declaration_trees(tokens, i + 4)
    } else {
        Seq::empty()
    }
}

/// What the statement loop yields: the statements if all of them parsed,
/// what was reported, and the index at which the cursor came to rest.
pub struct RootOutcome {
    pub statements: Option<Seq<Tree>>,
    pub msgs: Seq<Msg>,
    pub next: int,
}

/// The statement loop, with the cursor on the token at `i`.
///
/// Each statement is chosen by the kind of its first token, which is looked
/// at and not consumed. A kind that starts no statement is reported, and it
/// or a failed statement ends the loop without statements.
pub open spec fn statements_from(tokens: Seq<TokenView>, i: int) -> RootOutcome
    decreases tokens.len() - i,
{
    if i < 0 || i >= tokens.len() {
        RootOutcome { statements: Some(Seq::empty()), msgs: Seq::empty(), next: i }
    } else if tokens[i].typ != TokenType::Dat {
        RootOutcome {
            statements: None,
            msgs: seq![msg_for(tokens, MsgType::ParseWrongTokenInRootParse, i)],
            next: i,
        }
    } else {
        let first = data_step(tokens, i);
        match first.node {
            None => RootOutcome { statements: None, msgs: first.msgs, next: first.next },
            Some(node) => {
                let rest = statements_from(tokens, first.next);
                RootOutcome {
                    statements: match rest.statements {
                        Some(others) => Some(seq![node] + others),
                        None => None,
                    },
                    msgs: first.msgs + rest.msgs,
                    next: rest.next,
                }
            },
        }
    }
}

/// The root that an outcome of the statement loop makes.
pub open spec fn root_of(outcome: RootOutcome) -> Option<Tree> {
    match outcome.statements {
        Some(statements) => Some(Tree::Root { statements }),
        None => None,
    }
}

/// The source text of the statement `dat w <n1> <n2>`, with one space
/// between its elements, for the literals `n1` and `n2`.
pub open spec fn dat_statement(n1: Seq<u8>, n2: Seq<u8>) -> Seq<u8> {
    seq![LOWER_D, LOWER_A, LOWER_T, SPACE, LOWER_W, SPACE] + n1 + seq![SPACE] + n2
}

/// The four tokens of the statement `dat w <n1> <n2>`.
pub open spec fn dat_statement_tokens(n1: Seq<u8>, n2: Seq<u8>) -> Seq<TokenView> {
    let s = dat_statement(n1, n2);
    let first = 6int;
    let second = first + n1.len() + 1;
    seq![
        token_of(s, TokenType::Dat, 0, 3),
        token_of(s, TokenType::W, 4, 5),
        token_of(s, TokenType::Num, first, first + n1.len()),
        token_of(s, TokenType::Num, second, second + n2.len()),
    ]
}

/// What the whole pipeline yields.
pub struct ParseOutcome {
    pub root: Option<Tree>,
    pub msgs: Seq<Msg>,
    pub tokens: Seq<TokenView>,
}

/// The pipeline on the source `s`: tokenize, then parse.
///
/// A diagnostic of the tokenizer ends the run: the parser does not see
/// tokens of a failed tokenization, and there is no tree.
pub open spec fn parse_outcome(s: Seq<u8>) -> ParseOutcome {
    let lexed = lex_outcome(s);
    if lexed.msgs.len() > 0 {
        ParseOutcome { root: None, msgs: lexed.msgs, tokens: lexed.tokens }
    } else {
        let parsed = statements_from(lexed.tokens, 0);
        ParseOutcome { root: root_of(parsed), msgs: parsed.msgs, tokens: lexed.tokens }
    }
}

} // verus!
