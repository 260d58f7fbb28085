//! What holds of every parse.

use vstd::prelude::*;
use crate::parser::decimal::num_value;
use crate::parser::lex::{TokenType, TokenView};
use crate::parser::lex_laws::lemma_lex_reports_once;
use crate::parser::lex_model::{
    in_class, lemma_run_end_is, lex_from, lex_outcome, token_at, token_of, word_kind, ByteClass,
    LOWER_A, LOWER_D, LOWER_T, LOWER_W, SPACE, UPPER_A, UPPER_D,
};
use crate::parser::parse_model::{
    dat_statement, dat_statement_tokens, dat_tree, data_step, declaration_at, declaration_trees,
    declarations_from, is_declaration, kind_at, msg_for, num_step, parse_outcome, statements_from,
    well_formed, Tree,
};
use crate::util::error_log::{Msg, MsgType};

verus! {

/// The statement loop yields statements exactly if it reports nothing. It
/// reports one diagnostic at most and never a fault of the parser itself,
/// and each statement it yields is a complete declaration.
pub proof fn lemma_statements_shape(tokens: Seq<TokenView>, i: int)
    requires
        0 <= i,
    ensures
        ({
            let outcome = statements_from(tokens, i);
            &&& outcome.statements is Some <==> outcome.msgs.len() == 0
            &&& outcome.msgs.len() <= 1
            &&& forall|k: int|
                0 <= k < outcome.msgs.len() ==> !(#[trigger] outcome.msgs[k]).typ.internal()
            &&& outcome.statements matches Some(statements) ==> forall|k: int|
                0 <= k < statements.len() ==> is_declaration(#[trigger] statements[k])
        }),
    decreases tokens.len() - i,
{
    if i < tokens.len() && tokens[i].typ == TokenType::Dat {
        let first = data_step(tokens, i);
        if let Some(node) = first.node {
            let width = num_step(tokens, i + 2);
            let value = num_step(tokens, i + 3);
            assert(node == dat_tree(width.node->0->Num_value, value.node->0->Num_value));
            lemma_statements_shape(tokens, first.next);
            let rest = statements_from(tokens, first.next);
            assert(first.msgs =~= Seq::<Msg>::empty());
            assert(first.msgs + rest.msgs =~= rest.msgs);
            if let Some(others) = rest.statements {
                let statements = seq![node] + others;
                assert forall|k: int| 0 <= k < statements.len() implies is_declaration(
                    #[trigger] statements[k],
                ) by {
                    if k > 0 {
                        assert(statements[k] == others[k - 1]);
                    }
                }
            }
        }
    }
}

/// The grammar, stated outright: the statement loop yields statements
/// exactly for tokens that are complete declarations one after the other,
/// and then it yields their trees in order and consumes every token.
pub proof fn lemma_parse_accepts_declarations(tokens: Seq<TokenView>, i: int)
    requires
        0 <= i,
    ensures
        statements_from(tokens, i).statements is Some <==> declarations_from(tokens, i),
        declarations_from(tokens, i) ==> {
            &&& statements_from(tokens, i).statements == Some(declaration_trees(tokens, i))
            &&& statements_from(tokens, i).next == if i < tokens.len() {
                tokens.len() as int
            } else {
                i
            }
        },
    decreases tokens.len() - i,
{
    if i < tokens.len() && tokens[i].typ == TokenType::Dat {
        let first = data_step(tokens, i);
        if first.node is Some {
            assert(declaration_at(tokens, i));
            lemma_parse_accepts_declarations(tokens, i + 4);
            if i + 4 >= tokens.len() {
                assert(seq![first.node->0] + Seq::<Tree>::empty() =~= seq![first.node->0]
                    + declaration_trees(tokens, i + 4));
            }
        }
    }
}

/// A token that starts no statement, met where a statement is due, is
/// reported where it stands. It is not consumed, and there are no
/// statements.
pub proof fn lemma_wrong_leading_token(tokens: Seq<TokenView>, i: int)
    requires
        0 <= i < tokens.len(),
        tokens[i].typ != TokenType::Dat,
    ensures
        statements_from(tokens, i).statements is None,
        statements_from(tokens, i).msgs == seq![
            msg_for(tokens, MsgType::ParseWrongTokenInRootParse, i),
        ],
        statements_from(tokens, i).next == i,
{
}

/// A declaration that breaks off behind its first literal lacks one
/// literal, not two: that is what is reported, at the cursor behind the
/// literal, and there are no statements.
pub proof fn lemma_one_literal_missing(tokens: Seq<TokenView>, i: int)
    requires
        0 <= i,
        i + 2 < tokens.len(),
        tokens[i].typ == TokenType::Dat,
        tokens[i + 1].typ == TokenType::W,
        tokens[i + 2].typ == TokenType::Num,
        num_value(tokens[i + 2].lexeme) is Some,
        kind_at(tokens, i + 3) != TokenType::Num,
    ensures
        statements_from(tokens, i).statements is None,
        statements_from(tokens, i).msgs == seq![
            msg_for(tokens, MsgType::ParseDatStatementMissingNum { missing_count: 1 }, i + 3),
        ],
        statements_from(tokens, i).next == i + 3,
{
    let first = data_step(tokens, i);
    assert(first.msgs =~= seq![
        msg_for(tokens, MsgType::ParseDatStatementMissingNum { missing_count: 1 }, i + 3),
    ]);
}

/// The pipeline yields a tree exactly if it reports nothing, and the tree is
/// well formed. It reports one diagnostic at most, and never a fault of its
/// own.
pub proof fn lemma_parse_outcome_shape(s: Seq<u8>)
    ensures
        ({
            let outcome = parse_outcome(s);
            &&& outcome.root is Some <==> outcome.msgs.len() == 0
            &&& outcome.msgs.len() <= 1
            &&& forall|k: int|
                0 <= k < outcome.msgs.len() ==> !(#[trigger] outcome.msgs[k]).typ.internal()
            &&& outcome.root matches Some(tree) ==> well_formed(tree)
        }),
{
    let lexed = lex_outcome(s);
    lemma_lex_reports_once(s);
    lemma_statements_shape(lexed.tokens, 0);
}

/// The pipeline is a function of the bytes alone. `parse_from_bytes` returns
/// the tree, the log and the tokens of `parse_outcome` for the bytes of its
/// input, so two runs on inputs that agree byte for byte return the same
/// tree, the same log and the same tokens.
pub proof fn lemma_parse_deterministic(a: Seq<u8>, b: Seq<u8>)
    requires
        a.len() == b.len(),
        forall|i: int| 0 <= i < a.len() ==> a[i] == b[i],
    ensures
        parse_outcome(a) == parse_outcome(b),
{
    assert(a =~= b);
}

/// Four tokens `Dat`, `W`, `Num`, `Num` whose literals decode make one
/// declaration of the decoded width and value, and nothing is reported.
pub proof fn lemma_four_tokens_parse(tokens: Seq<TokenView>, width: u32, value: u32)
    requires
        tokens.len() == 4,
        tokens[0].typ == TokenType::Dat,
        tokens[1].typ == TokenType::W,
        tokens[2].typ == TokenType::Num,
        tokens[3].typ == TokenType::Num,
        num_value(tokens[2].lexeme) == Some(width),
        num_value(tokens[3].lexeme) == Some(value),
    ensures
        statements_from(tokens, 0).statements == Some(seq![dat_tree(width, value)]),
        statements_from(tokens, 0).msgs == Seq::<Msg>::empty(),
{
    let first = data_step(tokens, 0);
    assert(first.node == Some(dat_tree(width, value)));
    assert(first.msgs =~= Seq::<Msg>::empty());
    let rest = statements_from(tokens, 4);
    assert(rest.statements == Some(Seq::<Tree>::empty()));
    assert(seq![dat_tree(width, value)] + Seq::<Tree>::empty() =~= seq![dat_tree(width, value)]);
    assert(first.msgs + rest.msgs =~= Seq::<Msg>::empty());
}

/// A statement `dat w <n1> <n2>` whose literals are unsigned decimal numbers
/// of 32 bits parses to a root with the one declaration of that width and
/// value, and nothing is reported. Its tokens are the four elements.
pub proof fn lemma_dat_statement_parses(n1: Seq<u8>, n2: Seq<u8>)
    requires
        num_value(n1) is Some,
        num_value(n2) is Some,
    ensures
        parse_outcome(dat_statement(n1, n2)).root == Some(
            Tree::Root { statements: seq![dat_tree(num_value(n1)->0, num_value(n2)->0)] },
        ),
        parse_outcome(dat_statement(n1, n2)).msgs == Seq::<Msg>::empty(),
        parse_outcome(dat_statement(n1, n2)).tokens == dat_statement_tokens(n1, n2),
{
    let s = dat_statement(n1, n2);
    let b = 6 + n1.len() as int;
    let c = b + 1;
    let e = c + n2.len() as int;
    assert(s.len() == e);
    assert(s[0] == LOWER_D && s[1] == LOWER_A && s[2] == LOWER_T && s[3] == SPACE);
    assert(s[4] == LOWER_W && s[5] == SPACE && s[b] == SPACE);
    assert forall|x: int| 6 <= x < b implies s[x] == n1[x - 6] by {}
    assert forall|x: int| c <= x < e implies s[x] == n2[x - c] by {}
    assert(s[6] == n1[0]);
    assert(s[c] == n2[0]);

    // dat
    lemma_run_end_is(s, 0, 0, ByteClass::Space);
    lemma_run_end_is(s, 1, 3, ByteClass::IdentTail);
    assert(s.subrange(0, 3) =~= seq![LOWER_D, LOWER_A, LOWER_T]);
    lemma_run_end_is(s, 3, 4, ByteClass::Space);
    let t0 = token_of(s, TokenType::Dat, 0, 3);
    assert(token_at(s, 0) == Some((TokenType::Dat, 3int)));
    // w
    lemma_run_end_is(s, 5, 5, ByteClass::IdentTail);
    assert(s.subrange(4, 5) =~= seq![LOWER_W]);
    assert(seq![LOWER_D, LOWER_A, LOWER_T].len() == 3);
    assert(seq![UPPER_A, UPPER_D, UPPER_D].len() == 3);
    assert(word_kind(s.subrange(4, 5)) == TokenType::W);
    lemma_run_end_is(s, 5, 6, ByteClass::Space);
    let t1 = token_of(s, TokenType::W, 4, 5);
    assert(token_at(s, 4) == Some((TokenType::W, 5int)));
    // first literal
    assert forall|x: int| 7 <= x < b implies in_class(ByteClass::Digit, #[trigger] s[x]) by {
        assert(s[x] == n1[x - 6]);
    }
    lemma_run_end_is(s, 7, b, ByteClass::Digit);
    lemma_run_end_is(s, b, c, ByteClass::Space);
    let t2 = token_of(s, TokenType::Num, 6, b);
    assert(token_at(s, 6) == Some((TokenType::Num, b)));
    assert(s.subrange(6, b) =~= n1);
    // second literal
    assert forall|x: int| c + 1 <= x < e implies in_class(ByteClass::Digit, #[trigger] s[x]) by {
        assert(s[x] == n2[x - c]);
    }
    lemma_run_end_is(s, c + 1, e, ByteClass::Digit);
    lemma_run_end_is(s, e, e, ByteClass::Space);
    let t3 = token_of(s, TokenType::Num, c, e);
    assert(token_at(s, c) == Some((TokenType::Num, e)));
    assert(s.subrange(c, e) =~= n2);

    // the token stream, from its end back to its start
    assert(lex_from(s, e).tokens == Seq::<TokenView>::empty());
    assert(lex_from(s, c).tokens =~= seq![t3]);
    assert(lex_from(s, c).msgs == Seq::<Msg>::empty());
    assert(lex_from(s, 6).tokens =~= seq![t2, t3]);
    assert(lex_from(s, 6).msgs == Seq::<Msg>::empty());
    assert(lex_from(s, 4).tokens =~= seq![t1, t2, t3]);
    assert(lex_from(s, 4).msgs == Seq::<Msg>::empty());
    assert(lex_from(s, 0).tokens =~= seq![t0, t1, t2, t3]);
    assert(lex_from(s, 0).msgs == Seq::<Msg>::empty());

    lemma_four_tokens_parse(lex_outcome(s).tokens, num_value(n1)->0, num_value(n2)->0);
}

} // verus!
