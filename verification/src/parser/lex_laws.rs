//! What holds of every tokenization.

use vstd::prelude::*;
use crate::parser::decimal::{all_digits, decimal_value, num_value};
use crate::parser::lex::{TokenType, TokenView};
use crate::parser::lex_model::{
    classified, col_at, in_class, is_ident_char, is_space, known_byte, lemma_position_bounds,
    lemma_run_end_bounds, lemma_run_end_is, lemma_run_end_run, lemma_step_advances,
    lemma_token_at_bounds, lex_from, lex_outcome, lex_step, msg_at, placed, punct_kind, row_at,
    run_end, token_at, token_end, ByteClass, LOWER_A, LOWER_D, LOWER_T,
};
use crate::util::error_log::{Msg, MsgType};

verus! {

/// Input that is nothing but whitespace has no tokens and no diagnostics.
pub proof fn lemma_whitespace_only(s: Seq<u8>)
    requires
        forall|i: int| 0 <= i < s.len() ==> is_space(#[trigger] s[i]),
    ensures
        lex_outcome(s).tokens == Seq::<TokenView>::empty(),
        lex_outcome(s).msgs == Seq::<Msg>::empty(),
{
    lemma_run_end_is(s, 0, s.len() as int, ByteClass::Space);
}

/// Every token sits where it says, and the tokens tile the text: the first
/// one starts at the cursor, and each further one starts right behind the
/// whitespace that follows the one before.
pub proof fn lemma_tokens_placed(s: Seq<u8>, i: int)
    requires
        0 <= i <= s.len() <= usize::MAX,
    ensures
        ({
            let tokens = lex_from(s, i).tokens;
            &&& forall|k: int| 0 <= k < tokens.len() ==> placed(s, #[trigger] tokens[k])
            &&& tokens.len() > 0 ==> tokens[0].offset == i
            &&& forall|k: int|
                0 < k < tokens.len() ==> (#[trigger] tokens[k]).offset == run_end(
                    s,
                    token_end(tokens[k - 1]),
                    ByteClass::Space,
                )
        }),
    decreases s.len() - i,
{
    if i < s.len() {
        let step = lex_step(s, i);
        if step.msgs.len() == 0 {
            lemma_step_advances(s, i);
            lemma_token_at_bounds(s, i);
            lemma_position_bounds(s, i);
            lemma_tokens_placed(s, step.stop);
            let rest = lex_from(s, step.stop).tokens;
            let tokens = lex_from(s, i).tokens;
            assert(tokens == step.tokens + rest);
            assert(placed(s, step.tokens[0]));
            assert forall|k: int| 0 <= k < tokens.len() implies placed(s, #[trigger] tokens[k]) by {
                if k > 0 {
                    assert(tokens[k] == rest[k - 1]);
                }
            }
            assert forall|k: int| 0 < k < tokens.len() implies (#[trigger] tokens[k]).offset
                == run_end(s, token_end(tokens[k - 1]), ByteClass::Space) by {
                assert(tokens[k] == rest[k - 1]);
                if k > 1 {
                    assert(tokens[k - 1] == rest[k - 2]);
                }
            }
        }
    }
}

/// Every token of a text sits where it says.
pub proof fn lemma_lex_positions(s: Seq<u8>)
    requires
        s.len() <= usize::MAX,
    ensures
        forall|k: int|
            0 <= k < lex_outcome(s).tokens.len() ==> placed(s, #[trigger] lex_outcome(s).tokens[k]),
{
    lemma_run_end_bounds(s, 0, ByteClass::Space);
    lemma_tokens_placed(s, run_end(s, 0, ByteClass::Space));
}

/// Every token that a scan yields has the kind of its lexeme.
pub proof fn lemma_tokens_classified(s: Seq<u8>, i: int)
    requires
        0 <= i <= s.len(),
    ensures
        forall|k: int|
            0 <= k < lex_from(s, i).tokens.len() ==> classified(#[trigger] lex_from(s, i).tokens[k]),
    decreases s.len() - i,
{
    if i < s.len() {
        let step = lex_step(s, i);
        if step.msgs.len() == 0 {
            lemma_token_at_bounds(s, i);
            let (_, end) = token_at(s, i)->0;
            let lexeme = s.subrange(i, end);
            if punct_kind(s[i]) is None {
                let class = if is_ident_char(s[i], true) {
                    ByteClass::IdentTail
                } else {
                    ByteClass::Digit
                };
                lemma_run_end_run(s, i + 1, class);
                assert forall|x: int| 1 <= x < end - i implies in_class(
                    class,
                    #[trigger] lexeme[x],
                ) by {
                    assert(lexeme[x] == s[i + x]);
                }
                lemma_run_end_is(lexeme, 1, end - i, class);
                assert(lexeme.subrange(0, end - i) == lexeme);
            }
            assert(classified(step.tokens[0]));
            lemma_step_advances(s, i);
            lemma_tokens_classified(s, step.stop);
            let rest = lex_from(s, step.stop).tokens;
            let tokens = lex_from(s, i).tokens;
            assert forall|k: int| 0 <= k < tokens.len() implies classified(
                #[trigger] tokens[k],
            ) by {
                if k > 0 {
                    assert(tokens[k] == rest[k - 1]);
                }
            }
        }
    }
}

/// Every token of a text has the kind of its lexeme, and none is the end
/// marker: the token stream ends by exhaustion.
pub proof fn lemma_lex_classifies(s: Seq<u8>)
    ensures
        forall|k: int|
            0 <= k < lex_outcome(s).tokens.len() ==> classified(#[trigger] lex_outcome(s).tokens[k])
                && lex_outcome(s).tokens[k].typ != TokenType::Eof,
{
    lemma_run_end_bounds(s, 0, ByteClass::Space);
    lemma_tokens_classified(s, run_end(s, 0, ByteClass::Space));
}

/// The lexeme of a numeric token is a run of digits, so it decodes unless it
/// writes a number beyond 32 bits.
pub proof fn lemma_num_token_decodes(t: TokenView)
    requires
        classified(t),
        t.typ == TokenType::Num,
    ensures
        all_digits(t.lexeme),
        num_value(t.lexeme) is None <==> decimal_value(t.lexeme) > u32::MAX,
{
    lemma_run_end_run(t.lexeme, 1, ByteClass::Digit);
    assert(t.lexeme.len() > 0);
    assert(seq![LOWER_D, LOWER_A, LOWER_T].len() == 3);
}

/// A scan reports one diagnostic at most, and never a fault of the pipeline
/// itself.
pub proof fn lemma_lex_from_reports_once(s: Seq<u8>, i: int)
    ensures
        lex_from(s, i).msgs.len() <= 1,
        forall|k: int|
            0 <= k < lex_from(s, i).msgs.len() ==> !(#[trigger] lex_from(s, i).msgs[k]).typ.internal(),
    decreases s.len() - i,
{
    if 0 <= i < s.len() {
        let step = lex_step(s, i);
        if step.msgs.len() == 0 {
            lemma_step_advances(s, i);
            lemma_lex_from_reports_once(s, step.stop);
        }
    }
}

/// Tokenizing a text reports one diagnostic at most, and never a fault of
/// the pipeline itself.
pub proof fn lemma_lex_reports_once(s: Seq<u8>)
    ensures
        lex_outcome(s).msgs.len() <= 1,
        forall|k: int|
            0 <= k < lex_outcome(s).msgs.len() ==> !(#[trigger] lex_outcome(s).msgs[k]).typ.internal(),
{
    lemma_lex_from_reports_once(s, run_end(s, 0, ByteClass::Space));
}

/// Tokenizing is a function of the bytes alone. `lex` returns the tokens and
/// the log of `lex_outcome` for the bytes of its input, so two runs on
/// inputs that agree byte for byte return the same tokens and the same log.
pub proof fn lemma_lex_deterministic(a: Seq<u8>, b: Seq<u8>)
    requires
        a.len() == b.len(),
        forall|i: int| 0 <= i < a.len() ==> a[i] == b[i],
    ensures
        lex_outcome(a) == lex_outcome(b),
{
    assert(a =~= b);
}

/// A run does not go past a byte outside its class.
proof fn lemma_run_end_stops(s: Seq<u8>, i: int, k: int, class: ByteClass)
    requires
        0 <= i <= k <= s.len(),
        k < s.len() ==> !in_class(class, s[k]),
    ensures
        run_end(s, i, class) <= k,
        run_end(s.take(k), i, class) == run_end(s, i, class),
    decreases k - i,
{
    if i < k && in_class(class, s[i]) {
        lemma_run_end_stops(s, i + 1, k, class);
    }
}

/// Rows and columns depend on the bytes before the index alone.
proof fn lemma_position_prefix(s: Seq<u8>, k: int, n: int)
    requires
        0 <= n <= k <= s.len(),
    ensures
        row_at(s.take(k), n) == row_at(s, n),
        col_at(s.take(k), n) == col_at(s, n),
    decreases n,
{
    if n > 0 {
        lemma_position_prefix(s, k, n - 1);
    }
}

/// Scanning from a cursor at rest at `i`, with only known bytes from there
/// up to `k` and an unknown byte, or the end, at `k`: the scan stops at `k`,
/// reports the unknown byte if there is one, and yields the tokens of the
/// text cut off at `k`.
proof fn lemma_lex_until(s: Seq<u8>, i: int, k: int)
    requires
        0 <= i <= k <= s.len(),
        forall|j: int| i <= j < k ==> known_byte(#[trigger] s[j]),
        k < s.len() ==> !known_byte(s[k]),
        i < k ==> !is_space(s[i]),
    ensures
        lex_from(s, i).stop == k,
        lex_from(s, i).msgs == if k < s.len() {
            seq![msg_at(s, MsgType::LexNoTokenFound, k)]
        } else {
            Seq::<Msg>::empty()
        },
        lex_from(s, i).tokens == lex_from(s.take(k), i).tokens,
        lex_from(s.take(k), i).msgs == Seq::<Msg>::empty(),
    decreases k - i,
{
    let p = s.take(k);
    if i < k {
        let (typ, end) = token_at(s, i)->0;
        lemma_run_end_stops(s, i + 1, k, ByteClass::IdentTail);
        lemma_run_end_stops(s, i + 1, k, ByteClass::Digit);
        lemma_token_at_bounds(s, i);
        assert(s.subrange(i, end) == p.subrange(i, end));
        assert(token_at(p, i) == Some((typ, end)));
        lemma_position_prefix(s, k, i);
        let stop = run_end(s, end, ByteClass::Space);
        lemma_run_end_stops(s, end, k, ByteClass::Space);
        lemma_run_end_bounds(s, end, ByteClass::Space);
        lemma_run_end_run(s, end, ByteClass::Space);
        assert(lex_step(s, i).stop == stop);
        assert(lex_step(p, i).stop == stop);
        assert(lex_step(s, i).tokens == lex_step(p, i).tokens);
        lemma_lex_until(s, stop, k);
    }
}

/// A text of known bytes tokenizes to its end without a diagnostic.
pub proof fn lemma_known_bytes_lex_clean(s: Seq<u8>)
    requires
        forall|j: int| 0 <= j < s.len() ==> known_byte(#[trigger] s[j]),
    ensures
        lex_outcome(s).msgs == Seq::<Msg>::empty(),
        lex_outcome(s).stop == s.len(),
{
    let start = run_end(s, 0, ByteClass::Space);
    lemma_run_end_bounds(s, 0, ByteClass::Space);
    lemma_run_end_run(s, 0, ByteClass::Space);
    lemma_lex_until(s, start, s.len() as int);
}

/// The first byte that the language does not know ends the scan. It is
/// reported where it stands, and what comes behind it is not looked at: the
/// tokens are those of the text before it.
pub proof fn lemma_first_unknown_byte(s: Seq<u8>, k: int)
    requires
        0 <= k < s.len(),
        !known_byte(s[k]),
        forall|j: int| 0 <= j < k ==> known_byte(#[trigger] s[j]),
    ensures
        lex_outcome(s).msgs == seq![msg_at(s, MsgType::LexNoTokenFound, k)],
        lex_outcome(s).stop == k,
        lex_outcome(s).tokens == lex_outcome(s.take(k)).tokens,
{
    let start = run_end(s, 0, ByteClass::Space);
    lemma_run_end_stops(s, 0, k, ByteClass::Space);
    lemma_run_end_bounds(s, 0, ByteClass::Space);
    lemma_run_end_run(s, 0, ByteClass::Space);
    lemma_lex_until(s, start, k);
}

} // verus!
