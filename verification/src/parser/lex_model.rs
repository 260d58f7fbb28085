//! The tokenizer's model: byte classes, runs, positions and the token stream
//! that a source text denotes.

use vstd::prelude::*;
use crate::parser::lex::{TokenType, TokenView};
use crate::util::error_log::{Msg, MsgType};

verus! {

// The bytes that the language gives a meaning, by their ASCII codes.

/// The space.
pub const SPACE: u8 = 0x20;

/// The newline, which ends a row.
pub const NEWLINE: u8 = 0x0a;

/// `!`
pub const BANG: u8 = 0x21;

/// `#`
pub const HASH: u8 = 0x23;

/// `$`
pub const DOLLAR: u8 = 0x24;

/// `&`
pub const AMP: u8 = 0x26;

/// `(`
pub const LPAREN: u8 = 0x28;

/// `)`
pub const RPAREN: u8 = 0x29;

/// `,`
pub const COMMA: u8 = 0x2c;

/// `-`
pub const HYPHEN: u8 = 0x2d;

/// `:`
pub const COLON: u8 = 0x3a;

/// `@`
pub const AT: u8 = 0x40;

/// `_`
pub const UNDERSCORE: u8 = 0x5f;

/// `{`
pub const LBRACE: u8 = 0x7b;

/// `}`
pub const RBRACE: u8 = 0x7d;

/// `0`, the first digit.
pub const DIGIT_0: u8 = 0x30;

/// `9`, the last digit.
pub const DIGIT_9: u8 = 0x39;

/// `A`, the first capital letter.
pub const UPPER_A: u8 = 0x41;

/// `D`
pub const UPPER_D: u8 = 0x44;

/// `Z`, the last capital letter.
pub const UPPER_Z: u8 = 0x5a;

/// `a`, the first small letter.
pub const LOWER_A: u8 = 0x61;

/// `d`
pub const LOWER_D: u8 = 0x64;

/// `t`
pub const LOWER_T: u8 = 0x74;

/// `w`
pub const LOWER_W: u8 = 0x77;

/// `z`, the last small letter.
pub const LOWER_Z: u8 = 0x7a;

/// The classes of bytes that the tokenizer scans in runs.
pub enum ByteClass {
    /// A space or a newline.
    Space,
    /// An ASCII decimal digit.
    Digit,
    /// A byte that may continue an identifier.
    IdentTail,
}

/// Whether `c` is whitespace: a space or a newline.
pub open spec fn is_space(c: u8) -> bool {
    c == SPACE || c == NEWLINE
}

/// Whether `c` is an ASCII decimal digit.
pub open spec fn is_digit(c: u8) -> bool {
    DIGIT_0 <= c <= DIGIT_9
}

/// Whether `c` is an ASCII letter.
pub open spec fn is_letter(c: u8) -> bool {
    (LOWER_A <= c <= LOWER_Z) || (UPPER_A <= c <= UPPER_Z)
}

/// Whether `c` may stand in an identifier: a letter, `_` or `-` anywhere, a
/// digit anywhere but in first place.
pub open spec fn is_ident_char(c: u8, first: bool) -> bool {
    c == UNDERSCORE || c == HYPHEN || is_letter(c) || (!first && is_digit(c))
}

/// Whether `c` belongs to `class`.
pub open spec fn in_class(class: ByteClass, c: u8) -> bool {
    match class {
        ByteClass::Space => is_space(c),
        ByteClass::Digit => is_digit(c),
        ByteClass::IdentTail => is_ident_char(c, false),
    }
}

/// The end of the longest run of bytes of `class` that starts at `i`: the
/// first index from `i` on that holds a byte outside the class, or the end
/// of `s`.
pub open spec fn run_end(s: Seq<u8>, i: int, class: ByteClass) -> int
    decreases s.len() - i,
{
    if 0 <= i < s.len() && in_class(class, s[i]) {
        run_end(s, i + 1, class)
    } else {
        i
    }
}

/// The zero-based line of the byte at index `n`: the number of newlines
/// among the first `n` bytes.
pub open spec fn row_at(s: Seq<u8>, n: int) -> nat
    decreases n,
{
    if n <= 0 || n > s.len() {
        0
    } else if s[n - 1] == NEWLINE {
        row_at(s, n - 1) + 1
    } else {
        row_at(s, n - 1)
    }
}

/// The zero-based column of the byte at index `n`: the number of bytes
/// between the last newline before it, or the start, and `n`.
pub open spec fn col_at(s: Seq<u8>, n: int) -> nat
    decreases n,
{
    if n <= 0 || n > s.len() {
        0
    } else if s[n - 1] == NEWLINE {
        0
    } else {
        col_at(s, n - 1) + 1
    }
}

/// The kind of the punctuation token that the single byte `c` makes, if any.
pub open spec fn punct_kind(c: u8) -> Option<TokenType> {
    if c == LPAREN {
        Some(TokenType::LParen)
    } else if c == RPAREN {
        Some(TokenType::RParen)
    } else if c == LBRACE {
        Some(TokenType::LBrace)
    } else if c == RBRACE {
        Some(TokenType::RBrace)
    } else if c == HASH {
        Some(TokenType::Hash)
    } else if c == COMMA {
        Some(TokenType::Comma)
    } else if c == COLON {
        Some(TokenType::Colon)
    } else if c == BANG {
        Some(TokenType::Bang)
    } else if c == AT {
        Some(TokenType::At)
    } else if c == DOLLAR {
        Some(TokenType::Dollar)
    } else if c == AMP {
        Some(TokenType::Amp)
    } else {
        None
    }
}

/// Whether a token can start with the byte `c`.
pub open spec fn starts_token(c: u8) -> bool {
    punct_kind(c) is Some || is_ident_char(c, true) || is_digit(c)
}

/// Whether the language knows the byte `c`: as whitespace or as part of a
/// token.
pub open spec fn known_byte(c: u8) -> bool {
    is_space(c) || starts_token(c)
}

/// The kind of a word: one of the keywords `dat`, `ADD` and `w`, matched
/// with regard to case, or else an identifier.
pub open spec fn word_kind(lexeme: Seq<u8>) -> TokenType {
    if lexeme == seq![LOWER_D, LOWER_A, LOWER_T] {
        TokenType::Dat
    } else if lexeme == seq![UPPER_A, UPPER_D, UPPER_D] {
        TokenType::Add
    } else if lexeme == seq![LOWER_W] {
        TokenType::W
    } else {
        TokenType::Ident
    }
}

/// The token that starts at index `i`, as its kind and the index just past
/// its lexeme; `None` where the byte at `i` starts no token.
pub open spec fn token_at(s: Seq<u8>, i: int) -> Option<(TokenType, int)>
    recommends
        0 <= i < s.len(),
{
    if punct_kind(s[i]) is Some {
        Some((punct_kind(s[i])->0, i + 1))
    } else if is_ident_char(s[i], true) {
        let end = run_end(s, i + 1, ByteClass::IdentTail);
        Some((word_kind(s.subrange(i, end)), end))
    } else if is_digit(s[i]) {
        Some((TokenType::Num, run_end(s, i + 1, ByteClass::Digit)))
    } else {
        None
    }
}

/// The token of kind `typ` whose lexeme is `s[start..end]`.
pub open spec fn token_of(s: Seq<u8>, typ: TokenType, start: int, end: int) -> TokenView {
    TokenView {
        typ,
        lexeme: s.subrange(start, end),
        offset: start as usize,
        row: row_at(s, start) as usize,
        col: col_at(s, start) as usize,
    }
}

/// The index just past the lexeme of `t`.
pub open spec fn token_end(t: TokenView) -> int {
    t.offset + t.lexeme.len()
}

/// The token `t` sits in the text `s` where it says: its offset counts the
/// bytes before its lexeme, its lexeme is the text from there on, and its
/// row and column are those of its first byte.
pub open spec fn placed(s: Seq<u8>, t: TokenView) -> bool {
    &&& t.lexeme.len() > 0
    &&& token_end(t) <= s.len()
    &&& t.lexeme == s.subrange(t.offset as int, token_end(t))
    &&& t.row == row_at(s, t.offset as int)
    &&& t.col == col_at(s, t.offset as int)
}

/// The token `t` has the kind of its lexeme: taken as a text of its own, the
/// lexeme is exactly one token, of the kind of `t`.
pub open spec fn classified(t: TokenView) -> bool {
    token_at(t.lexeme, 0) == Some((t.typ, t.lexeme.len() as int))
}

/// The diagnostic of kind `typ` for a cursor at index `i`.
pub open spec fn msg_at(s: Seq<u8>, typ: MsgType, i: int) -> Msg {
    Msg { typ, offset: i as usize, row: row_at(s, i) as usize, col: col_at(s, i) as usize }
}

/// What tokenizing yields: the tokens, the diagnostics, and the index at
/// which the cursor came to rest.
pub struct LexOutcome {
    pub tokens: Seq<TokenView>,
    pub msgs: Seq<Msg>,
    pub stop: int,
}

/// Taking one token of `s` with the cursor at index `i`.
///
/// At the end of the text there is no token to take, and a byte that starts
/// no token is not consumed: both yield a diagnostic and leave the cursor
/// where it is. Otherwise the token at `i` is taken and the cursor comes to
/// rest behind the whitespace that follows it.
pub open spec fn lex_step(s: Seq<u8>, i: int) -> LexOutcome {
    if i < 0 || i >= s.len() {
        LexOutcome {
            tokens: Seq::empty(),
            msgs: seq![msg_at(s, MsgType::LexAttemptedToRunOffEndOfInput, i)],
            stop: i,
        }
    } else {
        match token_at(s, i) {
            None => LexOutcome {
                tokens: Seq::empty(),
                msgs: seq![msg_at(s, MsgType::LexNoTokenFound, i)],
                stop: i,
            },
            Some((typ, end)) => LexOutcome {
                tokens: seq![token_of(s, typ, i, end)],
                msgs: Seq::empty(),
                stop: run_end(s, end, ByteClass::Space),
            },
        }
    }
}

/// Tokenizing `s` with the cursor at index `i`: tokens are taken one after
/// the other until the text is exhausted or a diagnostic is reported.
pub open spec fn lex_from(s: Seq<u8>, i: int) -> LexOutcome
    decreases s.len() - i,
{
    if i < 0 || i >= s.len() {
        LexOutcome { tokens: Seq::empty(), msgs: Seq::empty(), stop: i }
    } else {
        let step = lex_step(s, i);
        if step.msgs.len() > 0 {
            step
        } else {
            proof {
                lemma_step_advances(s, i);
            }
            let rest = lex_from(s, step.stop);
            LexOutcome { tokens: step.tokens + rest.tokens, msgs: rest.msgs, stop: rest.stop }
        }
    }
}

/// Tokenizing the whole of `s`: leading whitespace is skipped first.
pub open spec fn lex_outcome(s: Seq<u8>) -> LexOutcome {
    lex_from(s, run_end(s, 0, ByteClass::Space))
}

/// A run ends at or after its start, and within the text.
pub proof fn lemma_run_end_bounds(s: Seq<u8>, i: int, class: ByteClass)
    ensures
        i <= run_end(s, i, class),
        0 <= i <= s.len() ==> run_end(s, i, class) <= s.len(),
    decreases s.len() - i,
{
    if 0 <= i < s.len() && in_class(class, s[i]) {
        lemma_run_end_bounds(s, i + 1, class);
    }
}

/// A run that starts at `i` ends at `j` if every byte between them is of the
/// class and the byte at `j`, if there is one, is not.
pub proof fn lemma_run_end_is(s: Seq<u8>, i: int, j: int, class: ByteClass)
    requires
        0 <= i <= j <= s.len(),
        forall|x: int| i <= x < j ==> in_class(class, #[trigger] s[x]),
        j < s.len() ==> !in_class(class, s[j]),
    ensures
        run_end(s, i, class) == j,
    decreases j - i,
{
    if i < j {
        lemma_run_end_is(s, i + 1, j, class);
    }
}

/// Every byte of a run is of its class, and the byte at its end, if there
/// is one, is not.
pub proof fn lemma_run_end_run(s: Seq<u8>, i: int, class: ByteClass)
    requires
        0 <= i <= s.len(),
    ensures
        forall|x: int| i <= x < run_end(s, i, class) ==> in_class(class, #[trigger] s[x]),
        run_end(s, i, class) < s.len() ==> !in_class(class, s[run_end(s, i, class)]),
    decreases s.len() - i,
{
    if i < s.len() && in_class(class, s[i]) {
        lemma_run_end_run(s, i + 1, class);
    }
}

/// The token at `i` ends after `i` and within the text.
pub proof fn lemma_token_at_bounds(s: Seq<u8>, i: int)
    requires
        0 <= i < s.len(),
    ensures
        token_at(s, i) matches Some((_, end)) ==> i < end <= s.len(),
{
    lemma_run_end_bounds(s, i + 1, ByteClass::IdentTail);
    lemma_run_end_bounds(s, i + 1, ByteClass::Digit);
}

/// A step that reports nothing moves the cursor forward, within the text.
pub proof fn lemma_step_advances(s: Seq<u8>, i: int)
    requires
        0 <= i < s.len(),
    ensures
        lex_step(s, i).msgs.len() == 0 ==> i < lex_step(s, i).stop <= s.len(),
{
    lemma_token_at_bounds(s, i);
    if let Some((_, end)) = token_at(s, i) {
        lemma_run_end_bounds(s, end, ByteClass::Space);
    }
}

/// Rows and columns never exceed the index they belong to.
pub proof fn lemma_position_bounds(s: Seq<u8>, n: int)
    requires
        0 <= n,
    ensures
        row_at(s, n) <= n,
        col_at(s, n) <= n,
    decreases n,
{
    if 0 < n <= s.len() {
        lemma_position_bounds(s, n - 1);
    }
}

/// Across bytes that hold no newline the row stays and the column grows
/// with the index.
pub proof fn lemma_position_within_line(s: Seq<u8>, a: int, b: int)
    requires
        0 <= a <= b <= s.len(),
        forall|j: int| a <= j < b ==> s[j] != NEWLINE,
    ensures
        row_at(s, b) == row_at(s, a),
        col_at(s, b) == col_at(s, a) + (b - a),
    decreases b - a,
{
    if a < b {
        lemma_position_within_line(s, a, b - 1);
    }
}

} // verus!
