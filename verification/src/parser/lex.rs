//! The tokenizer: from source bytes to positioned tokens.

use vstd::prelude::*;
use vstd::slice::slice_subrange;
use crate::parser::lex_laws::{lemma_lex_positions, lemma_whitespace_only};
use crate::parser::lex_model::{
    col_at, in_class, is_ident_char, is_space, lemma_position_bounds, lemma_position_within_line,
    lemma_step_advances, lex_from, lex_outcome, lex_step, placed, punct_kind, row_at, run_end,
    token_of, word_kind, ByteClass, AMP, AT, BANG, COLON, COMMA, DIGIT_0, DIGIT_9, DOLLAR, HASH,
    HYPHEN, LBRACE, LOWER_A, LOWER_D, LOWER_T, LOWER_W, LOWER_Z, LPAREN, NEWLINE, RBRACE, RPAREN,
    SPACE, UNDERSCORE, UPPER_A, UPPER_D, UPPER_Z,
};
use crate::util::error_log::{Msg, MsgLog, MsgType};

verus! {

/// The kind of a lexical unit.
#[derive(Debug, Clone, Copy, PartialEq, Eq, Structural)]
pub enum TokenType {
    /// The keyword `dat`.
    Dat,
    /// The keyword `w`.
    W,
    /// A run of ASCII digits.
    Num,
    /// `(`
    LParen,
    /// `)`
    RParen,
    /// `{`
    LBrace,
    /// `}`
    RBrace,
    /// `#`
    Hash,
    /// A word that is no keyword.
    Ident,
    /// `,`
    Comma,
    /// `:`
    Colon,
    /// `!`
    Bang,
    /// `@`
    At,
    /// `$`
    Dollar,
    /// `&`
    Amp,
    /// The keyword `ADD`.
    Add,
    /// The end of the tokens. The tokenizer makes no such token: the parser
    /// sees this kind when it looks behind the last token.
    Eof,
}

/// A classified, positioned slice of the source.
///
/// The lexeme borrows from the source buffer, which therefore outlives the
/// token. `offset` is the index of the lexeme's first byte in the source;
/// `row` and `col` are the zero-based line and column of that byte.
#[derive(Debug, Clone, Copy, PartialEq, Eq)]
pub struct Token<'a> {
    pub typ: TokenType,
    pub lexeme: &'a [u8],
    pub offset: usize,
    pub row: usize,
    pub col: usize,
}

/// What a token is to the contracts: its kind, the bytes of its lexeme and
/// its position.
pub struct TokenView {
    pub typ: TokenType,
    pub lexeme: Seq<u8>,
    pub offset: usize,
    pub row: usize,
    pub col: usize,
}

impl<'a> View for Token<'a> {
    type V = TokenView;

    open spec fn view(&self) -> TokenView {
        TokenView {
            typ: self.typ,
            lexeme: self.lexeme@,
            offset: self.offset,
            row: self.row,
            col: self.col,
        }
    }
}

/// The views of a run of tokens, in order.
pub open spec fn token_views<'a>(tokens: Seq<Token<'a>>) -> Seq<TokenView> {
    tokens.map_values(|t: Token<'a>| t@)
}

/// The tokenizer's state: the source, the cursor with its line and column,
/// and what has been produced so far.
#[derive(Debug)]
pub struct LexMachine<'a> {
    input: &'a [u8],
    tokens: Vec<Token<'a>>,
    offset: usize,
    row: usize,
    col: usize,
    msgs: MsgLog,
}

impl<'a> LexMachine<'a> {
    /// The source text.
    pub closed spec fn source(&self) -> Seq<u8> {
        self.input@
    }

    /// The index of the byte under the cursor.
    pub closed spec fn offset(&self) -> usize {
        self.offset
    }

    /// The line that the cursor is on.
    pub closed spec fn row(&self) -> usize {
        self.row
    }

    /// The column that the cursor is at.
    pub closed spec fn col(&self) -> usize {
        self.col
    }

    /// The tokens taken so far.
    pub closed spec fn tokens(&self) -> Seq<TokenView> {
        token_views(self.tokens@)
    }

    /// The diagnostics reported so far.
    pub closed spec fn log(&self) -> Seq<Msg> {
        self.msgs@
    }

    /// The cursor lies within the source, and its line and column are those
    /// of its index.
    pub open spec fn positioned(&self) -> bool {
        &&& self.offset() <= self.source().len()
        &&& self.row() == row_at(self.source(), self.offset() as int)
        &&& self.col() == col_at(self.source(), self.offset() as int)
    }

    /// The machine is at rest: positioned, with no whitespace under the
    /// cursor.
    pub open spec fn wf(&self) -> bool {
        &&& self.positioned()
        &&& run_end(self.source(), self.offset() as int, ByteClass::Space) == self.offset()
    }

    /// A machine at the first byte of `input` that is no whitespace, with
    /// nothing produced yet.
    pub fn new(input: &'a [u8]) -> (machine: LexMachine<'a>)
        ensures
            machine.wf(),
            machine.source() == input@,
            machine.offset() == run_end(input@, 0, ByteClass::Space),
            machine.tokens() == Seq::<TokenView>::empty(),
            machine.log() == Seq::<Msg>::empty(),
    {
        let mut machine = LexMachine {
            input: input,
            tokens: Vec::new(),
            offset: 0,
            row: 0,
            col: 0,
            msgs: MsgLog::new(input),
        };
        machine.handle_next_whitespace();
        machine
    }

    /// Takes tokens until the source is exhausted or a diagnostic is in the
    /// log. With a diagnostic already in the log nothing is done.
    pub fn lex_all(&mut self)
        requires
            old(self).wf(),
        ensures
            final(self).wf(),
            final(self).source() == old(self).source(),
            old(self).log().len() > 0 ==> {
                &&& final(self).tokens() == old(self).tokens()
                &&& final(self).log() == old(self).log()
                &&& final(self).offset() == old(self).offset()
            },
            old(self).log().len() == 0 ==> {
                let outcome = lex_from(old(self).source(), old(self).offset() as int);
                &&& final(self).tokens() == old(self).tokens() + outcome.tokens
                &&& final(self).log() == outcome.msgs
                &&& final(self).offset() == outcome.stop
            },
    {
        let ghost s = self.source();
        let ghost tokens0 = self.tokens();
        let ghost log0 = self.log();
        let ghost offset0 = self.offset();
        let ghost goal = lex_from(s, offset0 as int);
        while self.offset < self.input.len()
            invariant
                self.wf(),
                self.source() == s,
                log0.len() > 0 ==> {
                    &&& self.tokens() == tokens0
                    &&& self.log() == log0
                    &&& self.offset() == offset0
                },
                log0.len() == 0 && self.log().len() == 0 ==> {
                    let rest = lex_from(s, self.offset() as int);
                    &&& tokens0 + goal.tokens == self.tokens() + rest.tokens
                    &&& goal.msgs == rest.msgs
                    &&& goal.stop == rest.stop
                },
                log0.len() == 0 && self.log().len() > 0 ==> {
                    &&& self.tokens() == tokens0 + goal.tokens
                    &&& self.log() == goal.msgs
                    &&& self.offset() == goal.stop
                },
            ensures
                self.offset() >= s.len() || self.log().len() > 0,
            decreases s.len() - self.offset(), (if self.log().len() == 0 { 1int } else { 0int }),
        {
            if !self.msgs.is_empty() {
                break ;
            }
            proof {
                lemma_step_advances(s, self.offset() as int);
            }
            self.lex_next_token();
        }
    }

    /// Takes the token under the cursor and skips the whitespace behind it.
    ///
    /// With no input left, or with a byte under the cursor that starts no
    /// token, a diagnostic is appended instead and the cursor stays.
    pub fn lex_next_token(&mut self)
        requires
            old(self).wf(),
        ensures
            final(self).wf(),
            final(self).source() == old(self).source(),
            ({
                let step = lex_step(old(self).source(), old(self).offset() as int);
                &&& final(self).tokens() == old(self).tokens() + step.tokens
                &&& final(self).log() == old(self).log() + step.msgs
                &&& final(self).offset() == step.stop
            }),
    {
        let ghost s = self.source();
        let ghost start = self.offset as int;
        if self.offset >= self.input.len() {
            let msg = Msg::new_from_lex_machine(MsgType::LexAttemptedToRunOffEndOfInput, self);
            self.msgs.add_msg(msg);
            return ;
        }
        let first = self.input[self.offset];

        // single byte cases
        match Self::punctuation(first) {
            Some(typ) => {
                self.handle_token_creation(typ, 1);
                return ;
            },
            None => (),
        }

        // identifier or keyword case
        if Self::is_valid_ident_char(first, true) {
            // find the first byte that does not continue the word
            let mut word_end: usize = self.offset + 1;
            while word_end < self.input.len() && Self::is_valid_ident_char(
                self.input[word_end],
                false,
            )
                invariant
                    self.source() == s,
                    self.offset() == start,
                    start < word_end <= s.len(),
                    run_end(s, word_end as int, ByteClass::IdentTail) == run_end(
                        s,
                        start + 1,
                        ByteClass::IdentTail,
                    ),
                    forall|j: int| start < j < word_end ==> is_ident_char(#[trigger] s[j], false),
                decreases s.len() - word_end,
            {
                word_end += 1;
            }

            let buffer = slice_subrange(self.input, self.offset, word_end);
            let typ = Self::keyword_or_ident(buffer);
            self.handle_token_creation(typ, word_end - self.offset);
            return ;
        }

        // number case
        if first >= DIGIT_0 && first <= DIGIT_9 {
            // find the first byte that is no digit
            let mut word_end: usize = self.offset + 1;
            while word_end < self.input.len() && self.input[word_end] >= DIGIT_0
                && self.input[word_end] <= DIGIT_9
                invariant
                    self.source() == s,
                    self.offset() == start,
                    start < word_end <= s.len(),
                    run_end(s, word_end as int, ByteClass::Digit) == run_end(
                        s,
                        start + 1,
                        ByteClass::Digit,
                    ),
                    forall|j: int|
                        start < j < word_end ==> in_class(ByteClass::Digit, #[trigger] s[j]),
                decreases s.len() - word_end,
            {
                word_end += 1;
            }

            self.handle_token_creation(TokenType::Num, word_end - self.offset);
            return ;
        }
        let msg = Msg::new_from_lex_machine(MsgType::LexNoTokenFound, self);
        self.msgs.add_msg(msg);
    }

    /// Records the token of kind `t` that spans the next `consume` bytes,
    /// moves the cursor past it and skips the whitespace that follows.
    fn handle_token_creation(&mut self, t: TokenType, consume: usize)
        requires
            old(self).positioned(),
            old(self).offset() + consume <= old(self).source().len(),
            forall|j: int|
                old(self).offset() <= j < old(self).offset() + consume ==> old(self).source()[j]
                    != NEWLINE,
        ensures
            final(self).wf(),
            final(self).source() == old(self).source(),
            final(self).log() == old(self).log(),
            final(self).tokens() == old(self).tokens().push(
                token_of(
                    old(self).source(),
                    t,
                    old(self).offset() as int,
                    old(self).offset() + consume,
                ),
            ),
            final(self).offset() == run_end(
                old(self).source(),
                old(self).offset() + consume,
                ByteClass::Space,
            ),
    {
        let ghost s = self.source();
        let ghost start = self.offset as int;
        let ghost before = self.tokens@;
        proof {
            vstd::slice::axiom_spec_len(self.input);
        }
        let token = Token {
            typ: t,
            lexeme: slice_subrange(self.input, self.offset, self.offset + consume),
            offset: self.offset,
            row: self.row,
            col: self.col,
        };
        self.tokens.push(token);
        proof {
            lemma_position_within_line(s, start, start + consume);
            lemma_position_bounds(s, start + consume);
            assert(token_views(before.push(token)) == token_views(before).push(token@));
        }
        self.offset += consume;
        self.col += consume;

        // eat trailing whitespace
        self.handle_next_whitespace();
    }

    /// Moves the cursor to the next byte that is no whitespace, counting
    /// lines and columns on the way.
    fn handle_next_whitespace(&mut self)
        requires
            old(self).positioned(),
        ensures
            final(self).wf(),
            final(self).source() == old(self).source(),
            final(self).tokens() == old(self).tokens(),
            final(self).log() == old(self).log(),
            final(self).offset() == run_end(
                old(self).source(),
                old(self).offset() as int,
                ByteClass::Space,
            ),
    {
        let ghost s = self.source();
        let ghost start = self.offset as int;
        while self.offset < self.input.len() && (self.input[self.offset] == SPACE
            || self.input[self.offset] == NEWLINE)
            invariant
                self.positioned(),
                self.source() == s,
                self.tokens() == old(self).tokens(),
                self.log() == old(self).log(),
                run_end(s, self.offset() as int, ByteClass::Space) == run_end(
                    s,
                    start,
                    ByteClass::Space,
                ),
            decreases s.len() - self.offset(),
        {
            proof {
                lemma_position_bounds(s, self.offset as int);
            }
            let c = self.input[self.offset];
            self.offset += 1;
            self.col += 1;
            if c == NEWLINE {
                self.col = 0;
                self.row += 1;
            }
        }
    }

    /// Whether `c` may stand in an identifier, in first place or later.
    pub fn is_valid_ident_char(c: u8, first: bool) -> (valid: bool)
        ensures
            valid == is_ident_char(c, first),
    {
        c == UNDERSCORE || c == HYPHEN || (c >= LOWER_A && c <= LOWER_Z) || (c >= UPPER_A && c
            <= UPPER_Z) || (!first && c >= DIGIT_0 && c <= DIGIT_9)
    }

    /// The kind of the punctuation token that the byte `c` makes, if any.
    fn punctuation(c: u8) -> (typ: Option<TokenType>)
        ensures
            typ == punct_kind(c),
    {
        match c {
            LPAREN => Some(TokenType::LParen),
            RPAREN => Some(TokenType::RParen),
            LBRACE => Some(TokenType::LBrace),
            RBRACE => Some(TokenType::RBrace),
            HASH => Some(TokenType::Hash),
            COMMA => Some(TokenType::Comma),
            COLON => Some(TokenType::Colon),
            BANG => Some(TokenType::Bang),
            AT => Some(TokenType::At),
            DOLLAR => Some(TokenType::Dollar),
            AMP => Some(TokenType::Amp),
            _ => None,
        }
    }

    /// The kind of the word `word`: a keyword's own kind, or `Ident`.
    fn keyword_or_ident(word: &[u8]) -> (typ: TokenType)
        ensures
            typ == word_kind(word@),
    {
        if word.len() == 3 && word[0] == LOWER_D && word[1] == LOWER_A && word[2] == LOWER_T {
            assert(word@ =~= seq![LOWER_D, LOWER_A, LOWER_T]);
            TokenType::Dat
        } else if word.len() == 3 && word[0] == UPPER_A && word[1] == UPPER_D && word[2]
            == UPPER_D {
            assert(word@ =~= seq![UPPER_A, UPPER_D, UPPER_D]);
            TokenType::Add
        } else if word.len() == 1 && word[0] == LOWER_W {
            assert(word@ =~= seq![LOWER_W]);
            TokenType::W
        } else {
            assert(seq![LOWER_D, LOWER_A, LOWER_T].len() == 3);
            assert(seq![UPPER_A, UPPER_D, UPPER_D].len() == 3);
            assert(seq![LOWER_W].len() == 1);
            TokenType::Ident
        }
    }

    /// Gives up the machine for what it produced.
    pub fn into_parts(self) -> (parts: (Vec<Token<'a>>, MsgLog))
        ensures
            token_views(parts.0@) == self.tokens(),
            parts.1@ == self.log(),
    {
        (self.tokens, self.msgs)
    }
}

impl Msg {
    /// The message of kind `t` at the cursor of `machine`.
    pub fn new_from_lex_machine(t: MsgType, machine: &LexMachine) -> (msg: Msg)
        ensures
            msg == (Msg {
                typ: t,
                offset: machine.offset(),
                row: machine.row(),
                col: machine.col(),
            }),
    {
        Msg::new(t, machine.offset, machine.row, machine.col)
    }
}

/// Tokenizes `input`: the tokens up to the end of the input or the first
/// byte that starts no token, and the log, which is empty or holds the one
/// diagnostic for that byte.
///
/// Every token sits in the input where its offset, row and column say, and
/// input that is nothing but whitespace yields no token and no diagnostic.
pub fn lex<'a>(input: &'a [u8]) -> (result: (Vec<Token<'a>>, MsgLog))
    ensures
        token_views(result.0@) == lex_outcome(input@).tokens,
        result.1@ == lex_outcome(input@).msgs,
        forall|k: int| 0 <= k < result.0@.len() ==> placed(input@, #[trigger] result.0@[k]@),
        (forall|i: int| 0 <= i < input@.len() ==> is_space(#[trigger] input@[i])) ==> result.0@.len()
            == 0 && result.1@.len() == 0,
{
    let mut m = LexMachine::new(input);
    m.lex_all();
    let (tokens, msgs) = m.into_parts();
    proof {
        vstd::slice::axiom_spec_len(input);
        if forall|i: int| 0 <= i < input@.len() ==> is_space(#[trigger] input@[i]) {
            lemma_whitespace_only(input@);
            assert(token_views(tokens@).len() == tokens@.len());
        }
        lemma_lex_positions(input@);
        assert forall|k: int| 0 <= k < tokens@.len() implies placed(
            input@,
            #[trigger] tokens@[k]@,
        ) by {
            let views = token_views(tokens@);
            assert(views.len() == tokens@.len());
            assert(views[k] == tokens@[k]@);
            assert(views[k] == lex_outcome(input@).tokens[k]);
        }
    }
    (tokens, msgs)
}

} // verus!
