//! The diagnostic log: an append-only sequence of positioned messages.

use vstd::prelude::*;

verus! {

/// Every condition a pipeline stage can report.
///
/// The first three kinds are fatal conditions that point at a defect in the
/// caller or in the pipeline itself; the others describe malformed input.
#[derive(Debug, Clone, Copy, PartialEq, Eq)]
pub enum MsgType {
    /// A parse diagnostic was to be rendered although no token was given.
    MsgLogAttemptToRenderParseErrorWithNoTokenInput,
    /// The tokenizer was asked for a token with no input left.
    LexAttemptedToRunOffEndOfInput,
    /// The parser consumed a token whose kind it had not checked.
    ParseConsumedTokenWithoutLookingFirst,
    /// No token class matches the byte under the cursor.
    LexNoTokenFound,
    /// A token that starts no statement stands where a statement is expected.
    ParseWrongTokenInRootParse,
    /// The width keyword is missing after `dat`.
    ParseDatStatementMissingWKeyword,
    /// A `dat` statement lacks `missing_count` of its numeric literals.
    ParseDatStatementMissingNum { missing_count: u8 },
    /// A numeric literal does not decode to an unsigned 32-bit integer.
    ParseNumHasInvalidLexeme,
}

impl MsgType {
    /// Whether the kind points at a defect in the pipeline or in how it is
    /// driven, and not at malformed input.
    pub open spec fn internal(self) -> bool {
        ||| self is MsgLogAttemptToRenderParseErrorWithNoTokenInput
        ||| self is LexAttemptedToRunOffEndOfInput
        ||| self is ParseConsumedTokenWithoutLookingFirst
    }

    /// Whether the kind points at a defect in the pipeline or in how it is
    /// driven, and not at malformed input.
    pub fn is_internal(&self) -> (internal: bool)
        ensures
            internal == self.internal(),
    {
        match self {
            MsgType::MsgLogAttemptToRenderParseErrorWithNoTokenInput => true,
            MsgType::LexAttemptedToRunOffEndOfInput => true,
            MsgType::ParseConsumedTokenWithoutLookingFirst => true,
            _ => false,
        }
    }
}

/// One diagnostic: what went wrong, and where in the source.
#[derive(Debug, Clone, Copy, PartialEq, Eq)]
pub struct Msg {
    pub typ: MsgType,
    pub offset: usize,
    pub row: usize,
    pub col: usize,
}

/// The diagnostics of one pipeline run, in the order they were reported.
///
/// The log only grows: a message, once appended, is never removed or moved.
#[derive(Debug)]
pub struct MsgLog {
    msgs: Vec<Msg>,
}

impl View for MsgLog {
    type V = Seq<Msg>;

    closed spec fn view(&self) -> Seq<Msg> {
        self.msgs@
    }
}

impl MsgLog {
    /// A fresh, empty log for a run over `input`.
    pub fn new(_input: &[u8]) -> (log: MsgLog)
        ensures
            log@ == Seq::<Msg>::empty(),
    {
        MsgLog { msgs: Vec::new() }
    }

    /// Appends `v` after every message already in the log.
    pub fn add_msg(&mut self, v: Msg)
        ensures
            final(self)@ == old(self)@.push(v),
    {
        self.msgs.push(v);
    }

    /// Whether nothing has been reported so far.
    pub fn is_empty(&self) -> (empty: bool)
        ensures
            empty == (self@.len() == 0),
    {
        self.msgs.len() == 0
    }

    /// The messages reported so far, oldest first.
    pub fn messages(&self) -> (msgs: &[Msg])
        ensures
            msgs@ == self@,
    {
        self.msgs.as_slice()
    }
}

impl Msg {
    /// A message of kind `m` at the given source position.
    pub fn new(m: MsgType, offset: usize, row: usize, col: usize) -> (msg: Msg)
        ensures
            msg == (Msg { typ: m, offset, row, col }),
    {
        Msg { typ: m, offset: offset, row: row, col: col }
    }
}

} // verus!
