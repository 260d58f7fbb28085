//! The parser: from tokens to a syntax tree, by recursive descent.

use vstd::prelude::*;
use crate::parser::decimal::{decode_u32, num_value};
use crate::parser::lex::{lex, token_views, Token, TokenType, TokenView};
use crate::parser::parse_laws::{
    lemma_dat_statement_parses, lemma_parse_outcome_shape, lemma_statements_shape,
};
use crate::parser::parse_model::{
    consume_msgs, dat_statement, dat_tree, data_step, kind_at, msg_for, num_step, parse_outcome,
    root_of, statements_from, well_formed, Tree,
};
use crate::util::error_log::{Msg, MsgLog, MsgType};

verus! {

/// A node of the syntax tree. A node owns its children.
#[derive(Debug, PartialEq)]
#[allow(inconsistent_fields)]
pub enum Node {
    /// The whole input: its statements in source order.
    Root { statements: Vec<Node> },
    /// A `dat` declaration; both children are `Num` nodes.
    Data { width: Box<Node>, value: Box<Node> },
    /// A numeric literal.
    Num { value: u32 },
}

/// The tree that `node` stands for.
pub open spec fn tree_of(node: Node) -> Tree
    decreases node,
{
    match node {
        Node::Root { statements } => Tree::Root {
            statements: Seq::new(
                statements@.len(),
                |i: int|
                    if 0 <= i < statements@.len() {
                        tree_of(statements@[i])
                    } else {
                        Tree::Num { value: 0 }
                    },
            ),
        },
        Node::Data { width, value } => Tree::Data {
            width: Box::new(tree_of(*width)),
            value: Box::new(tree_of(*value)),
        },
        Node::Num { value } => Tree::Num { value },
    }
}

impl View for Node {
    type V = Tree;

    open spec fn view(&self) -> Tree {
        tree_of(*self)
    }
}

/// The tree that an optional node stands for.
pub open spec fn option_tree(node: Option<Node>) -> Option<Tree> {
    match node {
        Some(n) => Some(n@),
        None => None,
    }
}

/// The views of a run of nodes, in order.
pub open spec fn node_views(nodes: Seq<Node>) -> Seq<Tree> {
    Seq::new(nodes.len(), |i: int| nodes[i]@)
}

/// The parser's state: the tokens, the cursor into them, and the log.
pub struct ParseMachine<'a> {
    msgs: MsgLog,
    tokens: &'a [Token<'a>],
    pos: usize,
}

impl<'a> ParseMachine<'a> {
    /// The tokens that the machine was made for.
    pub closed spec fn tokens(&self) -> Seq<TokenView> {
        token_views(self.tokens@)
    }

    /// The index of the token under the cursor.
    pub closed spec fn pos(&self) -> usize {
        self.pos
    }

    /// The diagnostics reported so far.
    pub closed spec fn log(&self) -> Seq<Msg> {
        self.msgs@
    }

    /// A machine on the first token of `input` that appends to `msgs`.
    pub fn new(input: &'a [Token<'a>], msgs: MsgLog) -> (machine: ParseMachine<'a>)
        ensures
            machine.tokens() == token_views(input@),
            machine.pos() == 0,
            machine.log() == msgs@,
    {
        ParseMachine { msgs: msgs, tokens: input, pos: 0 }
    }

    /// Parses statements until the tokens are exhausted.
    ///
    /// The root holds the statements in source order. A token that starts no
    /// statement, or a statement that fails, is reported and ends the parse
    /// with no tree.
    pub fn parse_root(&mut self) -> (root: Option<Node>)
        ensures
            final(self).tokens() == old(self).tokens(),
            ({
                let outcome = statements_from(old(self).tokens(), old(self).pos() as int);
                &&& final(self).log() == old(self).log() + outcome.msgs
                &&& final(self).pos() == outcome.next
                &&& option_tree(root) == root_of(outcome)
            }),
    {
        let ghost toks = self.tokens();
        let ghost log0 = self.log();
        let ghost goal = statements_from(toks, self.pos as int);
        let mut children: Vec<Node> = Vec::new();

        while self.pos < self.tokens.len()
            invariant
                toks == old(self).tokens(),
                log0 == old(self).log(),
                goal == statements_from(toks, old(self).pos() as int),
                self.tokens() == toks,
                self.log() == log0,
                ({
                    let rest = statements_from(toks, self.pos() as int);
                    &&& goal.msgs == rest.msgs
                    &&& goal.next == rest.next
                    &&& goal.statements == match rest.statements {
                        Some(others) => Some(node_views(children@) + others),
                        None => None,
                    }
                }),
            decreases toks.len() - self.pos(),
        {
            let child;
            match self.peek_type() {
                TokenType::Dat => child = self.parse_data(),
                _ => {
                    let msg = Msg::new_from_parse_machine(
                        MsgType::ParseWrongTokenInRootParse,
                        self,
                    );
                    self.msgs.add_msg(msg);
                    return None;
                },
            }
            match child {
                Some(c) => {
                    proof {
                        assert(node_views(children@.push(c)) =~= node_views(children@) + seq![c@]);
                    }
                    children.push(c)
                },
                None => return None,
            }
        }

        let root = Node::Root { statements: children };
        proof {
            assert(root@->statements =~= node_views(children@));
        }
        Some(root)
    }

    /// Parses one `dat` statement: `Dat`, `W`, `Num`, `Num`.
    ///
    /// The first element that is missing is reported and ends the statement
    /// with no node.
    pub fn parse_data(&mut self) -> (node: Option<Node>)
        requires
            old(self).pos() < old(self).tokens().len(),
        ensures
            final(self).tokens() == old(self).tokens(),
            ({
                let step = data_step(old(self).tokens(), old(self).pos() as int);
                &&& final(self).log() == old(self).log() + step.msgs
                &&& final(self).pos() == step.next
                &&& option_tree(node) == step.node
            }),
    {
        // DAT
        self.consume_token(TokenType::Dat);
        // W
        if self.peek_type() != TokenType::W {
            let msg = Msg::new_from_parse_machine(
                MsgType::ParseDatStatementMissingWKeyword,
                self,
            );
            self.msgs.add_msg(msg);
            return None;
        }
        self.consume_token(TokenType::W);
        // NUM
        if self.peek_type() != TokenType::Num {
            let msg = Msg::new_from_parse_machine(
                MsgType::ParseDatStatementMissingNum { missing_count: 2 },
                self,
            );
            self.msgs.add_msg(msg);
            return None;
        }
        let width;
        match self.parse_num() {
            Some(w) => width = w,
            None => return None,
        }
        // NUM
        if self.peek_type() != TokenType::Num {
            let msg = Msg::new_from_parse_machine(
                MsgType::ParseDatStatementMissingNum { missing_count: 1 },
                self,
            );
            self.msgs.add_msg(msg);
            return None;
        }
        let value;
        match self.parse_num() {
            Some(v) => value = v,
            None => return None,
        }

        Some(Node::Data { width: Box::new(width), value: Box::new(value) })
    }

    /// Parses one numeric literal. A lexeme that does not decode to an
    /// unsigned 32-bit integer is reported and yields no node.
    pub fn parse_num(&mut self) -> (node: Option<Node>)
        requires
            old(self).pos() < old(self).tokens().len(),
        ensures
            final(self).tokens() == old(self).tokens(),
            ({
                let step = num_step(old(self).tokens(), old(self).pos() as int);
                &&& final(self).log() == old(self).log() + step.msgs
                &&& final(self).pos() == step.next
                &&& option_tree(node) == step.node
            }),
    {
        let num_tok = self.consume_token(TokenType::Num);
        match decode_u32(num_tok.lexeme) {
            Some(v) => Some(Node::Num { value: v }),
            None => {
                let msg = Msg::new_from_parse_machine(MsgType::ParseNumHasInvalidLexeme, self);
                self.msgs.add_msg(msg);
                None
            },
        }
    }

    /// Moves the cursor past the token under it and returns that token.
    ///
    /// A token of kind `exp` is due. Any other kind means that the caller did
    /// not look first, which is reported as the parser's own fault; the
    /// token is consumed all the same.
    pub fn consume_token(&mut self, exp: TokenType) -> (token: &'a Token<'a>)
        requires
            old(self).pos() < old(self).tokens().len(),
        ensures
            final(self).tokens() == old(self).tokens(),
            final(self).pos() == old(self).pos() + 1,
            final(self).log() == old(self).log() + consume_msgs(
                old(self).tokens(),
                old(self).pos() as int,
                exp,
            ),
            token@ == old(self).tokens()[old(self).pos() as int],
    {
        if self.tokens[self.pos].typ != exp {
            let msg = Msg::new_from_parse_machine(
                MsgType::ParseConsumedTokenWithoutLookingFirst,
                self,
            );
            self.msgs.add_msg(msg);
        }
        let t = &self.tokens[self.pos];
        self.pos += 1;
        t
    }

    /// The kind of the token under the cursor, which stays where it is;
    /// `Eof` behind the last token.
    pub fn peek_type(&self) -> (typ: TokenType)
        ensures
            typ == kind_at(self.tokens(), self.pos() as int),
    {
        if self.pos < self.tokens.len() {
            self.tokens[self.pos].typ
        } else {
            TokenType::Eof
        }
    }

    /// Gives up the machine for its log.
    pub fn into_log(self) -> (msgs: MsgLog)
        ensures
            msgs@ == self.log(),
    {
        self.msgs
    }
}

impl Msg {
    /// The message of kind `t` at the cursor of `machine`: at the token
    /// under the cursor, or at the last token if the cursor is behind it.
    pub fn new_from_parse_machine(t: MsgType, machine: &ParseMachine) -> (msg: Msg)
        ensures
            msg == msg_for(machine.tokens(), t, machine.pos() as int),
    {
        let count = machine.tokens.len();
        if machine.pos < count {
            let tok = &machine.tokens[machine.pos];
            Msg::new(t, tok.offset, tok.row, tok.col)
        } else if count > 0 {
            let tok = &machine.tokens[count - 1];
            Msg::new(t, tok.offset, tok.row, tok.col)
        } else {
            Msg::new(t, 0, 0, 0)
        }
    }
}

/// Parses `tokens` into a root, appending to `msgs`.
///
/// There is a root exactly if the parse reported nothing.
pub fn parse<'a>(tokens: &'a [Token<'a>], msgs: MsgLog) -> (result: (Option<Node>, MsgLog))
    ensures
        ({
            let outcome = statements_from(token_views(tokens@), 0);
            &&& result.1@ == msgs@ + outcome.msgs
            &&& option_tree(result.0) == root_of(outcome)
        }),
        result.0 is Some <==> result.1@ == msgs@,
{
    proof {
        lemma_statements_shape(token_views(tokens@), 0);
    }
    let mut machine = ParseMachine::new(tokens, msgs);
    let root = machine.parse_root();
    (root, machine.into_log())
}

/// Runs the whole pipeline on `input`: the tree if there is one, the log,
/// and the tokens.
///
/// The parser runs only if the tokenizer reported nothing. There is a tree
/// exactly if nothing was reported at all, and it is well formed. A statement
/// `dat w <n1> <n2>` with literals of 32 bits gives the root with the one
/// declaration of their values.
pub fn parse_from_bytes<'a>(input: &'a [u8]) -> (result: (Option<Node>, MsgLog, Vec<Token<'a>>))
    ensures
        ({
            let outcome = parse_outcome(input@);
            &&& option_tree(result.0) == outcome.root
            &&& result.1@ == outcome.msgs
            &&& token_views(result.2@) == outcome.tokens
        }),
        result.0 is Some <==> result.1@.len() == 0,
        result.0 matches Some(node) ==> well_formed(node@),
        forall|n1: Seq<u8>, n2: Seq<u8>|
            input@ == #[trigger] dat_statement(n1, n2) && num_value(n1) is Some && num_value(n2)
                is Some ==> {
                &&& option_tree(result.0) == Some(
                    Tree::Root {
                        statements: seq![dat_tree(num_value(n1)->0, num_value(n2)->0)],
                    },
                )
                &&& result.1@.len() == 0
            },
{
    proof {
        lemma_parse_outcome_shape(input@);
        assert forall|n1: Seq<u8>, n2: Seq<u8>|
            input@ == #[trigger] dat_statement(n1, n2) && num_value(n1) is Some && num_value(n2)
                is Some implies parse_outcome(input@).root == Some(
            Tree::Root { statements: seq![dat_tree(num_value(n1)->0, num_value(n2)->0)] },
        ) && parse_outcome(input@).msgs.len() == 0 by {
            lemma_dat_statement_parses(n1, n2);
        }
    }
    // lex the bytes to tokens
    let (tokens, msgs) = lex(input);
    if !msgs.is_empty() {
        return (None, msgs, tokens);
    }
    // parse

    let (root, msgs) = parse(tokens.as_slice(), msgs);
    (root, msgs, tokens)
}

} // verus!
