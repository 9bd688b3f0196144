//! The expression parser: precedence climbing over a token sequence.
//!
//! What the parser computes is defined by the functions `prefix`, `climb`,
//! `expression` and `roots` on mathematical token sequences. `Parser`
//! computes the same with a cursor that moves through its tokens.
use vstd::prelude::*;

pub mod laws;

use crate::lexer::lexemes::Lexeme;
use crate::lexer::lexemes::Token;
use crate::nodes::Node;
use crate::nodes::NodeType;
use crate::nodes::Tree;
use crate::nodes::forest;

verus! {

/// Why an expression is malformed.
#[derive(Debug, Clone, Copy, PartialEq, Eq)]
pub enum Malformed {
    /// No expression can start here: the input has ended, or the token is the
    /// sentinel.
    NoPrefixForm,
    /// A token that cannot continue the expression follows an operand.
    UnexpectedToken,
}

/// A failed parse. Nothing is returned of what had been built.
///
/// An operator that the precedence table does not list is no error: it has
/// the lowest rank and never binds.
#[derive(Debug, Clone, Copy, PartialEq, Eq)]
pub enum ParseError {
    MalformedExpression(Malformed),
}

/// What a step of the parser gives: a value and the number of tokens it took,
/// or an error and the number of tokens taken before it was met.
pub enum Outcome<T> {
    Parsed { value: T, used: nat },
    Failed { error: ParseError, used: nat },
}

impl<T> Outcome<T> {
    /// The number of tokens taken.
    pub open spec fn used(self) -> nat {
        match self {
            Outcome::Parsed { used, .. } => used,
            Outcome::Failed { used, .. } => used,
        }
    }

    /// The same outcome, reached after `n` more tokens had been taken first.
    pub open spec fn after(self, n: nat) -> Outcome<T> {
        match self {
            Outcome::Parsed { value, used } => Outcome::Parsed { value, used: used + n },
            Outcome::Failed { error, used } => Outcome::Failed { error, used: used + n },
        }
    }
}

/// The binding rank of an operator, in tenths: the higher, the tighter.
/// `*` and `/` have 4.0, `.` has 3.0, `+` and `-` have 2.0, `!` has 1.0 and
/// `=` has 0.1. Every other symbol has -0.5, below every rank that an
/// expression is parsed at, so it never binds.
pub open spec fn precedence(op: char) -> int {
    if op == '*' || op == '/' {
        40
    } else if op == '.' {
        30
    } else if op == '+' || op == '-' {
        20
    } else if op == '!' {
        10
    } else if op == '=' {
        1
    } else {
        -5
    }
}

/// The rank at which a top-level or bracketed expression is parsed.
pub const LOWEST_RANK: i32 = 0;

/// Whether `op` may stand behind its operand. No operator does.
pub open spec fn spec_is_postfix_operator(op: char) -> bool {
    false
}

/// The token at `pos`, or the sentinel where there is none.
pub open spec fn token_at(tokens: Seq<Lexeme>, pos: int) -> Lexeme {
    if 0 <= pos < tokens.len() {
        tokens[pos]
    } else {
        Lexeme::Sentinel
    }
}

/// The number of tokens from `pos` on.
pub open spec fn remaining(tokens: Seq<Lexeme>, pos: nat) -> nat {
    if pos < tokens.len() {
        (tokens.len() - pos) as nat
    } else {
        0
    }
}

/// The operand that starts at `pos`.
///
/// A string literal or an identifier is a leaf. An operator or a punctuation
/// mark is a prefix operator: its operand is the expression behind it, parsed
/// at the symbol's own rank. A bracket of any kind opens a group: the
/// expression behind it is parsed at the lowest rank, one more token is
/// passed over unseen, and the group stands for the expression alone.
pub open spec fn prefix(tokens: Seq<Lexeme>, pos: nat) -> Outcome<Tree>
    decreases remaining(tokens, pos), 1nat,
{
    match token_at(tokens, pos as int) {
        Lexeme::StringLiteral(text, _) => Outcome::Parsed {
            value: Tree::Literal(text, Seq::empty()),
            used: 1,
        },
        Lexeme::Identifier(text, _) => Outcome::Parsed {
            value: Tree::Literal(text, Seq::empty()),
            used: 1,
        },
        Lexeme::Punctuation(symbol, _) => apply_prefix(
            symbol,
            expression(tokens, pos + 1, precedence(symbol)),
        ),
        Lexeme::Operator(symbol, _) => apply_prefix(
            symbol,
            expression(tokens, pos + 1, precedence(symbol)),
        ),
        Lexeme::Bracket(_, _) => close_group(expression(tokens, pos + 1, LOWEST_RANK as int)),
        Lexeme::Sentinel => Outcome::Failed {
            error: ParseError::MalformedExpression(Malformed::NoPrefixForm),
            used: 0,
        },
    }
}

/// The prefix operator `symbol` applied to the operand parsed behind it.
pub open spec fn apply_prefix(symbol: char, operand: Outcome<Tree>) -> Outcome<Tree> {
    match operand {
        Outcome::Parsed { value, used } => Outcome::Parsed {
            value: Tree::Operator(symbol, seq![value]),
            used: used + 1,
        },
        Outcome::Failed { error, used } => Outcome::Failed { error, used: used + 1 },
    }
}

/// The group whose inside is `inner`: the opening bracket before it and one
/// token behind it are taken too.
pub open spec fn close_group(inner: Outcome<Tree>) -> Outcome<Tree> {
    match inner {
        Outcome::Parsed { value, used } => Outcome::Parsed { value, used: used + 2 },
        Outcome::Failed { error, used } => Outcome::Failed { error, used: used + 1 },
    }
}

/// The infix operator `op` applied to `left` and to the operand parsed behind
/// it.
pub open spec fn apply_infix(op: char, left: Tree, operand: Outcome<Tree>) -> Outcome<Tree> {
    match operand {
        Outcome::Parsed { value, used } => Outcome::Parsed {
            value: Tree::Operator(op, seq![left, value]),
            used: used + 1,
        },
        Outcome::Failed { error, used } => Outcome::Failed { error, used: used + 1 },
    }
}

/// The expression that grows out of the operand `left`, with the next token
/// at `pos`, by operators that bind tighter than `min`.
///
/// An operator whose rank is at most `min` ends the expression, and so do a
/// bracket, a punctuation mark and the end of the input. Any other operator
/// takes `left` as its left operand and the expression behind it, parsed at
/// the operator's own rank, as its right operand; the result is the new
/// `left`. Operators of equal rank therefore group to the left. A token of
/// any other kind is an error.
pub open spec fn climb(tokens: Seq<Lexeme>, left: Tree, pos: nat, min: int) -> Outcome<Tree>
    decreases remaining(tokens, pos), 0nat,
{
    if pos >= tokens.len() {
        Outcome::Parsed { value: left, used: 0 }
    } else {
        match tokens[pos as int] {
            Lexeme::Operator(op, _) => {
                if precedence(op) <= min {
                    Outcome::Parsed { value: left, used: 0 }
                } else if spec_is_postfix_operator(op) {
                    climb(tokens, Tree::Operator(op, seq![left]), pos + 1, min).after(1)
                } else {
                    match apply_infix(op, left, expression(tokens, pos + 1, precedence(op))) {
                        Outcome::Parsed { value, used } => climb(
                            tokens,
                            value,
                            pos + used,
                            min,
                        ).after(used),
                        Outcome::Failed { error, used } => Outcome::Failed { error, used },
                    }
                }
            },
            Lexeme::Bracket(_, _) => Outcome::Parsed { value: left, used: 0 },
            Lexeme::Punctuation(_, _) => Outcome::Parsed { value: left, used: 0 },
            _ => Outcome::Failed {
                error: ParseError::MalformedExpression(Malformed::UnexpectedToken),
                used: 0,
            },
        }
    }
}

/// The expression that starts at `pos` and is held together by operators
/// that bind tighter than `min`.
pub open spec fn expression(tokens: Seq<Lexeme>, pos: nat, min: int) -> Outcome<Tree>
    decreases remaining(tokens, pos), 2nat,
{
    match prefix(tokens, pos) {
        Outcome::Parsed { value, used } => climb(tokens, value, pos + used, min).after(used),
        Outcome::Failed { error, used } => Outcome::Failed { error, used },
    }
}

/// The top-level expressions from `pos` on, in order. Each is parsed at the
/// lowest rank, and the token that ended it is passed over unseen.
pub open spec fn roots(tokens: Seq<Lexeme>, pos: nat) -> Outcome<Seq<Tree>>
    decreases remaining(tokens, pos),
{
    if pos >= tokens.len() {
        Outcome::Parsed { value: Seq::empty(), used: 0 }
    } else {
        match expression(tokens, pos, LOWEST_RANK as int) {
            Outcome::Parsed { value, used } => match roots(tokens, pos + used + 1) {
                Outcome::Parsed { value: rest, used: more } => Outcome::Parsed {
                    value: seq![value] + rest,
                    used: used + 1 + more,
                },
                Outcome::Failed { error, used: more } => Outcome::Failed {
                    error,
                    used: used + 1 + more,
                },
            },
            Outcome::Failed { error, used } => Outcome::Failed { error, used },
        }
    }
}

/// Where a cursor stands that was asked to stand at `pos`: it stops at the
/// largest `usize`.
pub open spec fn saturated(pos: nat) -> nat {
    if pos <= usize::MAX {
        pos
    } else {
        usize::MAX as nat
    }
}

/// Whether what a parsing function returned is what `outcome` says.
pub open spec fn agrees(result: Result<NodeType, ParseError>, outcome: Outcome<Tree>) -> bool {
    match outcome {
        Outcome::Parsed { value, .. } => result matches Ok(node) && node@ == value,
        Outcome::Failed { error, .. } => result == Err::<NodeType, ParseError>(error),
    }
}

/// The binding rank of an operator, in tenths.
pub fn get_precedence(op: char) -> (rank: i32)
    ensures
        rank == precedence(op),
{
    if op == '*' || op == '/' {
        40
    } else if op == '.' {
        30
    } else if op == '+' || op == '-' {
        20
    } else if op == '!' {
        10
    } else if op == '=' {
        1
    } else {
        -5
    }
}

#[verifier::when_used_as_spec(spec_is_postfix_operator)]
fn is_postfix_operator(op: char) -> (b: bool)
    ensures
        b == spec_is_postfix_operator(op),
{
    false
}

/// What trying an operator as a postfix operator gave.
#[derive(Debug, PartialEq, Eq)]
pub enum Postfix {
    /// The operator is a postfix operator: here it is, applied to the operand.
    PostfixApplied(NodeType),
    /// It is none: the operand is handed back as it was.
    NotPostfix(NodeType),
}

/// A parser over a token sequence of its own, with a cursor that only moves
/// forward.
pub struct Parser {
    tokens: Vec<Token>,
    i: usize,
}

impl Parser {
    /// The tokens.
    pub closed spec fn lexemes(&self) -> Seq<Lexeme> {
        self.tokens.deep_view()
    }

    /// The position of the current token. It may lie behind the last token.
    pub closed spec fn cursor(&self) -> nat {
        self.i as nat
    }

    /// Whether this parser has the tokens of `before` and has taken `used` of
    /// them since.
    pub open spec fn advanced(&self, before: &Parser, used: nat) -> bool {
        &&& self.lexemes() == before.lexemes()
        &&& self.cursor() == saturated(before.cursor() + used)
    }

    /// The tokens can be counted and the cursor stands within the machine's
    /// range.
    proof fn lemma_within_range(&self)
        ensures
            self.lexemes().len() <= usize::MAX,
            self.cursor() <= usize::MAX,
    {
        assert(self.tokens.len() == self.tokens@.len());
        assert(self.tokens.deep_view().len() == self.tokens@.len());
    }

    /// A parser at the first of a copy of the tokens `v`.
    pub fn new(v: &Vec<Token>) -> (parser: Self)
        ensures
            parser.lexemes() == v.deep_view(),
            parser.cursor() == 0,
    {
        let tokens = v.clone();
        assert(tokens@ =~= v@);
        Self { tokens, i: 0 }
    }

    /// Parses the top-level expressions from the cursor on, to the end of the
    /// tokens. An error in one of them fails the whole call.
    pub fn parse(&mut self) -> (result: Result<Vec<NodeType>, ParseError>)
        ensures
            final(self).advanced(old(self), roots(old(self).lexemes(), old(self).cursor()).used()),
            match roots(old(self).lexemes(), old(self).cursor()) {
                Outcome::Parsed { value, .. } => result matches Ok(trees) && trees.deep_view()
                    == value,
                Outcome::Failed { error, .. } => result == Err::<Vec<NodeType>, ParseError>(error),
            },
    {
        let ghost tokens = self.lexemes();
        let ghost start = self.cursor();
        let ghost mut used: nat = 0;
        let mut k: Vec<NodeType> = Vec::new();
        assert(k.deep_view() =~= Seq::<Tree>::empty());
        while self.has_tokens()
            invariant
                self.lexemes() == tokens,
                self.cursor() == saturated(start + used),
                tokens == old(self).lexemes(),
                start == old(self).cursor(),
                roots(tokens, start) == (match roots(tokens, start + used) {
                    Outcome::Parsed { value, used: more } => Outcome::Parsed {
                        value: k.deep_view() + value,
                        used: used + more,
                    },
                    Outcome::Failed { error, used: more } => Outcome::Failed {
                        error,
                        used: used + more,
                    },
                }),
            decreases remaining(tokens, start + used),
        {
            let ghost here = start + used;
            let ghost done = k.deep_view();
            proof {
                self.lemma_within_range();
            }
            match self.parse_expression(LOWEST_RANK) {
                Ok(root) => {
                    k.push(root);
                },
                Err(error) => {
                    return Err(error);
                },
            }
            self.consume_token();
            proof {
                let step = expression(tokens, here, LOWEST_RANK as int);
                used = used + step.used() + 1;
                assert(k.deep_view() =~= done.push(step->value));
                match roots(tokens, start + used) {
                    Outcome::Parsed { value, .. } => {
                        assert(done + (seq![step->value] + value) =~= k.deep_view() + value);
                    },
                    Outcome::Failed { .. } => {},
                }
            }
        }
        assert(k.deep_view() + Seq::<Tree>::empty() =~= k.deep_view());
        Ok(k)
    }

    /// Parses one expression from the cursor on: an operand, and the operators
    /// behind it that bind tighter than `min_prec`, with their operands.
    fn parse_expression(&mut self, min_prec: i32) -> (result: Result<NodeType, ParseError>)
        ensures
            agrees(result, expression(old(self).lexemes(), old(self).cursor(), min_prec as int)),
            final(self).advanced(
                old(self),
                expression(old(self).lexemes(), old(self).cursor(), min_prec as int).used(),
            ),
        decreases remaining(old(self).lexemes(), old(self).cursor()), 3nat,
    {
        let ghost tokens = self.lexemes();
        let ghost start = self.cursor();
        let mut left_node = match self.prefix_parse_current_token() {
            Ok(node) => node,
            Err(error) => {
                return Err(error);
            },
        };
        let ghost mut used: nat = prefix(tokens, start).used();
        loop
            invariant
                self.lexemes() == tokens,
                self.cursor() == saturated(start + used),
                tokens == old(self).lexemes(),
                start == old(self).cursor(),
                expression(tokens, start, min_prec as int) == climb(
                    tokens,
                    left_node@,
                    start + used,
                    min_prec as int,
                ).after(used),
            decreases remaining(tokens, start + used),
        {
            if !self.has_tokens() {
                return Ok(left_node);
            }
            let ghost here = start + used;
            let ghost left = left_node@;
            proof {
                self.lemma_within_range();
            }
            match self.current_token() {
                Token::Operator(op, _) => {
                    let op = *op;
                    if get_precedence(op) <= min_prec {
                        return Ok(left_node);
                    }
                    left_node = match self.try_postfix_parse_current_token(left_node) {
                        Postfix::PostfixApplied(node) => {
                            self.consume_token();
                            proof {
                                used = used + 1;
                            }
                            node
                        },
                        Postfix::NotPostfix(node) => match parse_infix(self, op, node) {
                            Ok(combined) => {
                                proof {
                                    used = used + apply_infix(
                                        op,
                                        left,
                                        expression(tokens, here + 1, precedence(op)),
                                    ).used();
                                }
                                combined
                            },
                            Err(error) => {
                                return Err(error);
                            },
                        },
                    };
                },
                Token::Bracket(_, _) => {
                    return Ok(left_node);
                },
                _ => {
                    if self.current_token().is_punc() {
                        return Ok(left_node);
                    }
                    return Err(ParseError::MalformedExpression(Malformed::UnexpectedToken));
                },
            }
        }
    }

    /// Whether the cursor stands on a token.
    pub fn has_tokens(&self) -> (b: bool)
        ensures
            b == (self.cursor() < self.lexemes().len()),
    {
        self.i < self.tokens.len()
    }

    /// The token under the cursor, or the sentinel behind the last token.
    pub fn current_token(&self) -> (token: &Token)
        ensures
            token@ == token_at(self.lexemes(), self.cursor() as int),
    {
        if self.i < self.tokens.len() {
            &self.tokens[self.i]
        } else {
            &Token::Sentinel
        }
    }

    /// Moves the cursor one position on and returns the token it stood on, or
    /// the sentinel if it stood behind the last token.
    pub fn consume_token(&mut self) -> (token: &Token)
        ensures
            final(self).advanced(old(self), 1),
            token@ == token_at(old(self).lexemes(), old(self).cursor() as int),
    {
        let at = self.i;
        if self.i < usize::MAX {
            self.i += 1;
        }
        if at < self.tokens.len() {
            &self.tokens[at]
        } else {
            &Token::Sentinel
        }
    }

    /// The token `offset` positions from the cursor, or the sentinel where
    /// there is none.
    pub fn look_ahead_token(&self, offset: i32) -> (token: &Token)
        ensures
            token@ == token_at(self.lexemes(), self.cursor() + offset),
    {
        if offset >= 0 {
            let forward = offset as usize;
            if forward < self.tokens.len() && self.i < self.tokens.len() - forward {
                &self.tokens[self.i + forward]
            } else {
                &Token::Sentinel
            }
        } else {
            let back = (-(offset as i64)) as usize;
            if back <= self.i && self.i - back < self.tokens.len() {
                &self.tokens[self.i - back]
            } else {
                &Token::Sentinel
            }
        }
    }

    /// Parses the operand under the cursor.
    pub fn prefix_parse_current_token(&mut self) -> (result: Result<NodeType, ParseError>)
        ensures
            agrees(result, prefix(old(self).lexemes(), old(self).cursor())),
            final(self).advanced(old(self), prefix(old(self).lexemes(), old(self).cursor()).used()),
        decreases remaining(old(self).lexemes(), old(self).cursor()), 2nat,
    {
        let t = self.current_token().clone();
        match t {
            Token::StringLiteral(a, _) => Ok(parse_data_value(self, a.as_str())),
            Token::Identifier(a, _) => Ok(parse_data_value(self, a.as_str())),
            Token::Punctuation(a, _) => parse_prefix_op(self, a),
            Token::Bracket(_, _) => parse_bracket_expr(self),
            Token::Operator(a, _) => parse_prefix_op(self, a),
            Token::Sentinel => Err(ParseError::MalformedExpression(Malformed::NoPrefixForm)),
        }
    }

    /// Tries the operator under the cursor as a postfix operator of `left`.
    /// The cursor stays where it is.
    pub fn try_postfix_parse_current_token(&self, left: NodeType) -> (result: Postfix)
        ensures
            match token_at(self.lexemes(), self.cursor() as int) {
                Lexeme::Operator(op, _) if spec_is_postfix_operator(op) => result matches Postfix::PostfixApplied(node)
                    && node@ == Tree::Operator(op, seq![left@]),
                _ => result == Postfix::NotPostfix(left),
            },
    {
        if let Token::Operator(op, _) = self.current_token() {
            if is_postfix_operator(*op) {
                let mut operands: Vec<Node> = Vec::new();
                operands.push(Node { kind: left });
                assert(forest(operands@) =~= seq![left@]);
                return Postfix::PostfixApplied(NodeType::Operator(*op, operands));
            }
        }
        Postfix::NotPostfix(left)
    }
}

/// Takes the literal or identifier under the cursor, whose text is `s`, as a
/// leaf.
fn parse_data_value(p: &mut Parser, s: &str) -> (node: NodeType)
    ensures
        node@ == Tree::Literal(s@, Seq::empty()),
        final(p).advanced(old(p), 1),
{
    p.consume_token();
    let node = NodeType::Literal(s.to_owned(), Vec::new());
    assert(forest(Seq::<Node>::empty()) =~= Seq::<Tree>::empty());
    node
}

/// Takes the bracket under the cursor, the expression behind it and one more
/// token.
fn parse_bracket_expr(p: &mut Parser) -> (result: Result<NodeType, ParseError>)
    requires
        old(p).cursor() < old(p).lexemes().len(),
    ensures
        agrees(
            result,
            close_group(expression(old(p).lexemes(), old(p).cursor() + 1, LOWEST_RANK as int)),
        ),
        final(p).advanced(
            old(p),
            close_group(
                expression(old(p).lexemes(), old(p).cursor() + 1, LOWEST_RANK as int),
            ).used(),
        ),
    decreases remaining(old(p).lexemes(), old(p).cursor()), 1nat,
{
    proof {
        p.lemma_within_range();
    }
    p.consume_token();
    let inner = match p.parse_expression(LOWEST_RANK) {
        Ok(node) => node,
        Err(error) => {
            return Err(error);
        },
    };
    p.consume_token();
    Ok(inner)
}

/// Takes the symbol `op` under the cursor as a prefix operator, with the
/// expression behind it as its operand.
fn parse_prefix_op(p: &mut Parser, op: char) -> (result: Result<NodeType, ParseError>)
    requires
        old(p).cursor() < old(p).lexemes().len(),
    ensures
        agrees(
            result,
            apply_prefix(op, expression(old(p).lexemes(), old(p).cursor() + 1, precedence(op))),
        ),
        final(p).advanced(
            old(p),
            apply_prefix(
                op,
                expression(old(p).lexemes(), old(p).cursor() + 1, precedence(op)),
            ).used(),
        ),
    decreases remaining(old(p).lexemes(), old(p).cursor()), 1nat,
{
    proof {
        p.lemma_within_range();
    }
    p.consume_token();
    let right = match p.parse_expression(get_precedence(op)) {
        Ok(node) => node,
        Err(error) => {
            return Err(error);
        },
    };
    let mut operands: Vec<Node> = Vec::new();
    operands.push(Node { kind: right });
    assert(forest(operands@) =~= seq![right@]);
    Ok(NodeType::Operator(op, operands))
}

/// Takes the operator `op` under the cursor as an infix operator, with `left`
/// as its left operand and the expression behind it as its right operand.
fn parse_infix(p: &mut Parser, op: char, left: NodeType) -> (result: Result<NodeType, ParseError>)
    requires
        old(p).cursor() < old(p).lexemes().len(),
    ensures
        agrees(
            result,
            apply_infix(
                op,
                left@,
                expression(old(p).lexemes(), old(p).cursor() + 1, precedence(op)),
            ),
        ),
        final(p).advanced(
            old(p),
            apply_infix(
                op,
                left@,
                expression(old(p).lexemes(), old(p).cursor() + 1, precedence(op)),
            ).used(),
        ),
    decreases remaining(old(p).lexemes(), old(p).cursor()), 1nat,
{
    proof {
        p.lemma_within_range();
    }
    p.consume_token();
    let right = match p.parse_expression(get_precedence(op)) {
        Ok(node) => node,
        Err(error) => {
            return Err(error);
        },
    };
    let mut operands: Vec<Node> = Vec::new();
    operands.push(Node { kind: left });
    operands.push(Node { kind: right });
    assert(forest(operands@) =~= seq![left@, right@]);
    Ok(NodeType::Operator(op, operands))
}

} // verus!
