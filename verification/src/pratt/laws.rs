//! What holds of the parsing rules on every token sequence.
use vstd::prelude::*;

use crate::lexer::laws::lemma_quoted_text_is_one_literal;
use crate::lexer::lexemes::Lexeme;
use crate::lexer::spec_is_lexical_quote;
use crate::lexer::tokenize;
use crate::nodes::Tree;
use crate::pratt::climb;
use crate::pratt::expression;
use crate::pratt::precedence;
use crate::pratt::prefix;
use crate::pratt::remaining;
use crate::pratt::roots;
use crate::pratt::Outcome;
use crate::pratt::LOWEST_RANK;

verus! {

/// The leaf that an operand token stands for.
pub open spec fn leaf(token: Lexeme) -> Tree
    recommends
        is_operand(token),
{
    match token {
        Lexeme::StringLiteral(text, _) => Tree::Literal(text, Seq::empty()),
        Lexeme::Identifier(text, _) => Tree::Literal(text, Seq::empty()),
        _ => arbitrary(),
    }
}

/// A string literal or an identifier.
pub open spec fn is_operand(token: Lexeme) -> bool {
    token is StringLiteral || token is Identifier
}

/// `op` applied to two operands.
pub open spec fn infix(op: char, left: Tree, right: Tree) -> Tree {
    Tree::Operator(op, seq![left, right])
}

/// Every tree that the parser builds is well formed: a leaf has no children,
/// an operator has one or two, and so on down the tree.
pub proof fn lemma_expression_well_formed(tokens: Seq<Lexeme>, pos: nat, min: int)
    ensures
        expression(tokens, pos, min) matches Outcome::Parsed { value, .. } ==> value.well_formed(),
    decreases remaining(tokens, pos), 2nat,
{
    match prefix(tokens, pos) {
        Outcome::Parsed { value, used } => {
            lemma_prefix_well_formed(tokens, pos);
            lemma_climb_well_formed(tokens, value, pos + used, min);
        },
        Outcome::Failed { .. } => {},
    }
}

/// The operand at `pos`, where there is one, is a well-formed tree.
pub proof fn lemma_prefix_well_formed(tokens: Seq<Lexeme>, pos: nat)
    ensures
        prefix(tokens, pos) matches Outcome::Parsed { value, .. } ==> value.well_formed(),
    decreases remaining(tokens, pos), 1nat,
{
    if pos < tokens.len() {
        match tokens[pos as int] {
            Lexeme::Punctuation(symbol, _) => {
                lemma_expression_well_formed(tokens, pos + 1, precedence(symbol));
            },
            Lexeme::Operator(symbol, _) => {
                lemma_expression_well_formed(tokens, pos + 1, precedence(symbol));
            },
            Lexeme::Bracket(_, _) => {
                lemma_expression_well_formed(tokens, pos + 1, LOWEST_RANK as int);
            },
            _ => {},
        }
    }
}

/// What grows out of a well-formed operand is a well-formed tree.
pub proof fn lemma_climb_well_formed(tokens: Seq<Lexeme>, left: Tree, pos: nat, min: int)
    requires
        left.well_formed(),
    ensures
        climb(tokens, left, pos, min) matches Outcome::Parsed { value, .. } ==> value.well_formed(),
    decreases remaining(tokens, pos), 0nat,
{
    if pos < tokens.len() {
        match tokens[pos as int] {
            Lexeme::Operator(op, _) => {
                if precedence(op) > min {
                    lemma_expression_well_formed(tokens, pos + 1, precedence(op));
                    match expression(tokens, pos + 1, precedence(op)) {
                        Outcome::Parsed { value: right, used } => {
                            lemma_climb_well_formed(
                                tokens,
                                infix(op, left, right),
                                pos + 1 + used,
                                min,
                            );
                        },
                        Outcome::Failed { .. } => {},
                    }
                }
            },
            _ => {},
        }
    }
}

/// Every root that a successful parse returns is a well-formed tree.
pub proof fn lemma_roots_well_formed(tokens: Seq<Lexeme>, pos: nat)
    ensures
        roots(tokens, pos) matches Outcome::Parsed { value, .. } ==> forall|i: int|
            0 <= i < value.len() ==> (#[trigger] value[i]).well_formed(),
    decreases remaining(tokens, pos),
{
    if pos < tokens.len() {
        lemma_expression_well_formed(tokens, pos, LOWEST_RANK as int);
        match expression(tokens, pos, LOWEST_RANK as int) {
            Outcome::Parsed { value, used } => {
                lemma_roots_well_formed(tokens, pos + used + 1);
            },
            Outcome::Failed { .. } => {},
        }
    }
}

/// A token sequence that is one operand parses to one root, the operand's
/// leaf.
pub proof fn lemma_single_operand(token: Lexeme)
    requires
        is_operand(token),
    ensures
        roots(seq![token], 0) == (Outcome::Parsed { value: seq![leaf(token)], used: 2 }),
{
    let tokens = seq![token];
    assert(prefix(tokens, 0) == (Outcome::Parsed { value: leaf(token), used: 1 }));
    assert(climb(tokens, leaf(token), 1, LOWEST_RANK as int) == (Outcome::Parsed {
        value: leaf(token),
        used: 0,
    }));
    assert(expression(tokens, 0, LOWEST_RANK as int) == (Outcome::Parsed {
        value: leaf(token),
        used: 1,
    }));
    assert(roots(tokens, 2) == (Outcome::Parsed { value: Seq::<Tree>::empty(), used: 0 }));
    assert(seq![leaf(token)] + Seq::<Tree>::empty() =~= seq![leaf(token)]);
}

/// Text between two quote characters, with no quote character in it, is
/// tokenized and parsed to one root: a leaf with no children that carries
/// the text as it is.
pub proof fn lemma_literal_round_trip(open: char, text: Seq<char>, close: char, line: i32)
    requires
        spec_is_lexical_quote(open),
        spec_is_lexical_quote(close),
        forall|i: int| 0 <= i < text.len() ==> !spec_is_lexical_quote(#[trigger] text[i]),
    ensures
        roots(tokenize(seq![open] + text + seq![close], line).tokens, 0) == (Outcome::Parsed {
            value: seq![Tree::Literal(text, Seq::empty())],
            used: 2,
        }),
{
    lemma_quoted_text_is_one_literal(open, text, close, line);
    lemma_single_operand(Lexeme::StringLiteral(text, line));
}

/// An operand followed by a token that ends the expression is an expression
/// of its own, at whatever rank it is parsed.
proof fn lemma_operand_alone(tokens: Seq<Lexeme>, pos: nat, min: int)
    requires
        pos < tokens.len(),
        is_operand(tokens[pos as int]),
        pos + 1 < tokens.len() ==> ends_expression(tokens[pos as int + 1], min),
    ensures
        expression(tokens, pos, min) == (Outcome::Parsed {
            value: leaf(tokens[pos as int]),
            used: 1,
        }),
{
    let operand = leaf(tokens[pos as int]);
    assert(prefix(tokens, pos) == (Outcome::Parsed { value: operand, used: 1 }));
    assert(climb(tokens, operand, pos + 1, min) == (Outcome::Parsed { value: operand, used: 0 }));
}

/// A token that ends an expression parsed at rank `min`: a bracket, a
/// punctuation mark, or an operator that binds no tighter than `min`.
pub open spec fn ends_expression(token: Lexeme, min: int) -> bool {
    match token {
        Lexeme::Bracket(_, _) => true,
        Lexeme::Punctuation(_, _) => true,
        Lexeme::Operator(op, _) => precedence(op) <= min,
        _ => false,
    }
}

/// Precedence: in `x p y q z`, where `q` binds tighter than `p`, the operand
/// `y` belongs to `q`: the root is `p`, and its right operand is `y q z`.
pub proof fn lemma_tighter_operator_binds_first(
    x: Lexeme,
    p: char,
    y: Lexeme,
    q: char,
    z: Lexeme,
    line: i32,
)
    requires
        is_operand(x),
        is_operand(y),
        is_operand(z),
        LOWEST_RANK < precedence(p) < precedence(q),
    ensures
        roots(seq![x, Lexeme::Operator(p, line), y, Lexeme::Operator(q, line), z], 0) == (
        Outcome::Parsed {
            value: seq![infix(p, leaf(x), infix(q, leaf(y), leaf(z)))],
            used: 6,
        }),
{
    let tokens = seq![x, Lexeme::Operator(p, line), y, Lexeme::Operator(q, line), z];
    let low = LOWEST_RANK as int;
    let product = infix(q, leaf(y), leaf(z));
    let sum = infix(p, leaf(x), product);
    // The right operand of `p`: `y q z`.
    lemma_operand_alone(tokens, 4, precedence(q));
    assert(climb(tokens, product, 5, precedence(p)) == (Outcome::Parsed {
        value: product,
        used: 0,
    }));
    assert(climb(tokens, leaf(y), 3, precedence(p)) == (Outcome::Parsed {
        value: product,
        used: 2,
    }));
    assert(prefix(tokens, 2) == (Outcome::Parsed { value: leaf(y), used: 1 }));
    assert(expression(tokens, 2, precedence(p)) == (Outcome::Parsed { value: product, used: 3 }));
    // The whole expression.
    assert(climb(tokens, sum, 5, low) == (Outcome::Parsed { value: sum, used: 0 }));
    assert(climb(tokens, leaf(x), 1, low) == (Outcome::Parsed { value: sum, used: 4 }));
    assert(prefix(tokens, 0) == (Outcome::Parsed { value: leaf(x), used: 1 }));
    assert(expression(tokens, 0, low) == (Outcome::Parsed { value: sum, used: 5 }));
    assert(roots(tokens, 6) == (Outcome::Parsed { value: Seq::<Tree>::empty(), used: 0 }));
    assert(seq![sum] + Seq::<Tree>::empty() =~= seq![sum]);
}

/// Associativity: in `x p y q z`, where `q` binds no tighter than `p`, the
/// operand `y` belongs to `p`: the root is `q`, and its left operand is
/// `x p y`. Operators of equal rank therefore group to the left.
pub proof fn lemma_equal_rank_groups_left(
    x: Lexeme,
    p: char,
    y: Lexeme,
    q: char,
    z: Lexeme,
    line: i32,
)
    requires
        is_operand(x),
        is_operand(y),
        is_operand(z),
        LOWEST_RANK < precedence(q) <= precedence(p),
    ensures
        roots(seq![x, Lexeme::Operator(p, line), y, Lexeme::Operator(q, line), z], 0) == (
        Outcome::Parsed {
            value: seq![infix(q, infix(p, leaf(x), leaf(y)), leaf(z))],
            used: 6,
        }),
{
    let tokens = seq![x, Lexeme::Operator(p, line), y, Lexeme::Operator(q, line), z];
    let low = LOWEST_RANK as int;
    let first = infix(p, leaf(x), leaf(y));
    let both = infix(q, first, leaf(z));
    lemma_operand_alone(tokens, 2, precedence(p));
    lemma_operand_alone(tokens, 4, precedence(q));
    assert(climb(tokens, both, 5, low) == (Outcome::Parsed { value: both, used: 0 }));
    assert(climb(tokens, first, 3, low) == (Outcome::Parsed { value: both, used: 2 }));
    assert(climb(tokens, leaf(x), 1, low) == (Outcome::Parsed { value: both, used: 4 }));
    assert(prefix(tokens, 0) == (Outcome::Parsed { value: leaf(x), used: 1 }));
    assert(expression(tokens, 0, low) == (Outcome::Parsed { value: both, used: 5 }));
    assert(roots(tokens, 6) == (Outcome::Parsed { value: Seq::<Tree>::empty(), used: 0 }));
    assert(seq![both] + Seq::<Tree>::empty() =~= seq![both]);
}

/// Grouping: in `( x p y ) q z` the group is one operand, however tight `q`
/// binds: the root is `q`, and its left operand is `x p y`. The brackets
/// leave no node in the tree.
pub proof fn lemma_group_is_one_operand(
    opening: char,
    x: Lexeme,
    p: char,
    y: Lexeme,
    closing: char,
    q: char,
    z: Lexeme,
    line: i32,
)
    requires
        is_operand(x),
        is_operand(y),
        is_operand(z),
        LOWEST_RANK < precedence(p),
        LOWEST_RANK < precedence(q),
    ensures
        roots(
            seq![
                Lexeme::Bracket(opening, line),
                x,
                Lexeme::Operator(p, line),
                y,
                Lexeme::Bracket(closing, line),
                Lexeme::Operator(q, line),
                z,
            ],
            0,
        ) == (Outcome::Parsed {
            value: seq![infix(q, infix(p, leaf(x), leaf(y)), leaf(z))],
            used: 8,
        }),
{
    let tokens = seq![
        Lexeme::Bracket(opening, line),
        x,
        Lexeme::Operator(p, line),
        y,
        Lexeme::Bracket(closing, line),
        Lexeme::Operator(q, line),
        z,
    ];
    let low = LOWEST_RANK as int;
    let group = infix(p, leaf(x), leaf(y));
    let both = infix(q, group, leaf(z));
    // Inside the brackets.
    lemma_operand_alone(tokens, 3, precedence(p));
    assert(climb(tokens, group, 4, low) == (Outcome::Parsed { value: group, used: 0 }));
    assert(climb(tokens, leaf(x), 2, low) == (Outcome::Parsed { value: group, used: 2 }));
    assert(prefix(tokens, 1) == (Outcome::Parsed { value: leaf(x), used: 1 }));
    assert(expression(tokens, 1, low) == (Outcome::Parsed { value: group, used: 3 }));
    assert(prefix(tokens, 0) == (Outcome::Parsed { value: group, used: 5 }));
    // Behind them.
    lemma_operand_alone(tokens, 6, precedence(q));
    assert(climb(tokens, both, 7, low) == (Outcome::Parsed { value: both, used: 0 }));
    assert(climb(tokens, group, 5, low) == (Outcome::Parsed { value: both, used: 2 }));
    assert(expression(tokens, 0, low) == (Outcome::Parsed { value: both, used: 7 }));
    assert(roots(tokens, 8) == (Outcome::Parsed { value: Seq::<Tree>::empty(), used: 0 }));
    assert(seq![both] + Seq::<Tree>::empty() =~= seq![both]);
}

/// Separation: in `x , y`, with any punctuation mark between the operands,
/// each operand is a root of its own, in the order of the tokens.
pub proof fn lemma_punctuation_separates_roots(x: Lexeme, mark: char, y: Lexeme, line: i32)
    requires
        is_operand(x),
        is_operand(y),
    ensures
        roots(seq![x, Lexeme::Punctuation(mark, line), y], 0) == (Outcome::Parsed {
            value: seq![leaf(x), leaf(y)],
            used: 4,
        }),
{
    let tokens = seq![x, Lexeme::Punctuation(mark, line), y];
    let low = LOWEST_RANK as int;
    lemma_operand_alone(tokens, 0, low);
    lemma_operand_alone(tokens, 2, low);
    assert(roots(tokens, 4) == (Outcome::Parsed { value: Seq::<Tree>::empty(), used: 0 }));
    assert(roots(tokens, 2) == (Outcome::Parsed { value: seq![leaf(y)], used: 2 })) by {
        assert(seq![leaf(y)] + Seq::<Tree>::empty() =~= seq![leaf(y)]);
    }
    assert(seq![leaf(x)] + seq![leaf(y)] =~= seq![leaf(x), leaf(y)]);
}

/// A symbol that starts an expression is a prefix operator, whether the
/// precedence table lists it or not: `p x` parses to `p` applied to `x`.
pub proof fn lemma_leading_operator_is_prefix(p: char, x: Lexeme, line: i32)
    requires
        is_operand(x),
    ensures
        roots(seq![Lexeme::Operator(p, line), x], 0) == (Outcome::Parsed {
            value: seq![Tree::Operator(p, seq![leaf(x)])],
            used: 3,
        }),
{
    let tokens = seq![Lexeme::Operator(p, line), x];
    let low = LOWEST_RANK as int;
    let applied = Tree::Operator(p, seq![leaf(x)]);
    lemma_operand_alone(tokens, 1, precedence(p));
    assert(prefix(tokens, 0) == (Outcome::Parsed { value: applied, used: 2 }));
    assert(climb(tokens, applied, 2, low) == (Outcome::Parsed { value: applied, used: 0 }));
    assert(roots(tokens, 3) == (Outcome::Parsed { value: Seq::<Tree>::empty(), used: 0 }));
    assert(seq![applied] + Seq::<Tree>::empty() =~= seq![applied]);
}

} // verus!
