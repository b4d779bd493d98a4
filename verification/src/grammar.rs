//! The grammar of expressions, over the tokens of a text.
//!
//! The grammar is stratified: an expression of a level is an expression of
//! the next level, followed by any number of operators of its own level, each
//! with an expression of the next level (for `^`, which groups to the right:
//! of the same level) after it. The levels, from the loosest: `+ -`, then
//! `* /`, then `^`, then the operands.

use vstd::prelude::*;
use crate::ast::{is_decimal, is_unsigned_decimal, Expr, Operator};
use crate::lexer::{lemma_lexemes_well_scanned, lexemes, well_scanned, Lexeme, TokenKind};
use crate::text::{digit_run, is_digit};

verus! {

/// What the grammar wanted where it found something else.
#[derive(Debug, Copy, Clone, PartialEq, Eq, Structural)]
pub enum Expected {
    /// A number, a variable, an opening parenthesis or a minus sign.
    Operand,
    /// An operator or the closing parenthesis of the group that is open.
    Closing,
    /// An operator or the end of the text.
    End,
}

/// A violation of the grammar: the index of the character at which the
/// offending token starts (the length of the text where the text ends too
/// early), and what the grammar wanted there.
#[derive(Debug, Copy, Clone, PartialEq, Eq, Structural)]
pub struct ParseError {
    pub position: usize,
    pub expected: Expected,
}

/// What a part of the grammar gives: a tree and the number of tokens that it
/// covers, or the violation that it met.
pub type Parsed = Result<(Expr, nat), ParseError>;

/// The level of operands, above the level of every operator.
pub open spec fn operand_level() -> nat {
    3
}

/// The class of the token at index `k`; past the last token, `End`.
pub open spec fn kind_at(tokens: Seq<Lexeme>, k: int) -> TokenKind {
    if 0 <= k < tokens.len() {
        tokens[k].kind
    } else {
        TokenKind::End
    }
}

/// How many tokens stand from index `k` on.
pub open spec fn remaining(tokens: Seq<Lexeme>, k: int) -> nat {
    if k <= tokens.len() {
        (tokens.len() - k) as nat
    } else {
        0
    }
}

/// The characters that the token at index `k` covers.
pub open spec fn word(text: Seq<char>, tokens: Seq<Lexeme>, k: int) -> Seq<char> {
    text.subrange(tokens[k].start, tokens[k].end)
}

/// The violation found at the token at index `k`.
pub open spec fn violation(tokens: Seq<Lexeme>, k: int, expected: Expected) -> ParseError {
    ParseError { position: tokens[k].start as usize, expected }
}

/// The operator that a token of class `kind` stands for between two operands.
pub open spec fn infix(kind: TokenKind) -> Option<Operator> {
    match kind {
        TokenKind::Plus => Some(Operator::Plus),
        TokenKind::Minus => Some(Operator::Minus),
        TokenKind::Star => Some(Operator::Multiply),
        TokenKind::Slash => Some(Operator::Divide),
        TokenKind::Caret => Some(Operator::Exponent),
        _ => None,
    }
}

/// The level of an operator: the higher, the tighter it binds.
pub open spec fn level(op: Operator) -> nat {
    match op {
        Operator::Plus | Operator::Minus => 0,
        Operator::Multiply | Operator::Divide => 1,
        Operator::Exponent => 2,
        Operator::Negative => operand_level(),
    }
}

/// Whether the operators of a level group to the right.
pub open spec fn groups_right(level: nat) -> bool {
    level == 2
}

/// The text of the number that a minus sign in front of a literal is folded
/// into.
pub open spec fn minus_one() -> Seq<char> {
    seq!['-', '1']
}

/// The same result, covering `n` more tokens.
pub open spec fn after(n: nat, parsed: Parsed) -> Parsed {
    match parsed {
        Ok((tree, m)) => Ok((tree, n + m)),
        Err(e) => Err(e),
    }
}

/// The rank of the expressions of a level in the order that the definitions
/// below recur by.
pub open spec fn rank(level: nat) -> nat {
    if level >= operand_level() {
        1
    } else {
        (operand_level() - level + 1) as nat
    }
}

/// An operand at token `k`: a number, a variable, an expression in
/// parentheses, or a minus sign and an operand. A minus sign directly in
/// front of a number gives the product of minus one and the number; in front
/// of anything else it gives a unary node.
pub open spec fn operand(text: Seq<char>, tokens: Seq<Lexeme>, k: int) -> Parsed
    decreases remaining(tokens, k), 0nat,
{
    match kind_at(tokens, k) {
        TokenKind::Number => Ok((Expr::Number(word(text, tokens, k)), 1)),
        TokenKind::Variable => Ok((Expr::Variable(word(text, tokens, k)), 1)),
        TokenKind::Open => match expression(text, tokens, k + 1, 0) {
            Ok((inner, n)) => if kind_at(tokens, k + 1 + n) == TokenKind::Close {
                Ok((inner, n + 2))
            } else {
                Err(violation(tokens, k + 1 + n, Expected::Closing))
            },
            Err(e) => Err(e),
        },
        TokenKind::Minus => if kind_at(tokens, k + 1) == TokenKind::Number {
            Ok(
                (
                    Expr::Binary(
                        Operator::Multiply,
                        Box::new(Expr::Number(minus_one())),
                        Box::new(Expr::Number(word(text, tokens, k + 1))),
                    ),
                    2,
                ),
            )
        } else {
            match operand(text, tokens, k + 1) {
                Ok((inner, n)) => Ok((Expr::Unary(Box::new(inner)), n + 1)),
                Err(e) => Err(e),
            }
        },
        _ => Err(violation(tokens, k, Expected::Operand)),
    }
}

/// An expression at token `k` whose operators outside parentheses are all of
/// level `floor` or above.
pub open spec fn expression(text: Seq<char>, tokens: Seq<Lexeme>, k: int, floor: nat) -> Parsed
    decreases remaining(tokens, k), rank(floor),
{
    if floor >= operand_level() {
        operand(text, tokens, k)
    } else {
        match expression(text, tokens, k, floor + 1) {
            Ok((first, n)) => after(n, chain(text, tokens, floor, first, k + n)),
            Err(e) => Err(e),
        }
    }
}

/// What follows the expression `left` at token `k` on its own level: nothing,
/// or an operator of level `own` and its right operand, and so on. Operators
/// that group to the left take an expression of the next level as their right
/// operand, and the node they form is the left operand of what follows;
/// operators that group to the right take all that follows on their level.
pub open spec fn chain(
    text: Seq<char>,
    tokens: Seq<Lexeme>,
    own: nat,
    left: Expr,
    k: int,
) -> Parsed
    decreases remaining(tokens, k), 0nat,
{
    match infix(kind_at(tokens, k)) {
        Some(op) if level(op) == own => {
            if groups_right(own) {
                match expression(text, tokens, k + 1, own) {
                    Ok((right, n)) => Ok(
                        (Expr::Binary(op, Box::new(left), Box::new(right)), 1 + n),
                    ),
                    Err(e) => Err(e),
                }
            } else {
                match expression(text, tokens, k + 1, own + 1) {
                    Ok((right, n)) => after(
                        1 + n,
                        chain(
                            text,
                            tokens,
                            own,
                            Expr::Binary(op, Box::new(left), Box::new(right)),
                            k + 1 + n,
                        ),
                    ),
                    Err(e) => Err(e),
                }
            }
        },
        _ => Ok((left, 0)),
    }
}

/// The tree of a whole sequence of tokens: one expression, with `End` after
/// it.
pub open spec fn equation(text: Seq<char>, tokens: Seq<Lexeme>) -> Result<Expr, ParseError> {
    match expression(text, tokens, 0, 0) {
        Ok((tree, n)) => if kind_at(tokens, n as int) == TokenKind::End {
            Ok(tree)
        } else {
            Err(violation(tokens, n as int, Expected::End))
        },
        Err(e) => Err(e),
    }
}

/// The syntax tree of a source text, or the violation of the grammar that
/// stands first in it.
pub open spec fn syntax_tree(text: Seq<char>) -> Result<Expr, ParseError> {
    equation(text, lexemes(text))
}

/// The text of an unsigned decimal literal is a decimal literal.
pub proof fn lemma_unsigned_is_decimal(text: Seq<char>)
    requires
        is_unsigned_decimal(text),
    ensures
        is_decimal(text),
{
    assert(digit_run(text, 0) >= 1);
    assert(is_digit(text[0]));
}

/// The text that a folded minus sign stands for is a decimal literal.
pub proof fn lemma_minus_one_is_decimal()
    ensures
        is_decimal(minus_one()),
{
    let digits = minus_one().skip(1);
    assert(digits =~= seq!['1']);
    reveal_with_fuel(digit_run, 3);
    assert(digit_run(digits, 0) == 1);
}

/// An operand of well scanned tokens is a well-formed tree.
pub proof fn lemma_operand_well_formed(text: Seq<char>, tokens: Seq<Lexeme>, k: int)
    requires
        well_scanned(text, tokens),
    ensures
        operand(text, tokens, k) matches Ok((tree, _)) ==> tree.well_formed(),
    decreases remaining(tokens, k), 0nat,
{
    lemma_minus_one_is_decimal();
    match kind_at(tokens, k) {
        TokenKind::Number => {
            lemma_unsigned_is_decimal(word(text, tokens, k));
        },
        TokenKind::Open => {
            lemma_expression_well_formed(text, tokens, k + 1, 0);
        },
        TokenKind::Minus => {
            if kind_at(tokens, k + 1) == TokenKind::Number {
                lemma_unsigned_is_decimal(word(text, tokens, k + 1));
                assert(Expr::Number(minus_one()).well_formed());
                assert(Expr::Number(word(text, tokens, k + 1)).well_formed());
            } else {
                lemma_operand_well_formed(text, tokens, k + 1);
            }
        },
        _ => {},
    }
}

/// An expression of well scanned tokens is a well-formed tree.
pub proof fn lemma_expression_well_formed(
    text: Seq<char>,
    tokens: Seq<Lexeme>,
    k: int,
    floor: nat,
)
    requires
        well_scanned(text, tokens),
    ensures
        expression(text, tokens, k, floor) matches Ok((tree, _)) ==> tree.well_formed(),
    decreases remaining(tokens, k), rank(floor),
{
    if floor >= operand_level() {
        lemma_operand_well_formed(text, tokens, k);
    } else {
        lemma_expression_well_formed(text, tokens, k, floor + 1);
        match expression(text, tokens, k, floor + 1) {
            Ok((first, n)) => {
                lemma_chain_well_formed(text, tokens, floor, first, k + n);
            },
            Err(_) => {},
        }
    }
}

/// What follows a well-formed tree on its level makes a well-formed tree
/// with it.
pub proof fn lemma_chain_well_formed(
    text: Seq<char>,
    tokens: Seq<Lexeme>,
    own: nat,
    left: Expr,
    k: int,
)
    requires
        well_scanned(text, tokens),
        left.well_formed(),
    ensures
        chain(text, tokens, own, left, k) matches Ok((tree, _)) ==> tree.well_formed(),
    decreases remaining(tokens, k), 0nat,
{
    match infix(kind_at(tokens, k)) {
        Some(op) => {
            if level(op) == own {
                if groups_right(own) {
                    lemma_expression_well_formed(text, tokens, k + 1, own);
                } else {
                    lemma_expression_well_formed(text, tokens, k + 1, own + 1);
                    match expression(text, tokens, k + 1, own + 1) {
                        Ok((right, n)) => {
                            lemma_chain_well_formed(
                                text,
                                tokens,
                                own,
                                Expr::Binary(op, Box::new(left), Box::new(right)),
                                k + 1 + n,
                            );
                        },
                        Err(_) => {},
                    }
                }
            }
        },
        None => {},
    }
}

/// The syntax tree of a text is well formed: its numbers are decimal
/// literals, and none of its binary nodes carries the `Negative` marker.
pub proof fn lemma_syntax_tree_well_formed(text: Seq<char>)
    ensures
        syntax_tree(text) matches Ok(tree) ==> tree.well_formed(),
{
    lemma_lexemes_well_scanned(text, 0);
    lemma_expression_well_formed(text, lexemes(text), 0, 0);
}

} // verus!
