//! The parser: from source text to a syntax tree, by precedence climbing.
//!
//! Precedence climbing reads an operand and then, in one loop, every operator
//! that binds at least as tightly as a given floor, each with a right operand
//! read above a floor of its own. This module proves that the tree it builds
//! is the one that the stratified grammar defines.

use vstd::prelude::*;
use vstd::string::*;
use crate::ast::{Expr, Node, Operator};
use crate::grammar::{
    after, chain, equation, expression, groups_right, infix, kind_at, level, minus_one, operand,
    lemma_minus_one_is_decimal, lemma_unsigned_is_decimal, operand_level, rank, remaining,
    syntax_tree, violation, word, Expected, ParseError, Parsed,
};
use crate::lexer::{lexemes_of, scan, well_scanned, Lexeme, Token, TokenKind};
use crate::text::{characters, slice};

verus! {

/// The floor above which the right operand of `op` is read: the level of
/// `op` itself where it groups to the right, the next level where it groups
/// to the left.
pub open spec fn right_floor(op: Operator) -> nat {
    if groups_right(level(op)) {
        level(op)
    } else {
        level(op) + 1
    }
}

/// What precedence climbing makes of the expression `left` at token `k`
/// above the floor `floor`: as long as an operator of level `floor` or above
/// stands there, it reads the operator's right operand and goes on with the
/// node of the two.
pub open spec fn climbing(
    text: Seq<char>,
    tokens: Seq<Lexeme>,
    floor: nat,
    left: Expr,
    k: int,
) -> Parsed
    decreases remaining(tokens, k),
{
    match infix(kind_at(tokens, k)) {
        Some(op) if level(op) >= floor => match expression(text, tokens, k + 1, right_floor(op)) {
            Ok((right, n)) => after(
                1 + n,
                climbing(
                    text,
                    tokens,
                    floor,
                    Expr::Binary(op, Box::new(left), Box::new(right)),
                    k + 1 + n,
                ),
            ),
            Err(e) => Err(e),
        },
        _ => Ok((left, 0)),
    }
}

/// Whether no operator of level `floor` or above stands at token `k`.
pub open spec fn ends_level(tokens: Seq<Lexeme>, k: int, floor: nat) -> bool {
    match infix(kind_at(tokens, k)) {
        Some(op) => level(op) < floor,
        None => true,
    }
}

/// After an expression of a level no operator of that level or above stands.
pub proof fn lemma_expression_ends(text: Seq<char>, tokens: Seq<Lexeme>, k: int, floor: nat)
    ensures
        expression(text, tokens, k, floor) matches Ok((_, n)) ==> ends_level(tokens, k + n, floor),
    decreases remaining(tokens, k), rank(floor),
{
    if floor < operand_level() {
        lemma_expression_ends(text, tokens, k, floor + 1);
        match expression(text, tokens, k, floor + 1) {
            Ok((first, n)) => {
                lemma_chain_ends(text, tokens, floor, first, k + n);
            },
            Err(_) => {},
        }
    }
}

/// After the operators of a level and their operands no operator of that
/// level or above stands, where none of a higher level stood before them.
pub proof fn lemma_chain_ends(
    text: Seq<char>,
    tokens: Seq<Lexeme>,
    own: nat,
    left: Expr,
    k: int,
)
    requires
        ends_level(tokens, k, own + 1),
    ensures
        chain(text, tokens, own, left, k) matches Ok((_, n)) ==> ends_level(tokens, k + n, own),
    decreases remaining(tokens, k), 0nat,
{
    match infix(kind_at(tokens, k)) {
        Some(op) => {
            if level(op) == own {
                if groups_right(own) {
                    lemma_expression_ends(text, tokens, k + 1, own);
                } else {
                    lemma_expression_ends(text, tokens, k + 1, own + 1);
                    match expression(text, tokens, k + 1, own + 1) {
                        Ok((right, n)) => {
                            lemma_chain_ends(
                                text,
                                tokens,
                                own,
                                Expr::Binary(op, Box::new(left), Box::new(right)),
                                k + 1 + n,
                            );
                        },
                        Err(_) => {},
                    }
                }
            }
        },
        None => {},
    }
}

/// Where no operator above a level stands, climbing above that level reads
/// what the grammar lets follow on that level.
pub proof fn lemma_climbing_on_level(
    text: Seq<char>,
    tokens: Seq<Lexeme>,
    own: nat,
    left: Expr,
    k: int,
)
    requires
        ends_level(tokens, k, own + 1),
    ensures
        climbing(text, tokens, own, left, k) == chain(text, tokens, own, left, k),
    decreases remaining(tokens, k),
{
    match infix(kind_at(tokens, k)) {
        Some(op) => {
            if level(op) == own {
                let floor = right_floor(op);
                lemma_expression_ends(text, tokens, k + 1, floor);
                match expression(text, tokens, k + 1, floor) {
                    Ok((right, n)) => {
                        let node = Expr::Binary(op, Box::new(left), Box::new(right));
                        if groups_right(own) {
                            assert(climbing(text, tokens, own, node, k + 1 + n) == Ok::<
                                (Expr, nat),
                                ParseError,
                            >((node, 0)));
                        } else {
                            lemma_climbing_on_level(text, tokens, own, node, k + 1 + n);
                        }
                    },
                    Err(_) => {},
                }
            }
        },
        None => {},
    }
}

/// Climbing above a floor is climbing above the next floor, followed by what
/// the grammar lets follow on the level of the floor.
pub proof fn lemma_climbing_splits(
    text: Seq<char>,
    tokens: Seq<Lexeme>,
    floor: nat,
    left: Expr,
    k: int,
)
    ensures
        climbing(text, tokens, floor, left, k) == match climbing(text, tokens, floor + 1, left, k) {
            Ok((mid, n)) => after(n, chain(text, tokens, floor, mid, k + n)),
            Err(e) => Err(e),
        },
    decreases remaining(tokens, k),
{
    match infix(kind_at(tokens, k)) {
        Some(op) => {
            if level(op) > floor {
                match expression(text, tokens, k + 1, right_floor(op)) {
                    Ok((right, n)) => {
                        lemma_climbing_splits(
                            text,
                            tokens,
                            floor,
                            Expr::Binary(op, Box::new(left), Box::new(right)),
                            k + 1 + n,
                        );
                    },
                    Err(_) => {},
                }
            } else if level(op) == floor {
                lemma_climbing_on_level(text, tokens, floor, left, k);
            }
        },
        None => {},
    }
}

/// Precedence climbing builds the tree of the grammar: an expression above a
/// floor is an operand, followed by what climbing above that floor reads
/// after it.
pub proof fn lemma_climbing_is_expression(
    text: Seq<char>,
    tokens: Seq<Lexeme>,
    k: int,
    floor: nat,
)
    ensures
        expression(text, tokens, k, floor) == match operand(text, tokens, k) {
            Ok((first, n)) => after(n, climbing(text, tokens, floor, first, k + n)),
            Err(e) => Err(e),
        },
    decreases rank(floor),
{
    if floor < operand_level() {
        lemma_climbing_is_expression(text, tokens, k, floor + 1);
        match operand(text, tokens, k) {
            Ok((first, n)) => {
                lemma_climbing_splits(text, tokens, floor, first, k + n);
            },
            Err(_) => {},
        }
    }
}

/// Whether `result` is what the parser owes for `parsed` at token `k` of
/// `len` tokens: the same violation, or a well-formed tree with the same
/// model and the index of the token after it, which is never past `End`.
pub open spec fn delivers(
    parsed: Parsed,
    result: Result<(Node, usize), ParseError>,
    k: int,
    len: int,
) -> bool {
    match parsed {
        Ok((tree, n)) => {
            &&& result matches Ok((node, next))
            &&& node@ == tree
            &&& node.well_formed()
            &&& next == k + n
            &&& k < next < len
        },
        Err(e) => result matches Err(found) && found == e,
    }
}

/// The operator that a token of class `kind` stands for between two operands.
fn infix_of(kind: TokenKind) -> (op: Option<Operator>)
    ensures
        op == infix(kind),
{
    match kind {
        TokenKind::Plus => Some(Operator::Plus),
        TokenKind::Minus => Some(Operator::Minus),
        TokenKind::Star => Some(Operator::Multiply),
        TokenKind::Slash => Some(Operator::Divide),
        TokenKind::Caret => Some(Operator::Exponent),
        _ => None,
    }
}

/// The level of an operator.
fn level_of(op: Operator) -> (l: usize)
    ensures
        l == level(op),
{
    match op {
        Operator::Plus | Operator::Minus => 0,
        Operator::Multiply | Operator::Divide => 1,
        Operator::Exponent => 2,
        Operator::Negative => 3,
    }
}

/// The floor above which the right operand of `op` is read.
fn right_floor_of(op: Operator) -> (floor: usize)
    ensures
        floor == right_floor(op),
{
    match op {
        Operator::Exponent => level_of(op),
        _ => level_of(op) + 1,
    }
}

/// Reads the operand that starts at token `k`.
fn read_operand(source: &str, ascii: bool, tokens: &Vec<Token>, k: usize) -> (result: Result<
    (Node, usize),
    ParseError,
>)
    requires
        ascii ==> source.is_ascii(),
        well_scanned(source@, lexemes_of(tokens@)),
        k < tokens.len(),
    ensures
        delivers(
            operand(source@, lexemes_of(tokens@), k as int),
            result,
            k as int,
            tokens.len() as int,
        ),
    decreases tokens.len() - k, 0nat,
{
    let ghost text = source@;
    let ghost lexemes = lexemes_of(tokens@);
    let token = tokens[k];
    assert(lexemes[k as int] == token@);
    match token.kind {
        TokenKind::Number => {
            let digits = slice(source, ascii, token.start, token.end);
            proof {
                lemma_unsigned_is_decimal(word(text, lexemes, k as int));
            }
            Ok((Node::Num(digits), k + 1))
        },
        TokenKind::Variable => {
            let name = slice(source, ascii, token.start, token.end);
            Ok((Node::Var(name), k + 1))
        },
        TokenKind::Open => {
            match climb(source, ascii, tokens, k + 1, 0) {
                Ok((inner, next)) => {
                    let closing = tokens[next];
                    assert(lexemes[next as int] == closing@);
                    if closing.kind == TokenKind::Close {
                        Ok((inner, next + 1))
                    } else {
                        Err(ParseError { position: closing.start, expected: Expected::Closing })
                    }
                },
                Err(e) => Err(e),
            }
        },
        TokenKind::Minus => {
            let following = tokens[k + 1];
            assert(lexemes[k + 1] == following@);
            if following.kind == TokenKind::Number {
                let digits = slice(source, ascii, following.start, following.end);
                let factor = "-1".to_owned();
                proof {
                    reveal_strlit("-1");
                    assert(factor@ =~= minus_one());
                    lemma_minus_one_is_decimal();
                    lemma_unsigned_is_decimal(word(text, lexemes, k + 1));
                }
                let lhs = Node::Num(factor);
                let rhs = Node::Num(digits);
                assert(lhs@ == Expr::Number(minus_one()) && lhs.well_formed());
                assert(rhs@ == Expr::Number(word(text, lexemes, k + 1)) && rhs.well_formed());
                let node = Node::BinaryExpr {
                    op: Operator::Multiply,
                    lhs: Box::new(lhs),
                    rhs: Box::new(rhs),
                };
                Ok((node, k + 2))
            } else {
                match read_operand(source, ascii, tokens, k + 1) {
                    Ok((inner, next)) => Ok((Node::UnaryExpr(Box::new(inner)), next)),
                    Err(e) => Err(e),
                }
            }
        },
        _ => Err(ParseError { position: token.start, expected: Expected::Operand }),
    }
}

/// Reads the expression that starts at token `k` and whose operators outside
/// parentheses are all of level `floor` or above, by precedence climbing.
#[verifier::loop_isolation(false)]
fn climb(source: &str, ascii: bool, tokens: &Vec<Token>, k: usize, floor: usize) -> (result:
    Result<(Node, usize), ParseError>)
    requires
        ascii ==> source.is_ascii(),
        well_scanned(source@, lexemes_of(tokens@)),
        k < tokens.len(),
    ensures
        delivers(
            expression(source@, lexemes_of(tokens@), k as int, floor as nat),
            result,
            k as int,
            tokens.len() as int,
        ),
    decreases tokens.len() - k, 1nat,
{
    let ghost text = source@;
    let ghost lexemes = lexemes_of(tokens@);
    let ghost goal = expression(text, lexemes, k as int, floor as nat);
    proof {
        lemma_climbing_is_expression(text, lexemes, k as int, floor as nat);
    }
    let (first, start) = match read_operand(source, ascii, tokens, k) {
        Ok(read) => read,
        Err(e) => {
            return Err(e);
        },
    };
    let mut left = first;
    let mut at = start;
    let mut done = false;
    while !done
        invariant
            k < at < tokens.len(),
            left.well_formed(),
            goal == after((at - k) as nat, climbing(text, lexemes, floor as nat, left@, at as int)),
            done ==> climbing(text, lexemes, floor as nat, left@, at as int) == Ok::<
                (Expr, nat),
                ParseError,
            >((left@, 0)),
        decreases tokens.len() - at, if done { 0nat } else { 1nat },
    {
        let token = tokens[at];
        assert(lexemes[at as int] == token@);
        match infix_of(token.kind) {
            Some(op) => {
                if level_of(op) >= floor {
                    match climb(source, ascii, tokens, at + 1, right_floor_of(op)) {
                        Ok((right, next)) => {
                            left = Node::BinaryExpr {
                                op,
                                lhs: Box::new(left),
                                rhs: Box::new(right),
                            };
                            at = next;
                        },
                        Err(e) => {
                            return Err(e);
                        },
                    }
                } else {
                    done = true;
                }
            },
            None => {
                done = true;
            },
        }
    }
    Ok((left, at))
}

/// Builds the syntax tree of a sequence of tokens of `source`.
pub fn parse_tokens(source: &str, tokens: &Vec<Token>) -> (result: Result<Node, ParseError>)
    requires
        well_scanned(source@, lexemes_of(tokens@)),
    ensures
        parsed_as(equation(source@, lexemes_of(tokens@)), result),
{
    let ascii = source.is_ascii();
    match climb(source, ascii, tokens, 0, 0) {
        Ok((tree, next)) => {
            let last = tokens[next];
            assert(lexemes_of(tokens@)[next as int] == last@);
            if last.kind == TokenKind::End {
                Ok(tree)
            } else {
                Err(ParseError { position: last.start, expected: Expected::End })
            }
        },
        Err(e) => Err(e),
    }
}

/// Whether `result` is what the parser owes for `tree`: the same violation,
/// or a well-formed tree with the same model.
pub open spec fn parsed_as(tree: Result<Expr, ParseError>, result: Result<Node, ParseError>) -> bool {
    match tree {
        Ok(expr) => result matches Ok(node) && node@ == expr && node.well_formed(),
        Err(e) => result matches Err(found) && found == e,
    }
}

/// Parses a source text into its syntax tree.
///
/// The result is the tree that the grammar gives the text, or the first
/// violation of the grammar in it: the index of the character where it
/// stands, and what was expected there.
pub fn parse(source: &str) -> (result: Result<Node, ParseError>)
    ensures
        parsed_as(syntax_tree(source@), result),
{
    let chars = characters(source);
    let tokens = scan(&chars);
    parse_tokens(source, &tokens)
}

} // verus!
