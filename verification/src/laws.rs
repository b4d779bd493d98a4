//! Laws that relate the functions of the library to one another.

use vstd::prelude::*;
use crate::ast::{Expr, Node, Operator};
use crate::compiler::interpreter::{
    combines, evaluated, first_unknown, variables, yields, Operation,
};
use crate::error::Error;
use crate::grammar::{
    equation, expression, groups_right, infix, kind_at, level, operand, syntax_tree, word,
    ParseError, Parsed,
};
use crate::lexer::{Lexeme, TokenKind};
use crate::parser::{climbing, lemma_climbing_is_expression, parsed_as, right_floor};
use crate::solver::{answered, domain, swept};

verus! {

/// Parsing is stable: two results of parsing the same text are both trees
/// with the same model (the same shape, the same literals, the same
/// operators), or both the same violation.
pub proof fn lemma_parse_is_stable(
    source: Seq<char>,
    first: Result<Node, ParseError>,
    second: Result<Node, ParseError>,
)
    requires
        parsed_as(syntax_tree(source), first),
        parsed_as(syntax_tree(source), second),
    ensures
        match (first, second) {
            (Ok(one), Ok(other)) => one@ == other@,
            (Err(one), Err(other)) => one == other,
            _ => false,
        },
{
}

/// Whether the token at index `k` is a number or a variable.
pub open spec fn is_leaf(tokens: Seq<Lexeme>, k: int) -> bool {
    kind_at(tokens, k) == TokenKind::Number || kind_at(tokens, k) == TokenKind::Variable
}

/// The tree of the number or the variable at index `k`.
pub open spec fn leaf(text: Seq<char>, tokens: Seq<Lexeme>, k: int) -> Expr {
    if kind_at(tokens, k) == TokenKind::Number {
        Expr::Number(word(text, tokens, k))
    } else {
        Expr::Variable(word(text, tokens, k))
    }
}

/// The tree `tree`, covering `n` tokens.
pub open spec fn covering(tree: Expr, n: nat) -> Parsed {
    Ok((tree, n))
}

/// Precedence and associativity: of three operands with two operators
/// between them, the operator of the higher level joins its two operands
/// first, and the node of the two is an operand of the other operator. Of two
/// operators of one level the left one comes first, unless the level groups
/// to the right.
pub proof fn lemma_tighter_operator_joins_first(
    text: Seq<char>,
    tokens: Seq<Lexeme>,
    first: Operator,
    second: Operator,
)
    requires
        tokens.len() == 6,
        is_leaf(tokens, 0),
        infix(kind_at(tokens, 1)) == Some(first),
        is_leaf(tokens, 2),
        infix(kind_at(tokens, 3)) == Some(second),
        is_leaf(tokens, 4),
        kind_at(tokens, 5) == TokenKind::End,
    ensures
        equation(text, tokens) == Ok::<Expr, ParseError>(
            if level(second) > level(first) || (level(second) == level(first) && groups_right(
                level(first),
            )) {
                Expr::Binary(
                    first,
                    Box::new(leaf(text, tokens, 0)),
                    Box::new(
                        Expr::Binary(
                            second,
                            Box::new(leaf(text, tokens, 2)),
                            Box::new(leaf(text, tokens, 4)),
                        ),
                    ),
                )
            } else {
                Expr::Binary(
                    second,
                    Box::new(
                        Expr::Binary(
                            first,
                            Box::new(leaf(text, tokens, 0)),
                            Box::new(leaf(text, tokens, 2)),
                        ),
                    ),
                    Box::new(leaf(text, tokens, 4)),
                )
            },
        ),
{
    let a = leaf(text, tokens, 0);
    let b = leaf(text, tokens, 2);
    let c = leaf(text, tokens, 4);
    let right = Expr::Binary(second, Box::new(b), Box::new(c));
    let left = Expr::Binary(first, Box::new(a), Box::new(b));
    let inner = right_floor(first);
    assert(operand(text, tokens, 0) == covering(a, 1));
    assert(operand(text, tokens, 2) == covering(b, 1));
    assert(operand(text, tokens, 4) == covering(c, 1));
    // Nothing but the end follows the last operand.
    assert(climbing(text, tokens, right_floor(second), c, 5) == covering(c, 0));
    lemma_climbing_is_expression(text, tokens, 4, right_floor(second));
    assert(expression(text, tokens, 4, right_floor(second)) == covering(c, 1));
    lemma_climbing_is_expression(text, tokens, 2, inner);
    lemma_climbing_is_expression(text, tokens, 0, 0);
    if level(second) >= inner {
        let whole = Expr::Binary(first, Box::new(a), Box::new(right));
        assert(climbing(text, tokens, inner, right, 5) == covering(right, 0));
        assert(climbing(text, tokens, inner, b, 3) == covering(right, 2));
        assert(expression(text, tokens, 2, inner) == covering(right, 3));
        assert(climbing(text, tokens, 0, whole, 5) == covering(whole, 0));
        assert(climbing(text, tokens, 0, a, 1) == covering(whole, 4));
        assert(expression(text, tokens, 0, 0) == covering(whole, 5));
    } else {
        let whole = Expr::Binary(second, Box::new(left), Box::new(c));
        assert(climbing(text, tokens, inner, b, 3) == covering(b, 0));
        assert(expression(text, tokens, 2, inner) == covering(b, 1));
        assert(climbing(text, tokens, 0, whole, 5) == covering(whole, 0));
        assert(climbing(text, tokens, 0, left, 3) == covering(whole, 2));
        assert(climbing(text, tokens, 0, a, 1) == covering(whole, 4));
        assert(expression(text, tokens, 0, 0) == covering(whole, 5));
    }
}

/// Whether two environments know the same ones of `names`, with the same
/// values.
pub open spec fn agree<V>(
    one: Map<Seq<char>, V>,
    other: Map<Seq<char>, V>,
    names: Set<Seq<char>>,
) -> bool {
    forall|name: Seq<char>| #[trigger]
        names.contains(name) ==> {
            &&& one.contains_key(name) <==> other.contains_key(name)
            &&& one.contains_key(name) ==> one[name] == other[name]
        }
}

/// The environment is read at the variables of the tree and nowhere else: in
/// two environments that agree on them, the same variable is the first
/// unknown one, and the tree yields the same values.
pub proof fn lemma_evaluation_reads_its_variables<V, A: Fn(Operation<V>) -> V>(
    arithmetic: A,
    tree: Expr,
    one: Map<Seq<char>, V>,
    other: Map<Seq<char>, V>,
)
    requires
        agree(one, other, variables(tree)),
    ensures
        first_unknown(tree, one.dom()) == first_unknown(tree, other.dom()),
        forall|value: V|
            yields(arithmetic, tree, one, value) == yields(arithmetic, tree, other, value),
        forall|result: Result<V, Error>|
            evaluated(arithmetic, tree, one, result) == evaluated(arithmetic, tree, other, result),
    decreases tree,
{
    match tree {
        Expr::Number(_) => {},
        Expr::Variable(name) => {
            assert(variables(tree).contains(name));
        },
        Expr::Unary(inner) => {
            lemma_evaluation_reads_its_variables(arithmetic, *inner, one, other);
        },
        Expr::Binary(_, lhs, rhs) => {
            assert forall|name: Seq<char>| #[trigger]
                variables(*lhs).contains(name) implies variables(tree).contains(name) by {}
            assert forall|name: Seq<char>| #[trigger]
                variables(*rhs).contains(name) implies variables(tree).contains(name) by {}
            lemma_evaluation_reads_its_variables(arithmetic, *lhs, one, other);
            lemma_evaluation_reads_its_variables(arithmetic, *rhs, one, other);
        },
    }
    assert(agree(other, one, variables(tree)));
    assert forall|value: V|
        yields(arithmetic, tree, one, value) == yields(arithmetic, tree, other, value) by {
        if yields(arithmetic, tree, one, value) {
            lemma_yields_in_both(arithmetic, tree, one, other, value);
        }
        if yields(arithmetic, tree, other, value) {
            lemma_yields_in_both(arithmetic, tree, other, one, value);
        }
    }
    assert forall|result: Result<V, Error>|
        evaluated(arithmetic, tree, one, result) == evaluated(
            arithmetic,
            tree,
            other,
            result,
        ) by {
        match result {
            Ok(value) => {
                assert(yields(arithmetic, tree, one, value) == yields(
                    arithmetic,
                    tree,
                    other,
                    value,
                ));
            },
            Err(_) => {},
        }
    }
}

/// A value that the tree yields in one environment it yields in every
/// environment that agrees with that one on the variables of the tree.
pub proof fn lemma_yields_in_both<V, A: Fn(Operation<V>) -> V>(
    arithmetic: A,
    tree: Expr,
    one: Map<Seq<char>, V>,
    other: Map<Seq<char>, V>,
    value: V,
)
    requires
        agree(one, other, variables(tree)),
        yields(arithmetic, tree, one, value),
    ensures
        yields(arithmetic, tree, other, value),
    decreases tree,
{
    match tree {
        Expr::Number(_) => {},
        Expr::Variable(name) => {
            assert(variables(tree).contains(name));
        },
        Expr::Unary(inner) => {
            lemma_yields_in_both(arithmetic, *inner, one, other, value);
        },
        Expr::Binary(op, lhs, rhs) => {
            assert forall|name: Seq<char>| #[trigger]
                variables(*lhs).contains(name) implies variables(tree).contains(name) by {}
            assert forall|name: Seq<char>| #[trigger]
                variables(*rhs).contains(name) implies variables(tree).contains(name) by {}
            let (left, right) = choose|left: V, right: V|
                {
                    &&& yields(arithmetic, *lhs, one, left)
                    &&& yields(arithmetic, *rhs, one, right)
                    &&& combines(arithmetic, op, left, right, value)
                };
            lemma_yields_in_both(arithmetic, *lhs, one, other, left);
            lemma_yields_in_both(arithmetic, *rhs, one, other, right);
        },
    }
}

/// Whether two operations ask for the same thing: the value of the same
/// literal or of the same integer, or the same operator on the same values.
pub open spec fn same_operation<V>(one: Operation<V>, other: Operation<V>) -> bool {
    match (one, other) {
        (Operation::Literal(a), Operation::Literal(b)) => a@ == b@,
        (Operation::Integer(a), Operation::Integer(b)) => a == b,
        (Operation::Binary(p, a, b), Operation::Binary(q, c, d)) => p == q && a == c && b == d,
        _ => false,
    }
}

/// Whether the arithmetic is a function: it gives one value to all
/// operations that ask for the same thing.
pub open spec fn functional<V, A: Fn(Operation<V>) -> V>(arithmetic: A) -> bool {
    forall|one: Operation<V>, other: Operation<V>, first: V, second: V|
        {
            &&& same_operation(one, other)
            &&& #[trigger] call_ensures(arithmetic, (one,), first)
            &&& #[trigger] call_ensures(arithmetic, (other,), second)
        } ==> first == second
}

/// Evaluation is a function of the tree and the environment, where the
/// arithmetic is a function: a tree yields one value at most.
pub proof fn lemma_evaluation_is_a_function<V, A: Fn(Operation<V>) -> V>(
    arithmetic: A,
    tree: Expr,
    env: Map<Seq<char>, V>,
    first: V,
    second: V,
)
    requires
        functional(arithmetic),
        yields(arithmetic, tree, env, first),
        yields(arithmetic, tree, env, second),
    ensures
        first == second,
    decreases tree,
{
    match tree {
        Expr::Number(text) => {
            let one = choose|literal: &str|
                literal@ == text && call_ensures(arithmetic, (Operation::Literal(literal),), first);
            let other = choose|literal: &str|
                literal@ == text && call_ensures(
                    arithmetic,
                    (Operation::Literal(literal),),
                    second,
                );
            assert(same_operation(Operation::<V>::Literal(one), Operation::<V>::Literal(other)));
        },
        Expr::Variable(_) => {},
        Expr::Unary(inner) => {
            lemma_evaluation_is_a_function(arithmetic, *inner, env, first, second);
        },
        Expr::Binary(op, lhs, rhs) => {
            let (a, b) = choose|left: V, right: V|
                {
                    &&& yields(arithmetic, *lhs, env, left)
                    &&& yields(arithmetic, *rhs, env, right)
                    &&& combines(arithmetic, op, left, right, first)
                };
            let (c, d) = choose|left: V, right: V|
                {
                    &&& yields(arithmetic, *lhs, env, left)
                    &&& yields(arithmetic, *rhs, env, right)
                    &&& combines(arithmetic, op, left, right, second)
                };
            lemma_evaluation_is_a_function(arithmetic, *lhs, env, a, c);
            lemma_evaluation_is_a_function(arithmetic, *rhs, env, b, d);
            assert(same_operation(Operation::Binary(op, a, b), Operation::Binary(op, c, d)));
        },
    }
}

/// The entries of a batch are isolated: whether an expression has an answer
/// depends on the expression alone, not on the batch it stands in, nor on
/// its place there.
pub proof fn lemma_entries_are_isolated<V, A: Fn(Operation<V>) -> V>(
    arithmetic: A,
    first: Seq<&str>,
    first_found: Seq<Option<V>>,
    i: int,
    second: Seq<&str>,
    second_found: Seq<Option<V>>,
    j: int,
)
    requires
        answered(arithmetic, first, first_found),
        answered(arithmetic, second, second_found),
        0 <= i < first.len(),
        0 <= j < second.len(),
        first[i]@ == second[j]@,
    ensures
        first_found[i] is None <==> second_found[j] is None,
{
}

/// A sweep is never cut short: its codomain has a place for every integer of
/// its domain, of which there are `stop - start + 1` where `start` is not
/// above `stop`, and none otherwise.
pub proof fn lemma_sweep_is_complete<V, A: Fn(Operation<V>) -> V>(
    arithmetic: A,
    tree: Expr,
    parameter: Seq<char>,
    start: i64,
    stop: i64,
    graph: (Vec<i64>, Vec<Option<V>>),
)
    requires
        swept(arithmetic, tree, parameter, start, stop, graph),
    ensures
        graph.0.len() == graph.1.len(),
        graph.0.len() == if start <= stop {
            stop - start + 1
        } else {
            0
        },
        forall|i: int| 0 <= i < graph.0.len() ==> #[trigger] graph.0[i] == start + i,
{
    assert(graph.0@ == domain(start, stop));
    assert forall|i: int| 0 <= i < graph.0.len() implies #[trigger] graph.0[i] == start + i by {
        assert(graph.0@[i] == domain(start, stop)[i]);
    }
}

} // verus!
