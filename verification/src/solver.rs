//! The entry points: solving expressions, and sweeping a function of one
//! parameter over a range of integers.

use vstd::prelude::*;
use vstd::string::*;
use vstd::hash_map::StringHashMap;
use crate::ast::{Expr, Node};
use crate::compiler::interpreter::{
    converts, evaluated, first_unknown, total, yields, Eval, Operation, Vars,
};
use crate::definition::{header, is_definition, split_definition, Definition};
use crate::error::{Error, Failure};
use crate::grammar::syntax_tree;
use crate::parser::parse;
use crate::preprocessor::{explicit, prepare_equ};
use crate::text::{strip_spaces, without_spaces};

verus! {

/// Whether `result` is what solving the expression `text` in `env` owes: the
/// violation of the grammar where `text` has one, and otherwise what
/// evaluating its tree owes.
pub open spec fn solved<V, A: Fn(Operation<V>) -> V>(
    arithmetic: A,
    text: Seq<char>,
    env: Map<Seq<char>, V>,
    result: Result<V, Error>,
) -> bool {
    match syntax_tree(text) {
        Ok(tree) => evaluated(arithmetic, tree, env, result),
        Err(violation) => result matches Err(e) && e@ == Failure::GrammarViolation(violation),
    }
}

/// Solves one expression in an environment: its first implicit
/// multiplication is written out, the text is parsed, and the tree is
/// evaluated.
pub fn solve_equ<V: Copy, A: Fn(Operation<V>) -> V>(
    equation: &str,
    vars: &Vars<V>,
    arithmetic: &A,
) -> (result: Result<V, Error>)
    requires
        total(*arithmetic),
    ensures
        solved(*arithmetic, explicit(equation@), vars@, result),
{
    let prepared = prepare_equ(equation);
    match parse(prepared.as_str()) {
        Ok(tree) => Eval::new().eval(&tree, vars, arithmetic),
        Err(violation) => Err(Error::GrammarViolation(violation)),
    }
}

/// Whether `answer` is what a batch owes for the expression `text`: a value
/// that solving it without variables yields, or nothing where solving it
/// fails.
pub open spec fn answers<V, A: Fn(Operation<V>) -> V>(
    arithmetic: A,
    text: Seq<char>,
    answer: Option<V>,
) -> bool {
    match syntax_tree(explicit(text)) {
        Ok(tree) => match first_unknown(tree, Set::empty()) {
            None => answer matches Some(value) && yields(arithmetic, tree, Map::empty(), value),
            Some(_) => answer is None,
        },
        Err(_) => answer is None,
    }
}

/// Whether `found` is what a batch owes for `equations`: one answer for each
/// expression, in their order, each what the batch owes for its own
/// expression.
pub open spec fn answered<V, A: Fn(Operation<V>) -> V>(
    arithmetic: A,
    equations: Seq<&str>,
    found: Seq<Option<V>>,
) -> bool {
    &&& found.len() == equations.len()
    &&& forall|i: int|
        0 <= i < equations.len() ==> answers(arithmetic, equations[i]@, #[trigger] found[i])
}

/// Solves a batch of expressions without variables.
///
/// The answers stand in the order of the expressions, one for each. An
/// expression that fails leaves its own answer empty and no other.
pub fn solve<V: Copy, A: Fn(Operation<V>) -> V>(equations: Vec<&str>, arithmetic: &A) -> (found:
    Vec<Option<V>>)
    requires
        total(*arithmetic),
    ensures
        answered(*arithmetic, equations@, found@),
{
    let vars: Vars<V> = StringHashMap::new();
    let mut found: Vec<Option<V>> = Vec::new();
    let mut at: usize = 0;
    while at < equations.len()
        invariant
            at <= equations.len(),
            found.len() == at,
            total(*arithmetic),
            vars@ == Map::<Seq<char>, V>::empty(),
            forall|i: int| 0 <= i < at ==> answers(*arithmetic, equations[i]@, #[trigger] found[i]),
        decreases equations.len() - at,
    {
        let answer = match solve_equ(equations[at], &vars, arithmetic) {
            Ok(value) => Some(value),
            Err(_) => None,
        };
        assert(vars@.dom() =~= Set::<Seq<char>>::empty());
        found.push(answer);
        at = at + 1;
    }
    found
}

/// The integers from `start` on, `count` of them, ascending by one.
pub open spec fn span(start: i64, count: nat) -> Seq<i64> {
    Seq::new(count, |i: int| (start + i) as i64)
}

/// The domain of a sweep: the integers from `start` to `stop`, both
/// included, ascending by one; none where `stop` is below `start`.
pub open spec fn domain(start: i64, stop: i64) -> Seq<i64> {
    span(
        start,
        if start <= stop {
            (stop - start + 1) as nat
        } else {
            0
        },
    )
}

/// Whether `y` is what a sweep owes at the point `x`: a value that the tree
/// yields where the parameter has the value of `x`, or nothing where
/// evaluating the tree fails.
pub open spec fn plotted<V, A: Fn(Operation<V>) -> V>(
    arithmetic: A,
    tree: Expr,
    parameter: Seq<char>,
    x: i64,
    y: Option<V>,
) -> bool {
    match first_unknown(tree, set![parameter]) {
        None => y matches Some(value) && exists|at: V|
            {
                &&& converts(arithmetic, x, at)
                &&& yields(arithmetic, tree, Map::empty().insert(parameter, at), value)
            },
        Some(_) => y is None,
    }
}

/// Whether `graph` is the sweep of the tree over the integers from `start`
/// to `stop`: the domain, and index for index what the sweep owes at each of
/// its points.
pub open spec fn swept<V, A: Fn(Operation<V>) -> V>(
    arithmetic: A,
    tree: Expr,
    parameter: Seq<char>,
    start: i64,
    stop: i64,
    graph: (Vec<i64>, Vec<Option<V>>),
) -> bool {
    &&& graph.0@ == domain(start, stop)
    &&& graph.1.len() == graph.0.len()
    &&& forall|i: int|
        0 <= i < graph.0.len() ==> plotted(
            arithmetic,
            tree,
            parameter,
            graph.0[i],
            #[trigger] graph.1[i],
        )
}

/// Why the function definition `text` cannot be solved, if it cannot: it is
/// malformed, or its body violates the grammar.
pub open spec fn failure_of(text: Seq<char>) -> Option<Failure> {
    if !is_definition(text) {
        Some(Failure::MalformedFunctionDefinition)
    } else {
        match syntax_tree(explicit(header(text).body)) {
            Ok(_) => None,
            Err(violation) => Some(Failure::GrammarViolation(violation)),
        }
    }
}

/// Whether `graph` is the sweep of the function that `text` defines.
pub open spec fn graphed<V, A: Fn(Operation<V>) -> V>(
    arithmetic: A,
    text: Seq<char>,
    start: i64,
    stop: i64,
    graph: (Vec<i64>, Vec<Option<V>>),
) -> bool {
    match syntax_tree(explicit(header(text).body)) {
        Ok(tree) => swept(arithmetic, tree, header(text).parameter, start, stop, graph),
        Err(_) => false,
    }
}

/// Whether `result` is what solving the function definition `text` owes: its
/// failure where it has one, and otherwise its label, as it is written, with
/// the sweep of the function.
pub open spec fn solved_function<V, A: Fn(Operation<V>) -> V>(
    arithmetic: A,
    text: Seq<char>,
    start: i64,
    stop: i64,
    result: Result<(String, (Vec<i64>, Vec<Option<V>>)), Error>,
) -> bool {
    match failure_of(text) {
        Some(failure) => result matches Err(e) && e@ == failure,
        None => {
            &&& result matches Ok((label, graph))
            &&& label@ == header(text).label
            &&& graphed(arithmetic, text, start, stop, graph)
        },
    }
}

/// Evaluates the tree at one point of a sweep, in an environment of its own
/// that holds the parameter and nothing else.
fn plot<V: Copy, A: Fn(Operation<V>) -> V>(
    tree: &Node,
    parameter: &str,
    x: i64,
    arithmetic: &A,
) -> (y: Option<V>)
    requires
        tree.well_formed(),
        total(*arithmetic),
    ensures
        plotted(*arithmetic, tree@, parameter@, x, y),
{
    let conversion = Operation::Integer(x);
    assert(conversion.valid());
    let at = arithmetic(conversion);
    assert(converts(*arithmetic, x, at));
    let mut vars: Vars<V> = StringHashMap::new();
    vars.insert(parameter.to_owned(), at);
    assert(vars@ =~= Map::<Seq<char>, V>::empty().insert(parameter@, at));
    assert(vars@.dom() =~= set![parameter@]);
    match Eval::new().eval(tree, &vars, arithmetic) {
        Ok(value) => Some(value),
        Err(_) => None,
    }
}

/// Evaluates the tree at each integer from `start` to `stop`. A point at
/// which the evaluation fails is left empty, and the sweep goes on.
fn sweep<V: Copy, A: Fn(Operation<V>) -> V>(
    tree: &Node,
    parameter: &str,
    start: i64,
    stop: i64,
    arithmetic: &A,
) -> (graph: (Vec<i64>, Vec<Option<V>>))
    requires
        tree.well_formed(),
        total(*arithmetic),
    ensures
        swept(*arithmetic, tree@, parameter@, start, stop, graph),
{
    let mut xs: Vec<i64> = Vec::new();
    let mut ys: Vec<Option<V>> = Vec::new();
    if start <= stop {
        let mut x: i64 = start;
        while x < stop
            invariant
                start <= x <= stop,
                tree.well_formed(),
                total(*arithmetic),
                xs@ =~= span(start, (x - start) as nat),
                ys.len() == xs.len(),
                forall|i: int|
                    0 <= i < xs.len() ==> plotted(
                        *arithmetic,
                        tree@,
                        parameter@,
                        xs[i],
                        #[trigger] ys[i],
                    ),
            decreases stop - x,
        {
            let y = plot(tree, parameter, x, arithmetic);
            xs.push(x);
            ys.push(y);
            x = x + 1;
        }
        let y = plot(tree, parameter, stop, arithmetic);
        xs.push(stop);
        ys.push(y);
    }
    assert(xs@ =~= domain(start, stop));
    (xs, ys)
}

/// Solves one function definition over the integers from `start` to `stop`.
///
/// The body of the definition is parsed once, and its tree is evaluated at
/// every point.
pub fn solve_func<V: Copy, A: Fn(Operation<V>) -> V>(
    function: &str,
    start: i64,
    stop: i64,
    arithmetic: &A,
) -> (result: Result<(String, (Vec<i64>, Vec<Option<V>>)), Error>)
    requires
        total(*arithmetic),
    ensures
        solved_function(*arithmetic, function@, start, stop, result),
{
    let Definition { label, parameter, body } = match split_definition(function) {
        Ok(definition) => definition,
        Err(e) => {
            return Err(e);
        },
    };
    let prepared = prepare_equ(body.as_str());
    let tree = match parse(prepared.as_str()) {
        Ok(tree) => tree,
        Err(violation) => {
            return Err(Error::GrammarViolation(violation));
        },
    };
    let graph = sweep(&tree, parameter.as_str(), start, stop, arithmetic);
    Ok((label, graph))
}

/// The key under which a batch files the function that `text` defines: its
/// label without the spaces.
pub open spec fn key_of(text: Seq<char>) -> Seq<char> {
    without_spaces(header(text).label)
}

/// Whether `result` is what solving the first `count` of the function
/// definitions owes.
///
/// Where one of them fails, it is the failure of the first that does.
/// Otherwise it holds a sweep under the key of each definition and under no
/// other key; the sweep under a key is that of the last definition with that
/// key.
pub open spec fn collected<V, A: Fn(Operation<V>) -> V>(
    arithmetic: A,
    functions: Seq<&str>,
    count: int,
    start: i64,
    stop: i64,
    result: Result<StringHashMap<(Vec<i64>, Vec<Option<V>>)>, Error>,
) -> bool {
    match result {
        Err(e) => exists|i: int|
            {
                &&& 0 <= i < count
                &&& #[trigger] failure_of(functions[i]@) == Some(e@)
                &&& forall|j: int| 0 <= j < i ==> #[trigger] failure_of(functions[j]@) is None
            },
        Ok(graphs) => {
            &&& forall|i: int| 0 <= i < count ==> #[trigger] failure_of(functions[i]@) is None
            &&& forall|key: Seq<char>|
                #![trigger graphs@.contains_key(key)]
                #![trigger has_key(functions, count, key)]
                graphs@.contains_key(key) <==> has_key(functions, count, key)
            &&& forall|i: int|
                0 <= i < count && last_of_key(functions, count, i) ==> graphed(
                    arithmetic,
                    functions[i]@,
                    start,
                    stop,
                    graphs@[#[trigger] key_of(functions[i]@)],
                )
        },
    }
}

/// Whether one of the first `count` definitions has the key `key`.
pub open spec fn has_key(functions: Seq<&str>, count: int, key: Seq<char>) -> bool {
    exists|i: int| 0 <= i < count && #[trigger] key_of(functions[i]@) == key
}

/// Whether none of the first `count` definitions after the one at index `i`
/// has the key of that one.
pub open spec fn last_of_key(functions: Seq<&str>, count: int, i: int) -> bool {
    forall|j: int| i < j < count ==> #[trigger] key_of(functions[j]@) != key_of(functions[i]@)
}

/// One more definition adds its own key to the keys of a batch, and no
/// other.
proof fn lemma_one_more_key(functions: Seq<&str>, count: int, key: Seq<char>)
    requires
        0 <= count,
    ensures
        has_key(functions, count + 1, key) <==> has_key(functions, count, key) || key_of(
            functions[count]@,
        ) == key,
{
    if has_key(functions, count, key) {
        let i = choose|i: int| 0 <= i < count && #[trigger] key_of(functions[i]@) == key;
        assert(0 <= i < count + 1 && key_of(functions[i]@) == key);
    }
    if key_of(functions[count]@) == key {
        assert(has_key(functions, count + 1, key));
    }
    if has_key(functions, count + 1, key) {
        let i = choose|i: int| 0 <= i < count + 1 && #[trigger] key_of(functions[i]@) == key;
        if i < count {
            assert(has_key(functions, count, key));
        }
    }
}

/// Solves a batch of function definitions over the integers from `start` to
/// `stop`, and files each sweep under the label of its function, without the
/// spaces.
///
/// The definitions are solved in order and each on its own. The first one
/// that fails ends the batch with its failure.
pub fn solve_funcs<V: Copy, A: Fn(Operation<V>) -> V>(
    functions: Vec<&str>,
    start: i64,
    stop: i64,
    arithmetic: &A,
) -> (result: Result<StringHashMap<(Vec<i64>, Vec<Option<V>>)>, Error>)
    requires
        total(*arithmetic),
    ensures
        collected(*arithmetic, functions@, functions.len() as int, start, stop, result),
{
    let mut graphs: StringHashMap<(Vec<i64>, Vec<Option<V>>)> = StringHashMap::new();
    let mut at: usize = 0;
    while at < functions.len()
        invariant
            at <= functions.len(),
            total(*arithmetic),
            collected(*arithmetic, functions@, at as int, start, stop, Ok(graphs)),
        decreases functions.len() - at,
    {
        let (label, graph) = match solve_func(functions[at], start, stop, arithmetic) {
            Ok(solved) => solved,
            Err(e) => {
                return Err(e);
            },
        };
        let key = strip_spaces(label.as_str());
        let ghost before = graphs@;
        graphs.insert(key, graph);
        proof {
            let own = key_of(functions@[at as int]@);
            assert(graphs@ == before.insert(own, graph));
            assert forall|key: Seq<char>|
                graphs@.contains_key(key) <==> has_key(functions@, at + 1, key) by {
                lemma_one_more_key(functions@, at as int, key);
                assert(before.contains_key(key) <==> has_key(functions@, at as int, key));
            }
            assert forall|i: int|
                0 <= i < at + 1 && last_of_key(functions@, at + 1, i) implies graphed(
                *arithmetic,
                functions@[i]@,
                start,
                stop,
                graphs@[#[trigger] key_of(functions@[i]@)],
            ) by {
                if i < at {
                    assert(key_of(functions@[at as int]@) != key_of(functions@[i]@));
                    assert(last_of_key(functions@, at as int, i));
                }
            }
        }
        at = at + 1;
    }
    Ok(graphs)
}

} // verus!
