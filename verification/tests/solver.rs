use calc_rs::{solve, solve_equ, solve_func, solve_funcs, Error, Operation, Operator, Vars};

fn arithmetic(operation: Operation<f64>) -> f64 {
    match operation {
        Operation::Literal(text) => text.parse::<f64>().unwrap(),
        Operation::Integer(number) => number as f64,
        Operation::Binary(op, lhs, rhs) => match op {
            Operator::Plus => lhs + rhs,
            Operator::Minus => lhs - rhs,
            Operator::Multiply => lhs * rhs,
            Operator::Divide => lhs / rhs,
            Operator::Exponent => lhs.powf(rhs),
            Operator::Negative => unreachable!("negative numbers can only have one operand"),
        },
    }
}

fn solve_one(equation: &str) -> Option<f64> {
    let found = solve(vec![equation], &arithmetic);
    assert_eq!(found.len(), 1);
    found[0]
}

#[test]
fn equation_solver() {
    fn test_expr(equation: &str, answer: Option<f64>) {
        assert_eq!(solve(vec![equation], &arithmetic), vec![answer]);
    }

    test_expr("1 + 2 + 3", Some(6.0));
    test_expr("1 + 2 + 3 + 4", Some(10.0));
    test_expr("1 + 2 + 3 - 4", Some(2.0));
    test_expr("4/(10+4)^2", Some(0.02040816326530612));
    test_expr("4(10+4)^2", Some(784.0));
}

#[test]
fn function_solver() {
    fn test_expr(equation: &str, answers: Vec<(i64, Option<f64>)>) {
        let is = solve_func(equation, -2, 2, &arithmetic).unwrap().1;
        println!("{:?}", is);
        let mut should_be: (Vec<i64>, Vec<Option<f64>>) =
            (Vec::with_capacity(5), Vec::with_capacity(5));

        for (x, y) in answers {
            should_be.0.push(x);
            should_be.1.push(y);
        }

        assert_eq!(is, should_be);
    }

    test_expr(
        "f(x) = 0.1x^3",
        vec![
            (-2, Some(-0.8)),
            (-1, Some(-0.1)),
            (0, Some(0.0)),
            (1, Some(0.1)),
            (2, Some(0.8)),
        ],
    );
    test_expr(
        "g(x) = 1/x",
        vec![
            (-2, Some(-0.5)),
            (-1, Some(-1.0)),
            (0, Some(f64::INFINITY)),
            (1, Some(1.0)),
            (2, Some(0.5)),
        ],
    );
    test_expr(
        "h(x) = 15x^2",
        vec![
            (-2, Some(60.0)),
            (-1, Some(15.0)),
            (0, Some(0.0)),
            (1, Some(15.0)),
            (2, Some(60.0)),
        ],
    );
}

#[test]
fn multiplication_binds_tighter_than_addition() {
    assert_eq!(solve_one("2 + 3 * 4"), Some(14.0));
    assert_eq!(solve_one("2 * 3 + 4"), Some(10.0));
    assert_eq!(solve_one("10 - 4 / 2"), Some(8.0));
}

#[test]
fn exponent_groups_to_the_right() {
    assert_eq!(solve_one("2 ^ 3 ^ 2"), Some(512.0));
    assert_eq!(solve_one("(2 ^ 3) ^ 2"), Some(64.0));
    assert_eq!(solve_one("2 * 3 ^ 2"), Some(18.0));
}

#[test]
fn subtraction_and_division_group_to_the_left() {
    assert_eq!(solve_one("10 - 4 - 3"), Some(3.0));
    assert_eq!(solve_one("64 / 4 / 2"), Some(8.0));
    assert_eq!(solve_one("10 - (4 - 3)"), Some(9.0));
}

#[test]
fn grouping_does_not_change_a_sum() {
    assert_eq!(solve_one("1 + (2 + 3)"), Some(6.0));
    assert_eq!(solve_one("(1 + 2) + 3"), Some(6.0));
    assert_eq!(solve_one("1 + 2 + 3"), Some(6.0));
}

#[test]
fn implicit_multiplication_before_a_parenthesis() {
    assert_eq!(solve_one("4(10+4)^2"), Some(784.0));
}

#[test]
fn division_of_a_grouped_power() {
    assert_eq!(solve_one("4/(10+4)^2"), Some(0.02040816326530612));
}

#[test]
fn only_the_first_implicit_multiplication_is_solved() {
    assert_eq!(solve_one("2(3)"), Some(6.0));
    assert_eq!(solve_one("2(3)(4)"), None);
}

#[test]
fn a_minus_sign_before_a_literal_negates_it() {
    assert_eq!(solve_one("-2"), Some(-2.0));
    assert_eq!(solve_one("3 * -2"), Some(-6.0));
    assert_eq!(solve_one("-2 ^ 2"), Some(4.0));
    assert_eq!(solve_one("1 - -1.5"), Some(2.5));
}

#[test]
fn a_minus_sign_before_a_group_leaves_its_value() {
    assert_eq!(solve_one("-(1 + 2)"), Some(3.0));
    assert_eq!(solve_one("4 - -(1 + 2)"), Some(1.0));
}

#[test]
fn division_by_zero_is_no_failure() {
    assert_eq!(solve_one("1 / 0"), Some(f64::INFINITY));
    assert_eq!(solve_one("-1 / 0"), Some(f64::NEG_INFINITY));
    assert!(solve_one("0 / 0").unwrap().is_nan());
    assert_eq!(solve_one("0 ^ -1"), Some(f64::INFINITY));
}

#[test]
fn an_unknown_variable_fails_its_own_entry_only() {
    assert_eq!(
        solve(vec!["1 + x", "1 + 2"], &arithmetic),
        vec![None, Some(3.0)]
    );
    assert_eq!(
        solve(vec!["1 +", "2 * 2", "(3", "7"], &arithmetic),
        vec![None, Some(4.0), None, Some(7.0)]
    );
}

#[test]
fn an_empty_batch_has_no_answers() {
    assert_eq!(solve(vec![], &arithmetic), Vec::<Option<f64>>::new());
}

#[test]
fn variables_take_their_values_from_the_environment() {
    let mut vars: Vars<f64> = Vars::new();
    vars.insert("x".to_string(), 3.0);
    vars.insert("r".to_string(), 0.5);
    assert_eq!(solve_equ("x + 1", &vars, &arithmetic), Ok(4.0));
    assert_eq!(solve_equ("r * x", &vars, &arithmetic), Ok(1.5));
    assert_eq!(solve_equ("2x", &vars, &arithmetic), Ok(6.0));
    assert_eq!(solve_equ("rx", &vars, &arithmetic), Ok(1.5));
}

#[test]
fn a_word_of_two_letters_is_a_product_of_two_variables() {
    let mut vars: Vars<f64> = Vars::new();
    vars.insert("ab".to_string(), 100.0);
    vars.insert("a".to_string(), 2.0);
    vars.insert("b".to_string(), 3.0);
    assert_eq!(solve_equ("ab", &vars, &arithmetic), Ok(6.0));
    assert_eq!(
        solve_equ("abc", &vars, &arithmetic),
        Err(Error::UnknownVariable("bc".to_string()))
    );
}

#[test]
fn the_first_unknown_variable_is_named() {
    let mut vars: Vars<f64> = Vars::new();
    vars.insert("x".to_string(), 3.0);
    assert_eq!(
        solve_equ("x + y * z", &vars, &arithmetic),
        Err(Error::UnknownVariable("y".to_string()))
    );
    assert_eq!(
        solve_equ("(z - x) / y", &vars, &arithmetic),
        Err(Error::UnknownVariable("z".to_string()))
    );
}

#[test]
fn a_text_outside_the_grammar_is_a_grammar_violation() {
    let vars: Vars<f64> = Vars::new();
    assert!(matches!(
        solve_equ("1 + * 2", &vars, &arithmetic),
        Err(Error::GrammarViolation(_))
    ));
    assert!(matches!(
        solve_equ("", &vars, &arithmetic),
        Err(Error::GrammarViolation(_))
    ));
}

#[test]
fn a_sweep_pairs_each_integer_with_its_value() {
    let (label, (domain, codomain)) = solve_func("f(x) = 0.1x^3", -2, 2, &arithmetic).unwrap();
    assert_eq!(label, "f(x) ");
    assert_eq!(domain, vec![-2, -1, 0, 1, 2]);
    assert_eq!(
        codomain,
        vec![Some(-0.8), Some(-0.1), Some(0.0), Some(0.1), Some(0.8)]
    );
}

#[test]
fn a_sweep_over_a_pole_goes_on() {
    let (_, (domain, codomain)) = solve_func("g(x) = 1/x", -2, 2, &arithmetic).unwrap();
    assert_eq!(domain, vec![-2, -1, 0, 1, 2]);
    assert_eq!(
        codomain,
        vec![
            Some(-0.5),
            Some(-1.0),
            Some(f64::INFINITY),
            Some(1.0),
            Some(0.5)
        ]
    );
}

#[test]
fn a_sweep_with_an_unknown_variable_is_empty_at_every_point() {
    let (_, (domain, codomain)) = solve_func("f(x) = x + y", 0, 3, &arithmetic).unwrap();
    assert_eq!(domain, vec![0, 1, 2, 3]);
    assert_eq!(codomain, vec![None, None, None, None]);
}

#[test]
fn a_sweep_of_one_point_and_of_none() {
    let (_, graph) = solve_func("f(t) = t * t", 7, 7, &arithmetic).unwrap();
    assert_eq!(graph, (vec![7], vec![Some(49.0)]));
    let (_, graph) = solve_func("f(t) = t * t", 3, 2, &arithmetic).unwrap();
    assert_eq!(graph, (vec![], vec![]));
}

#[test]
fn a_sweep_reaches_the_ends_of_the_integers() {
    let (_, (domain, codomain)) =
        solve_func("f(x) = x - x", i64::MAX - 1, i64::MAX, &arithmetic).unwrap();
    assert_eq!(domain, vec![i64::MAX - 1, i64::MAX]);
    assert_eq!(codomain, vec![Some(0.0), Some(0.0)]);
    let (_, (domain, _)) = solve_func("f(x) = x", i64::MIN, i64::MIN + 1, &arithmetic).unwrap();
    assert_eq!(domain, vec![i64::MIN, i64::MIN + 1]);
}

#[test]
fn the_parameter_may_have_spaces_around_it() {
    let (label, (_, codomain)) = solve_func(" area ( s ) = s ^ 2", 1, 3, &arithmetic).unwrap();
    assert_eq!(label, " area ( s ) ");
    assert_eq!(codomain, vec![Some(1.0), Some(4.0), Some(9.0)]);
}

#[test]
fn a_definition_without_an_equals_sign_is_malformed() {
    assert_eq!(
        solve_func("f(x) 2x", 0, 1, &arithmetic),
        Err(Error::MalformedFunctionDefinition)
    );
    assert_eq!(
        solve_func("", 0, 1, &arithmetic),
        Err(Error::MalformedFunctionDefinition)
    );
}

#[test]
fn a_definition_without_a_parameter_is_malformed() {
    for function in [
        "f = 2",
        "f() = 2",
        "f(x = 2",
        "f(x, y) = x",
        "f(x1) = 2",
        "(x) = x",
        "f(x)y = x",
        "f)x( = x",
    ] {
        assert_eq!(
            solve_func(function, 0, 1, &arithmetic),
            Err(Error::MalformedFunctionDefinition)
        );
    }
}

#[test]
fn a_definition_with_a_bad_body_is_a_grammar_violation() {
    assert!(matches!(
        solve_func("f(x) = 2 +", 0, 1, &arithmetic),
        Err(Error::GrammarViolation(_))
    ));
    assert!(matches!(
        solve_func("f(x) = ", 0, 1, &arithmetic),
        Err(Error::GrammarViolation(_))
    ));
    assert!(matches!(
        solve_func("f(x) = y = 2", 0, 1, &arithmetic),
        Err(Error::GrammarViolation(_))
    ));
}

#[test]
fn a_batch_files_each_sweep_under_its_label_without_spaces() {
    let graphs = solve_funcs(
        vec!["f(x) = 0.1x^3", "g (x) = 1/x", " h( x ) = 15x^2"],
        -2,
        2,
        &arithmetic,
    )
    .unwrap();
    assert_eq!(graphs.len(), 3);
    assert_eq!(
        graphs.get("f(x)"),
        Some(&(
            vec![-2, -1, 0, 1, 2],
            vec![Some(-0.8), Some(-0.1), Some(0.0), Some(0.1), Some(0.8)]
        ))
    );
    assert_eq!(
        graphs.get("g(x)").unwrap().1,
        vec![
            Some(-0.5),
            Some(-1.0),
            Some(f64::INFINITY),
            Some(1.0),
            Some(0.5)
        ]
    );
    assert_eq!(
        graphs.get("h(x)").unwrap().1,
        vec![Some(60.0), Some(15.0), Some(0.0), Some(15.0), Some(60.0)]
    );
    assert!(graphs.get("g (x)").is_none());
}

#[test]
fn a_later_definition_replaces_an_earlier_one_of_its_label() {
    let graphs = solve_funcs(vec!["f(x) = x", "f (x) = 2x"], 1, 2, &arithmetic).unwrap();
    assert_eq!(graphs.len(), 1);
    assert_eq!(
        graphs.get("f(x)"),
        Some(&(vec![1, 2], vec![Some(2.0), Some(4.0)]))
    );
}

#[test]
fn a_batch_ends_with_the_first_failure() {
    assert_eq!(
        solve_funcs(vec!["f(x) = x", "g(x) 2", "h(x) = +"], 0, 1, &arithmetic).err(),
        Some(Error::MalformedFunctionDefinition)
    );
    assert!(matches!(
        solve_funcs(vec!["f(x) = x", "h(x) = +", "g(x) 2"], 0, 1, &arithmetic).err(),
        Some(Error::GrammarViolation(_))
    ));
    assert!(solve_funcs(vec![], 0, 1, &arithmetic).unwrap().is_empty());
}
