use calc_rs::{parse, Compile, Error, Eval, Interpreter, Node, Operation, Operator, Vars};

fn arithmetic(operation: Operation<f64>) -> f64 {
    match operation {
        Operation::Literal(text) => text.parse::<f64>().unwrap(),
        Operation::Integer(number) => number as f64,
        Operation::Binary(op, lhs, rhs) => match op {
            Operator::Plus => lhs + rhs,
            Operator::Minus => lhs - rhs,
            Operator::Multiply => lhs * rhs,
            Operator::Divide => lhs / rhs,
            Operator::Exponent => lhs.powf(rhs),
            Operator::Negative => unreachable!("negative numbers can only have one operand"),
        },
    }
}

fn evaluate(source: &str, vars: &Vars<f64>) -> Result<f64, Error> {
    Eval::new().eval(&parse(source).unwrap(), vars, &arithmetic)
}

#[test]
fn a_number_evaluates_to_its_value() {
    let vars: Vars<f64> = Vars::new();
    assert_eq!(evaluate("42", &vars), Ok(42.0));
    assert_eq!(evaluate("0.5", &vars), Ok(0.5));
    assert_eq!(
        Eval::new().eval(&Node::Num("-1".to_string()), &vars, &arithmetic),
        Ok(-1.0)
    );
}

#[test]
fn a_variable_evaluates_to_its_binding() {
    let mut vars: Vars<f64> = Vars::new();
    vars.insert("x".to_string(), 2.0);
    assert_eq!(evaluate("x", &vars), Ok(2.0));
    assert_eq!(
        evaluate("y", &vars),
        Err(Error::UnknownVariable("y".to_string()))
    );
}

#[test]
fn each_operator_is_applied_left_to_right() {
    let vars: Vars<f64> = Vars::new();
    assert_eq!(evaluate("7 + 2", &vars), Ok(9.0));
    assert_eq!(evaluate("7 - 2", &vars), Ok(5.0));
    assert_eq!(evaluate("7 * 2", &vars), Ok(14.0));
    assert_eq!(evaluate("7 / 2", &vars), Ok(3.5));
    assert_eq!(evaluate("7 ^ 2", &vars), Ok(49.0));
}

#[test]
fn the_left_operand_fails_before_the_right() {
    let vars: Vars<f64> = Vars::new();
    assert_eq!(
        evaluate("a + b", &vars),
        Err(Error::UnknownVariable("a".to_string()))
    );
    assert_eq!(
        evaluate("1 + (b * a)", &vars),
        Err(Error::UnknownVariable("b".to_string()))
    );
}

#[test]
fn a_unary_node_passes_the_value_of_its_operand_on() {
    let mut vars: Vars<f64> = Vars::new();
    vars.insert("x".to_string(), 2.0);
    assert_eq!(evaluate("-x", &vars), Ok(2.0));
    assert_eq!(evaluate("-(x + 1)", &vars), Ok(3.0));
}

#[test]
fn the_arithmetic_decides_the_values() {
    let count = |operation: Operation<u32>| -> u32 {
        match operation {
            Operation::Literal(_) => 1,
            Operation::Integer(_) => 1,
            Operation::Binary(_, lhs, rhs) => lhs + rhs,
        }
    };
    let vars: Vars<u32> = Vars::new();
    let tree = parse("1 + 2 * (3 - 4) ^ 5").unwrap();
    assert_eq!(Eval::new().eval(&tree, &vars, &count), Ok(5));
}

#[test]
fn the_interpreter_evaluates_a_tree_and_a_source() {
    let mut vars: Vars<f64> = Vars::new();
    vars.insert("x".to_string(), 4.0);
    let tree = parse("x ^ 0.5 + 1").unwrap();
    assert_eq!(Interpreter::from_ast(&tree, &vars, &arithmetic), Ok(3.0));
    assert_eq!(Interpreter::from_source("1 + 2", &vars, &arithmetic), Ok(3.0));
    assert_eq!(
        Interpreter::from_source("2 + (2 - 1)", &vars, &arithmetic),
        Ok(3.0)
    );
    assert_eq!(
        Interpreter::from_source("1 + ((2 + 3) - (2 + 3))", &vars, &arithmetic),
        Ok(1.0)
    );
    assert_eq!(
        Interpreter::from_source("x + y", &vars, &arithmetic),
        Err(Error::UnknownVariable("y".to_string()))
    );
}
