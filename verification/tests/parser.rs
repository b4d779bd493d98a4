use calc_rs::{
    parse, prepare_equ, split_definition, tokenize, Definition, Error, Expected, Node, Operator,
    ParseError, Token, TokenKind,
};

fn num(text: &str) -> Node {
    Node::Num(text.to_string())
}

fn var(name: &str) -> Node {
    Node::Var(name.to_string())
}

fn binary(op: Operator, lhs: Node, rhs: Node) -> Node {
    Node::BinaryExpr {
        op,
        lhs: Box::new(lhs),
        rhs: Box::new(rhs),
    }
}

fn unary(inner: Node) -> Node {
    Node::UnaryExpr(Box::new(inner))
}

fn violation(position: usize, expected: Expected) -> Result<Node, ParseError> {
    Err(ParseError { position, expected })
}

#[test]
fn numbers_and_variables_are_leaves() {
    assert_eq!(parse("42"), Ok(num("42")));
    assert_eq!(parse("0.125"), Ok(num("0.125")));
    assert_eq!(parse("  x "), Ok(var("x")));
    assert_eq!(parse("rate"), Ok(var("rate")));
}

#[test]
fn a_product_is_an_operand_of_a_sum() {
    assert_eq!(
        parse("2 + 3 * 4"),
        Ok(binary(
            Operator::Plus,
            num("2"),
            binary(Operator::Multiply, num("3"), num("4"))
        ))
    );
    assert_eq!(
        parse("2 * 3 + 4"),
        Ok(binary(
            Operator::Plus,
            binary(Operator::Multiply, num("2"), num("3")),
            num("4")
        ))
    );
}

#[test]
fn sums_and_products_lean_to_the_left() {
    assert_eq!(
        parse("1 - 2 + 3"),
        Ok(binary(
            Operator::Plus,
            binary(Operator::Minus, num("1"), num("2")),
            num("3")
        ))
    );
    assert_eq!(
        parse("a / b * c"),
        Ok(binary(
            Operator::Multiply,
            binary(Operator::Divide, var("a"), var("b")),
            var("c")
        ))
    );
}

#[test]
fn powers_lean_to_the_right() {
    assert_eq!(
        parse("2 ^ 3 ^ 2"),
        Ok(binary(
            Operator::Exponent,
            num("2"),
            binary(Operator::Exponent, num("3"), num("2"))
        ))
    );
}

#[test]
fn all_levels_in_one_expression() {
    assert_eq!(
        parse("1*2+3*4^5-6"),
        Ok(binary(
            Operator::Minus,
            binary(
                Operator::Plus,
                binary(Operator::Multiply, num("1"), num("2")),
                binary(
                    Operator::Multiply,
                    num("3"),
                    binary(Operator::Exponent, num("4"), num("5"))
                )
            ),
            num("6")
        ))
    );
}

#[test]
fn parentheses_group() {
    assert_eq!(
        parse("(1 + 2) * 3"),
        Ok(binary(
            Operator::Multiply,
            binary(Operator::Plus, num("1"), num("2")),
            num("3")
        ))
    );
    assert_eq!(parse("((x))"), Ok(var("x")));
}

#[test]
fn a_minus_sign_before_a_literal_is_a_product() {
    assert_eq!(
        parse("-2"),
        Ok(binary(Operator::Multiply, num("-1"), num("2")))
    );
    assert_eq!(
        parse("- 2.5 ^ x"),
        Ok(binary(
            Operator::Exponent,
            binary(Operator::Multiply, num("-1"), num("2.5")),
            var("x")
        ))
    );
}

#[test]
fn a_minus_sign_before_anything_else_is_a_unary_node() {
    assert_eq!(parse("-x"), Ok(unary(var("x"))));
    assert_eq!(
        parse("-(x + 1)"),
        Ok(unary(binary(Operator::Plus, var("x"), num("1"))))
    );
    assert_eq!(
        parse("--2"),
        Ok(unary(binary(Operator::Multiply, num("-1"), num("2"))))
    );
    assert_eq!(
        parse("-x ^ 2"),
        Ok(binary(Operator::Exponent, unary(var("x")), num("2")))
    );
    assert_eq!(
        parse("1 - -x"),
        Ok(binary(Operator::Minus, num("1"), unary(var("x"))))
    );
}

#[test]
fn parsing_twice_gives_the_same_tree() {
    for source in ["1 + 2 * (x - 3) ^ -y", "2 ^ 3 ^ 2", "-(a)", "1 +", ""] {
        assert_eq!(parse(source), parse(source));
    }
}

#[test]
fn a_missing_operand_is_reported_where_it_is_missing() {
    assert_eq!(parse(""), violation(0, Expected::Operand));
    assert_eq!(parse("   "), violation(3, Expected::Operand));
    assert_eq!(parse("1 + "), violation(4, Expected::Operand));
    assert_eq!(parse("1 + * 2"), violation(4, Expected::Operand));
    assert_eq!(parse("()"), violation(1, Expected::Operand));
    assert_eq!(parse("-"), violation(1, Expected::Operand));
    assert_eq!(parse("2 ^ )"), violation(4, Expected::Operand));
}

#[test]
fn an_open_parenthesis_is_reported_where_it_should_close() {
    assert_eq!(parse("(1 + 2"), violation(6, Expected::Closing));
    assert_eq!(parse("(1 2)"), violation(3, Expected::Closing));
    assert_eq!(parse("((1)"), violation(4, Expected::Closing));
}

#[test]
fn trailing_text_is_reported_where_it_starts() {
    assert_eq!(parse("1 2"), violation(2, Expected::End));
    assert_eq!(parse("1 + 2)"), violation(5, Expected::End));
    assert_eq!(parse("x y"), violation(2, Expected::End));
    assert_eq!(parse("2(3)"), violation(1, Expected::End));
}

#[test]
fn a_character_outside_the_grammar_is_a_violation() {
    assert_eq!(parse("1 $ 2"), violation(2, Expected::End));
    assert_eq!(parse("1 + #"), violation(4, Expected::Operand));
    assert_eq!(parse("1 % 2"), violation(2, Expected::End));
    assert_eq!(parse("1."), violation(1, Expected::End));
    assert_eq!(parse(".5"), violation(0, Expected::Operand));
    assert_eq!(parse("1.5.2"), violation(3, Expected::End));
    assert_eq!(parse("x1"), violation(1, Expected::End));
}

#[test]
fn positions_count_characters() {
    assert_eq!(parse("é + 1"), violation(0, Expected::Operand));
    assert_eq!(parse("(x + é)"), violation(5, Expected::Operand));
    assert_eq!(
        parse("x + 1 é"),
        violation(6, Expected::End)
    );
}

#[test]
fn tokens_cover_the_text_between_the_spaces() {
    let token = |kind, start, end| Token { kind, start, end };
    assert_eq!(
        tokenize("12.5 * (ab - 3)^x"),
        vec![
            token(TokenKind::Number, 0, 4),
            token(TokenKind::Star, 5, 6),
            token(TokenKind::Open, 7, 8),
            token(TokenKind::Variable, 8, 10),
            token(TokenKind::Minus, 11, 12),
            token(TokenKind::Number, 13, 14),
            token(TokenKind::Close, 14, 15),
            token(TokenKind::Caret, 15, 16),
            token(TokenKind::Variable, 16, 17),
            token(TokenKind::End, 17, 17),
        ]
    );
    assert_eq!(tokenize(""), vec![token(TokenKind::End, 0, 0)]);
    assert_eq!(
        tokenize("1.+/?"),
        vec![
            token(TokenKind::Number, 0, 1),
            token(TokenKind::Unknown, 1, 2),
            token(TokenKind::Plus, 2, 3),
            token(TokenKind::Slash, 3, 4),
            token(TokenKind::Unknown, 4, 5),
            token(TokenKind::End, 5, 5),
        ]
    );
}

#[test]
fn tabs_and_line_breaks_separate_tokens_like_spaces() {
    assert_eq!(
        parse("1\t+\r\n2"),
        Ok(binary(Operator::Plus, num("1"), num("2")))
    );
    assert_eq!(parse("1 +\n"), violation(4, Expected::Operand));
}

#[test]
fn a_number_is_the_longest_run_of_digits_with_one_point() {
    let token = |kind, start, end| Token { kind, start, end };
    assert_eq!(
        tokenize("007.250"),
        vec![token(TokenKind::Number, 0, 7), token(TokenKind::End, 7, 7)]
    );
    assert_eq!(
        tokenize("1.2.3"),
        vec![
            token(TokenKind::Number, 0, 3),
            token(TokenKind::Unknown, 3, 4),
            token(TokenKind::Number, 4, 5),
            token(TokenKind::End, 5, 5),
        ]
    );
    assert_eq!(
        tokenize("12abc3"),
        vec![
            token(TokenKind::Number, 0, 2),
            token(TokenKind::Variable, 2, 5),
            token(TokenKind::Number, 5, 6),
            token(TokenKind::End, 6, 6),
        ]
    );
}

#[test]
fn the_first_implicit_multiplication_is_written_out() {
    assert_eq!(prepare_equ("4(10+4)^2"), "4 * (10+4)^2");
    assert_eq!(prepare_equ(" 0.1x^3"), " 0.1 * x^3");
    assert_eq!(prepare_equ("15x^2"), "15 * x^2");
    assert_eq!(prepare_equ("xy"), "x * y");
    assert_eq!(prepare_equ("rate"), "r * ate");
    assert_eq!(prepare_equ("x(1)"), "x * (1)");
}

#[test]
fn later_implicit_multiplications_are_left_alone() {
    assert_eq!(prepare_equ("2x(3y)"), "2 * x(3y)");
    assert_eq!(prepare_equ("2(3)(4)"), "2 * (3)(4)");
}

#[test]
fn a_text_without_implicit_multiplication_is_unchanged() {
    assert_eq!(prepare_equ("1 + 2 * 3"), "1 + 2 * 3");
    assert_eq!(prepare_equ(" 1/x"), " 1/x");
    assert_eq!(prepare_equ("(1)2"), "(1)2");
    assert_eq!(prepare_equ(""), "");
}

#[test]
fn the_display_form_of_an_operator_is_its_sign() {
    assert_eq!(Operator::Plus.to_string(), "+");
    assert_eq!(Operator::Minus.to_string(), "-");
    assert_eq!(Operator::Multiply.to_string(), "*");
    assert_eq!(Operator::Divide.to_string(), "/");
    assert_eq!(Operator::Exponent.to_string(), "^");
    assert_eq!(Operator::Negative.to_string(), "-");
    assert_eq!(Operator::Exponent.symbol(), '^');
    assert_eq!(Operator::Negative.symbol(), '-');
}

#[test]
fn the_display_form_of_a_tree_has_no_parentheses() {
    assert_eq!(parse("(1 + 2) + 3").unwrap().to_string(), "1 + 2 + 3");
    assert_eq!(parse("1 + (2 + 3)").unwrap().to_string(), "1 + 2 + 3");
    assert_eq!(parse("1+(2+(3+4))").unwrap().to_string(), "1 + 2 + 3 + 4");
    assert_eq!(parse("(1+2)+(3-4)").unwrap().to_string(), "1 + 2 + 3 - 4");
    assert_eq!(parse("-(x)*-2").unwrap().to_string(), "x * -1 * 2");
}

#[test]
fn a_copy_of_a_tree_is_equal_to_it() {
    let tree = parse("1 + 2 * (x - 3) ^ -y").unwrap();
    assert_eq!(tree.clone(), tree);
}

#[test]
fn what_the_grammar_expected_is_said_in_words() {
    assert_eq!(Expected::Operand.describe(), "a number, a variable, '(' or '-'");
    assert_eq!(Expected::Closing.describe(), "an operator or ')'");
    assert_eq!(Expected::End.describe(), "an operator or the end of the text");
}

#[test]
fn a_definition_splits_at_its_first_equals_sign() {
    assert_eq!(
        split_definition("f(x) = 0.1x^3"),
        Ok(Definition {
            label: "f(x) ".to_string(),
            parameter: "x".to_string(),
            body: " 0.1x^3".to_string(),
        })
    );
    assert_eq!(
        split_definition("g( t )=t=1"),
        Ok(Definition {
            label: "g( t )".to_string(),
            parameter: "t".to_string(),
            body: "t=1".to_string(),
        })
    );
    assert_eq!(
        split_definition("f(x) = "),
        Ok(Definition {
            label: "f(x) ".to_string(),
            parameter: "x".to_string(),
            body: " ".to_string(),
        })
    );
}

#[test]
fn a_text_that_is_no_definition_is_malformed() {
    for function in ["", "=", "f(x)", "f = x", "f( ) = x", "f(x y) = x", " (x) = x", "f(x) g = x"] {
        assert_eq!(
            split_definition(function),
            Err(Error::MalformedFunctionDefinition)
        );
    }
}
