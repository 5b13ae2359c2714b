use unitconvert::eval;
use unitconvert::expression::{AbstractSyntaxTreeNode, Expression, InMemoryExpressionContext};
use unitconvert::expression::{Function, Operator};
use unitconvert::numeric::NumericOp;
use unitconvert::shunting_yard_algorithm::shunting_yard;
use unitconvert::tokenizer::{parse, Token};

fn apply(op: NumericOp, a: u64, b: u64) -> u64 {
    let x = f64::from_bits(a);
    let y = f64::from_bits(b);
    match op {
        NumericOp::Add => (x + y).to_bits(),
        NumericOp::Sub => (x - y).to_bits(),
        NumericOp::Mul => (x * y).to_bits(),
        NumericOp::Div => (x / y).to_bits(),
        NumericOp::Rem => (x % y).to_bits(),
        NumericOp::Pow => x.powf(y).to_bits(),
        NumericOp::Neg => (-x).to_bits(),
        NumericOp::Sin => x.sin().to_bits(),
        NumericOp::Cos => x.cos().to_bits(),
        NumericOp::Tan => x.tan().to_bits(),
        NumericOp::MaxStep => {
            if y > x {
                b
            } else {
                a
            }
        },
        NumericOp::MinStep => {
            if y < x {
                b
            } else {
                a
            }
        },
    }
}

fn parse_num(s: String) -> Option<u64> {
    s.parse::<f64>().ok().map(|v| v.to_bits())
}

fn num(v: f64) -> Token {
    Token::Number(v.to_bits())
}

fn eval_f64(input: &str) -> Result<f64, String> {
    match eval(input, &apply, &parse_num) {
        Ok(bits) => Ok(f64::from_bits(bits)),
        Err(e) => Err(e.describe()),
    }
}

// --- tokenizer ---

#[test]
fn tokenizer_operation() {
    let expected = vec![num(5.0), Token::Operator(Operator::Addition), num(10.0)];
    let actual = parse("5 + 10", &parse_num);
    assert_eq!(expected, actual.unwrap());
}

#[test]
fn multibyte_unicode_character() {
    let expected = vec![
        num(5.0),
        Token::Operator(Operator::Division),
        Token::Operator(Operator::Negative),
        num(10.0),
    ];
    let actual = parse("5÷-10", &parse_num);
    assert_eq!(expected, actual.unwrap());
}

#[test]
fn tokenizer_function() {
    let expected = vec![
        Token::Func(Function::Sin),
        Token::Left,
        num(5.0),
        Token::Operator(Operator::Addition),
        num(10.0),
        Token::Right,
    ];
    let actual = parse("sin (5 + 10)", &parse_num);
    assert_eq!(expected, actual.unwrap());
}

#[test]
fn tokenizer_decimal() {
    let expected = vec![num(0.5), Token::Operator(Operator::Multiplication), num(1.04)];
    let actual = parse("0.5 * 1.04", &parse_num);
    assert_eq!(expected, actual.unwrap());
}

#[test]
fn tokenizer_negative_number() {
    let expected = vec![
        Token::Operator(Operator::Negative),
        num(5.0),
        Token::Operator(Operator::Subtraction),
        Token::Operator(Operator::Negative),
        num(10.0),
    ];
    let actual = parse("-5 - -10", &parse_num);
    assert_eq!(expected, actual.unwrap());
}

#[test]
fn unary_expression_with_function() {
    let expected = vec![
        Token::Operator(Operator::Negative),
        Token::Func(Function::Max),
        Token::Left,
        num(5.3),
        Token::Comma,
        num(3.0),
        Token::Right,
    ];
    let actual = parse("-max(5.3, 3)", &parse_num);
    assert_eq!(expected, actual.unwrap());
}

#[test]
fn tokenizer_nested() {
    let expected = vec![
        Token::Func(Function::Sin),
        Token::Left,
        Token::Left,
        num(1.5),
        Token::Operator(Operator::Addition),
        num(5.0),
        Token::Right,
        Token::Operator(Operator::Multiplication),
        num(2.0),
        Token::Right,
        Token::Operator(Operator::Subtraction),
        num(76.0),
        Token::Operator(Operator::Multiplication),
        Token::Left,
        Token::Func(Function::Sin),
        Token::Left,
        num(5.0),
        Token::Right,
        Token::Operator(Operator::Addition),
        num(5.0),
        Token::Right,
    ];
    let actual = parse("sin ((1.5 + 5) * 2) - 76 * (sin(5) + 5)", &parse_num);
    assert_eq!(expected, actual.unwrap());
}

#[test]
fn tokenizer_nested_functions() {
    let expected = vec![
        Token::Func(Function::Sin),
        Token::Left,
        Token::Func(Function::Max),
        Token::Left,
        num(2.0),
        Token::Comma,
        num(3.0),
        Token::Right,
        Token::Operator(Operator::Division),
        num(3.0),
        Token::Operator(Operator::Multiplication),
        num(std::f64::consts::PI),
        Token::Right,
    ];
    let actual = parse("sin ( max ( 2, 3 ) ÷ 3 × π )", &parse_num);
    assert_eq!(expected, actual.unwrap());
}

#[test]
fn parameter_single_character() {
    let input = "a + 5";
    let expected = vec![
        Token::Parameter(String::from("a")),
        Token::Operator(Operator::Addition),
        num(5.0),
    ];
    let actual = parse(input, &parse_num).unwrap();
    assert_eq!(expected, actual);
}

#[test]
fn parameter_multiple_characters() {
    let input = "param + 5";
    let expected = vec![
        Token::Parameter(String::from("param")),
        Token::Operator(Operator::Addition),
        num(5.0),
    ];
    let actual = parse(input, &parse_num).unwrap();
    assert_eq!(expected, actual);
}

#[test]
fn multiple_parameters() {
    let input = "a+b";
    let expected = vec![
        Token::Parameter(String::from("a")),
        Token::Operator(Operator::Addition),
        Token::Parameter(String::from("b")),
    ];
    let actual = parse(input, &parse_num).unwrap();
    assert_eq!(expected, actual);
}

#[test]
fn brace_variable() {
    let input = "{C} * 1.8 + 32";
    let expected = vec![
        Token::Variable(String::from("C")),
        Token::Operator(Operator::Multiplication),
        num(1.8),
        Token::Operator(Operator::Addition),
        num(32.0),
    ];
    let actual = parse(input, &parse_num).unwrap();
    assert_eq!(expected, actual);
}

// --- tree builder ---

fn ast_num(v: f64) -> AbstractSyntaxTreeNode {
    AbstractSyntaxTreeNode::Number(v.to_bits())
}

#[test]
fn shunting_yard_algorithm_single_binary_expression() {
    let expected = AbstractSyntaxTreeNode::BinaryExpression {
        operator: Operator::Addition,
        left: Box::new(ast_num(5.0)),
        right: Box::new(ast_num(10.0)),
    };
    let tokens = parse("5 + 10", &parse_num).unwrap();
    let actual = shunting_yard(tokens).unwrap();

    assert_eq!(expected, actual);
}

#[test]
fn shunting_yard_algorithm_multiplication_precedence() {
    let tokens: Vec<Token> = vec![
        num(10.0),
        Token::Operator(Operator::Addition),
        num(5.0),
        Token::Operator(Operator::Multiplication),
        num(2.0),
    ];
    let expected = AbstractSyntaxTreeNode::BinaryExpression {
        operator: Operator::Addition,
        left: Box::new(ast_num(10.0)),
        right: Box::new(AbstractSyntaxTreeNode::BinaryExpression {
            operator: Operator::Multiplication,
            left: Box::new(ast_num(5.0)),
            right: Box::new(ast_num(2.0)),
        }),
    };

    let actual = shunting_yard(tokens).expect("");
    assert_eq!(expected, actual);
}

#[test]
fn shunting_yard_algorithm_complex() {
    let tokens: Vec<Token> = vec![
        num(3.0),
        Token::Operator(Operator::Addition),
        num(4.0),
        Token::Operator(Operator::Multiplication),
        Token::Left,
        num(2.0),
        Token::Operator(Operator::Division),
        Token::Left,
        num(1.0),
        Token::Operator(Operator::Subtraction),
        num(5.0),
        Token::Right,
        Token::Operator(Operator::Exponentiation),
        num(2.0),
        Token::Operator(Operator::Exponentiation),
        num(3.0),
        Token::Right,
    ];

    let expected = AbstractSyntaxTreeNode::BinaryExpression {
        operator: Operator::Addition,
        left: Box::new(ast_num(3.0)),
        right: Box::new(AbstractSyntaxTreeNode::BinaryExpression {
            operator: Operator::Multiplication,
            left: Box::new(ast_num(4.0)),
            right: Box::new(AbstractSyntaxTreeNode::BinaryExpression {
                operator: Operator::Division,
                left: Box::new(ast_num(2.0)),
                right: Box::new(AbstractSyntaxTreeNode::BinaryExpression {
                    operator: Operator::Exponentiation,
                    left: Box::new(AbstractSyntaxTreeNode::BinaryExpression {
                        operator: Operator::Subtraction,
                        left: Box::new(ast_num(1.0)),
                        right: Box::new(ast_num(5.0)),
                    }),
                    right: Box::new(AbstractSyntaxTreeNode::BinaryExpression {
                        operator: Operator::Exponentiation,
                        left: Box::new(ast_num(2.0)),
                        right: Box::new(ast_num(3.0)),
                    }),
                }),
            }),
        }),
    };

    let actual = shunting_yard(tokens).expect("");
    assert_eq!(expected, actual);
}

#[test]
fn shunting_yard_algorithm_function_simple() {
    let tokens: Vec<Token> = vec![
        Token::Func(Function::Sin),
        Token::Left,
        num(2.0),
        Token::Operator(Operator::Addition),
        num(1.0),
        Token::Right,
        Token::Operator(Operator::Exponentiation),
        num(10.0),
    ];

    let expected = AbstractSyntaxTreeNode::BinaryExpression {
        operator: Operator::Exponentiation,
        left: Box::new(AbstractSyntaxTreeNode::FunctionExpression {
            func: Function::Sin,
            expr: Box::new(AbstractSyntaxTreeNode::BinaryExpression {
                operator: Operator::Addition,
                left: Box::new(ast_num(2.0)),
                right: Box::new(ast_num(1.0)),
            }),
        }),
        right: Box::new(ast_num(10.0)),
    };
    let actual = shunting_yard(tokens).expect("");

    assert_eq!(expected, actual);
}

#[test]
fn shunting_yard_algorithm_function_with_parameter_list() {
    let tokens: Vec<Token> = vec![
        Token::Func(Function::Max),
        Token::Left,
        num(2.0),
        Token::Comma,
        num(3.0),
        Token::Comma,
        num(1.0),
        Token::Right,
        Token::Operator(Operator::Exponentiation),
        num(10.0),
    ];

    let expected = AbstractSyntaxTreeNode::BinaryExpression {
        operator: Operator::Exponentiation,
        left: Box::new(AbstractSyntaxTreeNode::FunctionParams {
            func: Function::Max,
            params: vec![ast_num(2.0), ast_num(3.0), ast_num(1.0)],
        }),
        right: Box::new(ast_num(10.0)),
    };
    let actual = shunting_yard(tokens).expect("");
    assert_eq!(expected, actual);
}

#[test]
fn shunting_yard_algorithm_functions() {
    let tokens: Vec<Token> = vec![
        Token::Func(Function::Sin),
        Token::Left,
        Token::Func(Function::Max),
        Token::Left,
        num(2.0),
        Token::Comma,
        num(3.0),
        Token::Right,
        Token::Operator(Operator::Division),
        num(3.0),
        Token::Operator(Operator::Multiplication),
        num(1.0),
        Token::Right,
    ];

    let expected = AbstractSyntaxTreeNode::FunctionExpression {
        func: Function::Sin,
        expr: Box::new(AbstractSyntaxTreeNode::BinaryExpression {
            operator: Operator::Multiplication,
            left: Box::new(AbstractSyntaxTreeNode::BinaryExpression {
                operator: Operator::Division,
                left: Box::new(AbstractSyntaxTreeNode::FunctionParams {
                    func: Function::Max,
                    params: vec![ast_num(2.0), ast_num(3.0)],
                }),
                right: Box::new(ast_num(3.0)),
            }),
            right: Box::new(ast_num(1.0)),
        }),
    };

    let actual = shunting_yard(tokens).expect("");
    assert_eq!(expected, actual);
}

// --- evaluation ---

#[test]
fn subtraction_operator() {
    assert_eq!(eval_f64("10 + 5 - 2").unwrap(), 13.0);
}

#[test]
fn multiplication_operator() {
    assert_eq!(eval_f64("10 + 5 * 2").unwrap(), 20.0);
}

#[test]
fn division_operator() {
    assert_eq!(eval_f64("10 + 5 / 2").unwrap(), 12.5);
}

#[test]
fn float_with_parenthesis() {
    assert_eq!(eval_f64("5 * (2.5 + 7.3)").unwrap(), 49.0);
}

#[test]
fn complex_equation() {
    assert_eq!(eval_f64("3 + 4 × 2 ÷ ( 1 − 5 ) ^ 2 ^ 3").unwrap(), 3.0001220703125);
}

#[test]
fn simple_function() {
    assert_eq!(eval_f64("cos (π)").unwrap(), -1.0);
}

#[test]
fn simple_max_function() {
    assert_eq!(eval_f64("max (2, 3)").unwrap(), 3.0);
}

#[test]
fn complex_equation_with_functions() {
    assert_eq!(
        eval_f64("sin ( max ( 2, 3 ) ÷ 3 × π )").unwrap(),
        0.00000000000000012246467991473532
    );
}

#[test]
fn single_negative_number() {
    assert_eq!(eval_f64("-2 + 5").unwrap(), 3.0);
}

#[test]
fn multiple_negative_numbers() {
    assert_eq!(eval_f64("-2 - -5").unwrap(), 3.0);
}

#[test]
fn negative_minus_negative() {
    assert_eq!(eval_f64("-5 - -10").unwrap(), 5.0);
}

#[test]
fn modulus_operator() {
    assert_eq!(eval_f64("5 + 5 % 10").unwrap(), 10.0);
}

#[test]
fn exponential_operator() {
    assert_eq!(eval_f64("2^5 * 10").unwrap(), 320.0);
}

#[test]
fn exponential_operator_with_addition() {
    assert_eq!(eval_f64("10 + 2^5").unwrap(), 42.0);
}

#[test]
fn exponential_operator_with_parenthesis() {
    assert_eq!(eval_f64("2^(10 - 2) % 10").unwrap(), 6.0);
}

#[test]
fn decimal_numbers() {
    assert_eq!(eval_f64("(0.3456 + 0.766) * 120.763").unwrap(), 134.2401508);
}

#[test]
fn precedence_addition_multiplication() {
    assert_eq!(eval_f64("3 + 4 * 2").unwrap(), 11.0);
}

#[test]
fn unary_operator_function() {
    assert_eq!(eval_f64("-max(5.3, 3)").unwrap(), -5.3);
}

#[test]
fn unary_with_exponential_operator() {
    assert_eq!(eval_f64("-2^4").unwrap(), -16.0);
}

#[test]
fn unary_complex_equation() {
    assert_eq!(eval_f64("2*-(1+2)^-(2+5*-(2+4))").unwrap(), -45753584909922.0);
}

#[test]
fn mismatched_parenthesis_right() {
    assert!(eval_f64("2 * (1 + 5").is_err());
}

#[test]
fn mismatched_parenthesis_left() {
    assert!(eval_f64("1 + 5) * 2").is_err());
}

#[test]
fn no_operator() {
    assert!(eval_f64("10 45").is_err());
}

#[test]
fn missing_number() {
    assert!(eval_f64("+ 10").is_err());
}

#[test]
fn expression_with_single_variable() {
    let expr = Expression::new("a + 5.3", &parse_num).expect("");

    let mut ctx = InMemoryExpressionContext::new();
    ctx.var("a", 0.0f64.to_bits());

    let actual = expr.eval_with_ctx(&ctx, &apply);
    assert!(actual.is_ok(), "Returned error {:?}", actual.err().map(|e| e.describe()));
    assert_eq!(f64::from_bits(actual.unwrap()), 5.3);
}

#[test]
fn pi_bits_name_the_circle_constant() {
    assert_eq!(
        f64::from_bits(unitconvert::numeric::PI_BITS),
        std::f64::consts::PI
    );
}

#[test]
fn evaluation_is_repeatable() {
    let first = eval_f64("sin ((1.5 + 5) * 2) - 76 * (sin(5) + 5)").unwrap();
    let second = eval_f64("sin ((1.5 + 5) * 2) - 76 * (sin(5) + 5)").unwrap();
    assert_eq!(first.to_bits(), second.to_bits());
}
