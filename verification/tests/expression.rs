use ptfkit_codegen::formula::{BinaryOp, UnaryOp};
use ptfkit_codegen::render::c::{expression, float_literal, requires_math, requires_pow4, Dialect};
use ptfkit_codegen::semantic::{Expr, MathFunction, Number, Reference, Variable, VariableValue};

fn inputs() -> Vec<String> {
    vec!["x".into(), "y".into(), "z".into()]
}

fn input(index: usize) -> Expr {
    Expr::Reference(Reference::Input(index))
}

fn number(value: f64) -> Expr {
    Expr::Number(Number { lexeme: value.to_string() })
}

#[test]
fn c_preserves_precedence_for_c_and_cpp() {
    let expression_value = Expr::Binary {
        op: BinaryOp::Subtract,
        left: Box::new(input(0)),
        right: Box::new(Expr::Binary {
            op: BinaryOp::Subtract,
            left: Box::new(input(1)),
            right: Box::new(input(2)),
        }),
    };

    assert_eq!(expression(&expression_value, &inputs(), &[], Dialect::C), "x - (y - z)");
    assert_eq!(expression(&expression_value, &inputs(), &[], Dialect::Cpp), "x - (y - z)");
}

#[test]
fn c_preserves_parentheses_in_nested_unary_and_binary_expressions() {
    let expression_value = Expr::Binary {
        op: BinaryOp::Divide,
        left: Box::new(Expr::Unary {
            op: UnaryOp::Minus,
            operand: Box::new(Expr::Binary { op: BinaryOp::Add, left: Box::new(input(0)), right: Box::new(input(1)) }),
        }),
        right: Box::new(Expr::Binary {
            op: BinaryOp::Multiply,
            left: Box::new(input(2)),
            right: Box::new(Expr::Binary { op: BinaryOp::Subtract, left: Box::new(input(0)), right: Box::new(input(1)) }),
        }),
    };

    assert_eq!(expression(&expression_value, &inputs(), &[], Dialect::C), "-(x + y) / (z * (x - y))");
}

#[test]
fn c_unary_plus_preserves_the_operand_precedence() {
    let expression_value = Expr::Binary {
        op: BinaryOp::Multiply,
        left: Box::new(Expr::Unary {
            op: UnaryOp::Plus,
            operand: Box::new(Expr::Binary { op: BinaryOp::Add, left: Box::new(input(0)), right: Box::new(input(1)) }),
        }),
        right: Box::new(input(2)),
    };

    assert_eq!(expression(&expression_value, &inputs(), &[], Dialect::C), "(x + y) * z");
}

#[test]
fn c_renders_power_and_calls_with_dialect_local_math_names() {
    let expression_value = Expr::Call {
        function: MathFunction::Min,
        args: vec![
            Expr::Binary {
                op: BinaryOp::Power,
                left: Box::new(Expr::Binary { op: BinaryOp::Add, left: Box::new(input(0)), right: Box::new(input(1)) }),
                right: Box::new(Expr::Unary { op: UnaryOp::Minus, operand: Box::new(input(2)) }),
            },
            Expr::Call {
                function: MathFunction::Sqrt,
                args: vec![Expr::Binary { op: BinaryOp::Multiply, left: Box::new(input(0)), right: Box::new(input(1)) }],
            },
        ],
    };

    assert_eq!(expression(&expression_value, &inputs(), &[], Dialect::C), "fmin(pow(x + y, -z), sqrt(x * y))");
    assert_eq!(
        expression(&expression_value, &inputs(), &[], Dialect::Cpp),
        "std::fmin(std::pow(x + y, -z), std::sqrt(x * y))"
    );
}

#[test]
fn renders_small_integer_powers_as_multiplication_for_all_c_dialects() {
    for (exponent, expected) in [(2.0, "x * x"), (3.0, "x * x * x"), (4.0, "ptfkit_pow4(x)")] {
        let expression_value =
            Expr::Binary { op: BinaryOp::Power, left: Box::new(input(0)), right: Box::new(number(exponent)) };
        assert_eq!(expression(&expression_value, &inputs(), &[], Dialect::C), expected);
        assert_eq!(expression(&expression_value, &inputs(), &[], Dialect::Cpp), expected);
        assert!(!requires_math(&expression_value));
        assert_eq!(requires_pow4(&expression_value), exponent == 4.0);
    }
}

#[test]
fn parenthesizes_small_integer_powers_when_required_by_division() {
    let expression_value = Expr::Binary {
        op: BinaryOp::Divide,
        left: Box::new(input(0)),
        right: Box::new(Expr::Binary { op: BinaryOp::Power, left: Box::new(input(1)), right: Box::new(number(2.0)) }),
    };
    assert_eq!(expression(&expression_value, &inputs(), &[], Dialect::C), "x / (y * y)");
}

#[test]
fn renders_record_field_access_for_native_dialects() {
    let expression_value = Expr::Field { record: Reference::Variable(0), field: "b".into() };
    let variables = [Variable {
        name: "parameters".into(),
        value: VariableValue::Expression(Expr::Number(Number { lexeme: "0.0".into() })),
    }];

    assert_eq!(expression(&expression_value, &[], &variables, Dialect::C), "parameters.b");
    assert!(!requires_math(&expression_value));
    assert!(!requires_pow4(&expression_value));
}

#[test]
fn float_literals_gain_a_fraction_only_when_they_lack_one() {
    assert_eq!(float_literal("2"), "2.0");
    assert_eq!(float_literal("2.5"), "2.5");
    assert_eq!(float_literal("1e-3"), "1e-3");
    assert_eq!(float_literal("1E3"), "1E3");
}

#[test]
fn powers_that_are_not_small_integers_use_the_math_library() {
    for lexeme in ["2.5", "5", "1", "2.0000000001"] {
        let expression_value = Expr::Binary {
            op: BinaryOp::Power,
            left: Box::new(input(0)),
            right: Box::new(Expr::Number(Number { lexeme: lexeme.into() })),
        };
        assert!(requires_math(&expression_value), "{lexeme}");
    }
    let four = Expr::Binary {
        op: BinaryOp::Power,
        left: Box::new(input(0)),
        right: Box::new(Expr::Number(Number { lexeme: "0.4e1".into() })),
    };
    assert_eq!(expression(&four, &inputs(), &[], Dialect::C), "ptfkit_pow4(x)");
    let call = Expr::Call { function: MathFunction::Abs, args: vec![four] };
    assert!(requires_pow4(&call));
    assert_eq!(expression(&call, &inputs(), &[], Dialect::Cpp), "std::abs(ptfkit_pow4(x))");
    assert_eq!(expression(&call, &inputs(), &[], Dialect::C), "fabs(ptfkit_pow4(x))");
}
