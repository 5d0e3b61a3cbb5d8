use ptfkit_codegen::formula::{parse, BinaryOp, Expr, ExprKind, UnaryOp};

fn shape(expression: &Expr) -> String {
    match &expression.kind {
        ExprKind::Number(number) => format!("{}", number.lexeme.parse::<f64>().unwrap()),
        ExprKind::Variable(name) => name.clone(),
        ExprKind::Field { base, field } => format!("{base}.{field}"),
        ExprKind::Unary { op, operand } => match op {
            UnaryOp::Plus => format!("(+ {})", shape(operand)),
            UnaryOp::Minus => format!("(- {})", shape(operand)),
        },
        ExprKind::Binary { op, left, right } => {
            let op = match op {
                BinaryOp::Add => "+",
                BinaryOp::Subtract => "-",
                BinaryOp::Multiply => "*",
                BinaryOp::Divide => "/",
                BinaryOp::Power => "^",
            };
            format!("({op} {} {})", shape(left), shape(right))
        }
        ExprKind::Call { name, args } => format!(
            "{name}({})",
            args.iter().map(shape).collect::<Vec<_>>().join(", ")
        ),
        ExprKind::Grouped(expression) => format!("(group {})", shape(expression)),
    }
}

#[test]
fn parses_operator_precedence_and_associativity() {
    let cases = [
        ("a + b", "(+ a b)"),
        ("a - b - c", "(- (- a b) c)"),
        ("a * b / c", "(/ (* a b) c)"),
        ("a + b * c", "(+ a (* b c))"),
        ("-x ^ y", "(- (^ x y))"),
        ("(-x) ^ y", "(^ (group (- x)) y)"),
        ("a ^ b ^ c", "(^ a (^ b c))"),
        ("a ^ -b", "(^ a (- b))"),
        ("a / b ^ c", "(/ a (^ b c))"),
    ];

    for (source, expected) in cases {
        assert_eq!(shape(&parse("formula", source).unwrap()), expected, "{source}");
    }
}

#[test]
fn parses_numbers_whitespace_and_nested_calls() {
    let expression = parse("spec.yaml:12", "\n  max(.5e1, sqrt(x + 2.))\n").unwrap();
    assert_eq!(shape(&expression), "max(5, sqrt((+ x 2)))");
    assert_eq!(expression.span.start, 3);
    assert_eq!(expression.span.end, 26);
}

#[test]
fn preserves_number_lexemes() {
    let expression = parse("formula", "1.00 + .5e1 + 2.").unwrap();
    let ExprKind::Binary { left, right, .. } = expression.kind else {
        panic!("expected addition");
    };
    let ExprKind::Binary { left, right: middle, .. } = left.kind else {
        panic!("expected addition");
    };
    let ExprKind::Number(first) = left.kind else {
        panic!("expected number");
    };
    let ExprKind::Number(middle) = middle.kind else {
        panic!("expected number");
    };
    let ExprKind::Number(last) = right.kind else {
        panic!("expected number");
    };
    assert_eq!([first.lexeme, middle.lexeme, last.lexeme], ["1.00", ".5e1", "2."]);
}

#[test]
fn assigns_each_operator_node_its_own_source_span() {
    let expression = parse("formula", "a + b + c").unwrap();
    let ExprKind::Binary { left, .. } = expression.kind else {
        panic!("expected addition");
    };
    assert_eq!(left.span.start, 0);
    assert_eq!(left.span.end, 5);

    let expression = parse("formula", "--x").unwrap();
    let ExprKind::Unary { operand, .. } = expression.kind else {
        panic!("expected unary expression");
    };
    assert_eq!(expression.span.start, 0);
    assert_eq!(expression.span.end, 3);
    assert_eq!(operand.span.start, 1);
    assert_eq!(operand.span.end, 3);
}

#[test]
fn preserves_all_initial_function_spellings_without_semantic_validation() {
    for name in ["sqrt", "exp", "ln", "log10", "abs", "min", "max"] {
        let expression = parse("formula", &format!("{name}(x)")).unwrap();
        assert_eq!(shape(&expression), format!("{name}(x)"));
    }
    assert_eq!(shape(&parse("formula", "unknown(x, y, z)").unwrap()), "unknown(x, y, z)");
}

#[test]
fn rejects_non_canonical_and_malformed_syntax() {
    for source in ["2x", "x**2", "√x", "sqrt x", "f(,x)", "f(x,)", "1e", "1.2.3", ".", "1e9999"] {
        assert!(parse("spec.yaml:9", source).is_err(), "{source}");
    }
}

#[test]
fn finite_number_errors_preserve_the_expression_location() {
    let error = parse("specs/example.yaml:18", "1e9999").unwrap_err();
    assert_eq!(error.location, "specs/example.yaml:18");
    assert_eq!(error.span.start, 0);
    assert_eq!(error.span.end, 6);
    assert!(error.message().contains("a finite number"));
}

#[test]
fn diagnostics_include_location_span_and_expected_tokens() {
    let error = parse("specs/example.yaml:17", "x + )").unwrap_err();
    assert_eq!(error.location, "specs/example.yaml:17");
    assert_eq!(error.span.start, 4);
    assert!(error.span.end > error.span.start);
    assert!(error.message().contains("specs/example.yaml:17:4..5"));
    assert!(error.message().contains("expected"));
}

#[test]
fn parses_record_fields_and_empty_calls() {
    let expression = parse("formula", "row.theta_s * f()").unwrap();
    assert_eq!(shape(&expression), "(* row.theta_s f())");
}

#[test]
fn rejects_a_non_ascii_character_with_its_whole_width() {
    let error = parse("formula", "√x").unwrap_err();
    assert_eq!(error.span.start, 0);
    assert_eq!(error.span.end, "√".len());
    assert_eq!(error.message(), "formula:0..3: expected a finite number or an identifier or `(` or `+` or `-`");
}

#[test]
fn reports_an_unexpected_end_of_input() {
    let error = parse("formula", "(x").unwrap_err();
    assert_eq!(error.span.start, 2);
    assert_eq!(error.span.end, 2);
    assert_eq!(error.message(), "formula:2..2: expected `^` or `*` or `/` or `+` or `-` or `)`");
}

#[test]
fn a_syntax_error_is_reported_before_an_infinite_number() {
    let error = parse("formula", "1e9999 + )").unwrap_err();
    assert_eq!(error.span.start, 9);
    let error = parse("formula", "1 + 1e400 * 2e400").unwrap_err();
    assert_eq!((error.span.start, error.span.end), (4, 9));
}
