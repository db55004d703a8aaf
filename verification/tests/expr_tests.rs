use calki::math::expr::{
    differentiate, expr_contains_var, expr_to_string, find_all_variables_in_expr,
    find_variable_in_expr, get_op_precedence, simplify, Expr, Op,
};
use calki::math::number::Rational;

fn n(v: i64) -> Expr {
    Expr::Number(Rational::from_int(v))
}

fn var(name: &str) -> Expr {
    Expr::Variable(name.to_string())
}

fn b(op: Op, l: Expr, r: Expr) -> Expr {
    Expr::BinaryOp(op, Box::new(l), Box::new(r))
}

fn call(name: &str, arg: Expr) -> Expr {
    Expr::FnCall(name.to_string(), vec![arg])
}

fn derive_text(e: &Expr, v: &str) -> String {
    expr_to_string(&simplify(&differentiate(e, v).unwrap()))
}

#[test]
fn derivative_of_polynomial() {
    // x^2 + 5 * x - 3
    let e = b(
        Op::Sub,
        b(Op::Add, b(Op::Pow, var("x"), n(2)), b(Op::Mul, n(5), var("x"))),
        n(3),
    );
    assert_eq!(derive_text(&e, "x"), "2 * x + 5");
}

#[test]
fn derivative_of_trig_sum() {
    // sin(y) + cos(y)
    let e = b(Op::Add, call("sin", var("y")), call("cos", var("y")));
    assert_eq!(derive_text(&e, "y"), "cos(y) - sin(y)");
}

#[test]
fn derivative_errors() {
    let e = b(Op::Mod, var("x"), n(2));
    assert_eq!(differentiate(&e, "x").unwrap_err(), "Cannot differentiate operation Mod");
    let f = call("tan", var("x"));
    assert_eq!(
        differentiate(&f, "x").unwrap_err(),
        "Differentiating function 'tan' is not supported"
    );
    let g = Expr::FnCall("max".to_string(), vec![var("x"), n(1)]);
    assert_eq!(
        differentiate(&g, "x").unwrap_err(),
        "Differentiating multi-argument functions is not supported"
    );
    let h = Expr::StringLiteral("s".to_string());
    assert_eq!(
        differentiate(&h, "x").unwrap_err(),
        "Unsupported expression for differentiation"
    );
}

#[test]
fn derivative_of_constant_is_zero() {
    let e = b(Op::Mul, call("exp", var("a")), b(Op::Div, n(3), var("b")));
    assert_eq!(derive_text(&e, "x"), "0");
}

#[test]
fn simplify_folds_constants() {
    assert_eq!(expr_to_string(&simplify(&b(Op::Add, n(2), n(3)))), "5");
    assert_eq!(expr_to_string(&simplify(&b(Op::Pow, n(2), n(10)))), "1024");
    assert_eq!(expr_to_string(&simplify(&b(Op::Div, n(1), n(4)))), "0.25");
    assert_eq!(expr_to_string(&simplify(&b(Op::Mul, var("x"), n(1)))), "x");
    assert_eq!(
        expr_to_string(&simplify(&Expr::Percentage(Box::new(n(15))))),
        "0.15"
    );
    assert_eq!(
        expr_to_string(&simplify(&b(Op::Add, var("a"), b(Op::Sub, n(0), var("b"))))),
        "a - b"
    );
}

#[test]
fn printing_parenthesizes_by_precedence() {
    let e = b(Op::Mul, b(Op::Add, var("a"), var("b")), var("c"));
    assert_eq!(expr_to_string(&e), "(a + b) * c");
    let f = b(Op::Sub, var("a"), b(Op::Sub, var("b"), var("c")));
    assert_eq!(expr_to_string(&f), "a - (b - c)");
    let g = b(Op::Pow, var("a"), b(Op::Pow, var("b"), var("c")));
    assert_eq!(expr_to_string(&g), "a^b^c");
    let h = b(Op::Sub, n(0), b(Op::Add, var("a"), var("b")));
    assert_eq!(expr_to_string(&h), "-a + b");
    let l = Expr::List(vec![n(1), var("x")]);
    assert_eq!(expr_to_string(&l), "[1, x]");
    let c = Expr::Convert(Box::new(var("d")), "km".to_string());
    assert_eq!(expr_to_string(&c), "d in km");
    let q = Expr::Quantity(Rational::new(5, 2).unwrap(), "m".to_string());
    assert_eq!(expr_to_string(&q), "2.5m");
    let s = Expr::Switch {
        val: Box::new(var("x")),
        cases: vec![(n(1), Expr::StringLiteral("one".to_string()))],
        default_case: Some(Box::new(n(0))),
    };
    assert_eq!(expr_to_string(&s), "switch x {\n  1 => \"one\"\n  default => 0\n}");
}

#[test]
fn variables_found_in_order() {
    let e = b(Op::Add, b(Op::Mul, var("b"), var("a")), call("f", var("b")));
    assert_eq!(find_variable_in_expr(&e), Some("b".to_string()));
    assert_eq!(find_all_variables_in_expr(&e), vec!["b".to_string(), "a".to_string()]);
    assert!(expr_contains_var(&e, "a"));
    assert!(!expr_contains_var(&e, "c"));
    assert_eq!(find_variable_in_expr(&n(3)), None);
    assert!(find_all_variables_in_expr(&n(3)).is_empty());
    assert_eq!(get_op_precedence(&Op::Pow), 9);
    assert_eq!(get_op_precedence(&Op::Or), 1);
}

#[test]
fn test_symbolic_differentiation() {
    // diff(x^2 + 5 * x - 3, x)
    let expr1 = b(
        Op::Sub,
        b(Op::Add, b(Op::Pow, var("x"), n(2)), b(Op::Mul, n(5), var("x"))),
        n(3),
    );
    assert_eq!(derive_text(&expr1, "x"), "2 * x + 5");
    // der(sin(y) + cos(y), y)
    let expr2 = b(Op::Add, call("sin", var("y")), call("cos", var("y")));
    assert_eq!(derive_text(&expr2, "y"), "cos(y) - sin(y)");
}

/// The value of an arithmetic expression with `x = 3/2` and `y = -5`.
fn value_at(e: &Expr) -> Option<f64> {
    match e {
        Expr::Number(r) => Some(r.numerator() as f64 / r.denominator() as f64),
        Expr::Variable(name) => match name.as_str() {
            "x" => Some(1.5),
            "y" => Some(-5.0),
            _ => None,
        },
        Expr::BinaryOp(op, l, r) => {
            let (a, c) = (value_at(l)?, value_at(r)?);
            match op {
                Op::Add => Some(a + c),
                Op::Sub => Some(a - c),
                Op::Mul => Some(a * c),
                Op::Div => if c == 0.0 { None } else { Some(a / c) },
                _ => None,
            }
        }
        _ => None,
    }
}

#[test]
fn simplification_keeps_the_value() {
    let half = || Expr::Number(Rational::new(1, 2).unwrap());
    let cases = vec![
        b(Op::Add, b(Op::Mul, var("x"), n(1)), n(0)),
        b(Op::Sub, var("y"), b(Op::Sub, n(0), b(Op::Div, var("x"), half()))),
        b(Op::Add, b(Op::Div, n(0), var("y")), b(Op::Mul, n(3), half())),
        b(Op::Div, b(Op::Add, var("x"), b(Op::Sub, n(0), n(7))), n(1)),
        b(Op::Mul, b(Op::Add, n(2), n(3)), b(Op::Sub, var("x"), var("y"))),
    ];
    for e in cases {
        let before = value_at(&e).unwrap();
        let after = value_at(&simplify(&e)).unwrap();
        assert!((before - after).abs() < 1e-9, "{} vs {}", before, after);
    }
}
