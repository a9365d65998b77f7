use mathline::error::MathlineError;
use mathline::evaluator::Evaluator;
use mathline::expression::{Expression, InfixOp, PrefixOp, ValueExpression};
use mathline::parser::{parse, Parser};
use mathline::value::{Module, Value};

fn one(input: &str) -> Expression {
    let mut es = parse(input).unwrap();
    assert_eq!(es.len(), 1, "one expression in {input:?}");
    es.remove(0)
}

fn eval(input: &str) -> Result<Value, MathlineError> {
    Evaluator::new(one(input)).eval()
}

fn text(input: &str) -> String {
    one(input).to_string()
}

/// The float that a float expression computes, as a host would fold it.
fn float_of(e: &Expression) -> f64 {
    match e {
        Expression::Value(ValueExpression::Number(n)) => n.to_string().parse().unwrap(),
        Expression::Value(ValueExpression::Variable(v)) => match v.as_str() {
            "pi" => std::f64::consts::PI,
            "tau" => std::f64::consts::TAU,
            "e" => std::f64::consts::E,
            other => panic!("not a constant: {other}"),
        },
        Expression::Prefix(p) => match p.op {
            PrefixOp::Minus => -float_of(&p.rhs),
            PrefixOp::Plus => float_of(&p.rhs),
            PrefixOp::Not => panic!("not a float"),
        },
        Expression::Infix(i) => {
            let (a, b) = (float_of(&i.lhs), float_of(&i.rhs));
            match i.op {
                InfixOp::Add => a + b,
                InfixOp::Subtract => a - b,
                InfixOp::Multiply => a * b,
                InfixOp::Divide => a / b,
                InfixOp::Modulo => a % b,
                InfixOp::Exponent => a.powf(b),
                _ => panic!("not a float"),
            }
        },
        Expression::Fn(f) => {
            let x = float_of(&f.parameters[0]);
            match f.name.as_str() {
                "sin" => x.sin(),
                "cos" => x.cos(),
                "tan" => x.tan(),
                "log" => x.log10(),
                "ln" => x.ln(),
                other => panic!("not a float function: {other}"),
            }
        },
        Expression::Value(ValueExpression::Bool(_)) => panic!("not a float"),
    }
}

fn float(input: &str) -> f64 {
    match eval(input) {
        Ok(Value::F64(e)) => float_of(&e),
        other => panic!("{input:?} gave {other:?}"),
    }
}

fn invalid_expression_text(r: Result<Value, MathlineError>) -> String {
    match r {
        Err(MathlineError::InvalidExpression(e)) => e.to_string(),
        other => panic!("expected an invalid expression, got {other:?}"),
    }
}

#[test]
fn precedence() {
    assert_eq!(eval("1 + 2 * 3"), Ok(Value::I64(7)));
    assert_eq!(eval("(1 + 2) * 3"), Ok(Value::I64(9)));
    assert_eq!(eval("2 ^ 3 ^ 2"), Ok(Value::I64(512)));
    assert_eq!(text("2 ^ 3 ^ 2"), "2 ** (3 ** 2)");
    assert_eq!(text("1 + 2 * 3"), "1 + (2 * 3)");
    assert_eq!(text("1 - 2 - 3"), "(1 - 2) - 3");
    assert_eq!(eval("2 ^ 3 * 4"), Ok(Value::I64(32)));
    assert_eq!(text("2 ^ 3 * 4"), "(2 ** 3) * 4");
    assert_eq!(eval("2 ^ 3 + 1"), Ok(Value::I64(9)));
    assert_eq!(text("2 ^ 3 + 1"), "(2 ** 3) + 1");
    assert_eq!(text("2 ^ -3 ^ 2"), "2 ** (-(3 ** 2))");
}

#[test]
fn prefix_binding() {
    assert_eq!(eval("-2 ^ 2"), Ok(Value::I64(-4)));
    assert_eq!(text("-2 ^ 2"), "-(2 ** 2)");
    assert_eq!(text("not 1 < 2 and true"), "((not 1) < 2) and true");
    assert_eq!(text("not x * 2"), "(not x) * 2");
    assert_eq!(text("not -x ^ 2"), "not (-(x ** 2))");
    assert_eq!(text("2 * -3"), "2 * (-3)");
    assert_eq!(eval("2 * -3"), Ok(Value::I64(-6)));
}

#[test]
fn integer_float_boundary() {
    assert_eq!(float("7 / 2"), 3.5);
    assert_eq!(eval("8 / 2"), Ok(Value::I64(4)));
    assert_eq!(eval("7 % 2"), Ok(Value::I64(1)));
    assert_eq!(eval("-7 % 2"), Ok(Value::I64(-1)));
    assert_eq!(eval("8 // 2"), Ok(Value::I64(4)));
    assert_eq!(float("1.5 + 1"), 2.5);
    assert_eq!(float("3.0"), 3.0);
    assert_eq!(float("3."), 3.0);
    assert!(matches!(eval("6.0 / 2"), Ok(Value::F64(_))));
    assert_eq!(float("2 ** -1"), 0.5);
    assert!(float("1 / 0").is_infinite());
}

#[test]
fn overflow_fails() {
    assert_eq!(invalid_expression_text(eval("2 ** 64")), "2 ** 64");
    assert_eq!(eval("2 ** 62"), Ok(Value::I64(4611686018427387904)));
    assert_eq!(eval("(-2) ** 63"), Ok(Value::I64(i64::MIN)));
    assert_eq!(invalid_expression_text(eval("(-2) ** 64")), "(-2) ** 64");
    assert_eq!(invalid_expression_text(eval("9223372036854775807 + 1")), "9223372036854775807 + 1");
    assert_eq!(invalid_expression_text(eval("3037000500 * 3037000500")), "3037000500 * 3037000500");
    assert_eq!(invalid_expression_text(eval("7 % 0")), "7 % 0");
    assert_eq!(invalid_expression_text(eval("9223372036854775808")), "9223372036854775808");
    assert_eq!(eval("1 ** 4000000000"), Ok(Value::I64(1)));
    assert_eq!(eval("1 ** 4294967295"), Ok(Value::I64(1)));
    assert_eq!(invalid_expression_text(eval("2 ** 4294967295")), "2 ** 4294967295");
    assert!(matches!(eval("2 ** 4294967296"), Ok(Value::F64(_))));
    assert_eq!(eval("-9223372036854775808"), Ok(Value::I64(i64::MIN)));
    assert_eq!(eval("(-2) ** 63"), eval("-9223372036854775808"));
    let shown = invalid_expression_text(eval("-((-2) ** 63)"));
    assert_eq!(shown, "-(-9223372036854775808)");
    assert_eq!(invalid_expression_text(eval(&shown)), shown);
    assert_eq!(eval("(-1) ** 3"), Ok(Value::I64(-1)));
}

#[test]
fn boolean_coercion_failures() {
    assert_eq!(eval("1 and true"), Err(MathlineError::CannotUseAsBool));
    assert_eq!(eval("true + 1"), Err(MathlineError::CannotUseAsNumber));
    assert_eq!(eval("true < 1"), Err(MathlineError::CannotUseAsNumber));
    assert_eq!(eval("math + 1"), Err(MathlineError::CannotUseAsNumber));
    assert_eq!(eval("not 1"), Err(MathlineError::CannotUseAsBool));
    assert_eq!(eval("not math"), Err(MathlineError::CannotUseAsBool));
    assert_eq!(invalid_expression_text(eval("-true")), "-true");
    assert_eq!(eval("-math"), Err(MathlineError::CannotUseAsNumber));
    assert_eq!(eval("+math"), Err(MathlineError::CannotUseAsNumber));
    assert_eq!(invalid_expression_text(eval("+false")), "+false");
    assert_eq!(eval("not (7 / 2)"), Err(MathlineError::CannotUseAsBool));
}

#[test]
fn booleans_and_comparisons() {
    match eval("1 < 2 and not false") {
        Ok(Value::Bool(e)) => assert_eq!(e.to_string(), "(1 < 2) and (not false)"),
        other => panic!("{other:?}"),
    }
    match eval("true") {
        Ok(Value::Bool(e)) => assert_eq!(e.to_string(), "true"),
        other => panic!("{other:?}"),
    }
}

#[test]
fn constants() {
    assert_eq!(eval("pi"), eval("π"));
    assert_eq!(eval("pi"), eval("PI"));
    assert_eq!(eval("math.pi"), eval("pi"));
    assert_eq!(float("pi"), std::f64::consts::PI);
    assert_eq!(float("tau"), std::f64::consts::TAU);
    assert_eq!(eval("τ"), eval("TAU"));
    assert_eq!(float("e"), std::f64::consts::E);
    assert_eq!(eval("math"), Ok(Value::Module(Module::Math)));
    assert_eq!(eval("math.nonexistent"), Err(MathlineError::UnknownVariable("nonexistent".to_string())));
    assert_eq!(eval("1 . pi"), Err(MathlineError::CannotUseAsModule));
}

#[test]
fn function_arity() {
    assert_eq!(
        eval("sin(1, 2)"),
        Err(MathlineError::InvalidFnParameterLength { name: "sin".to_string(), len: 2 })
    );
    assert_eq!(
        eval("print()"),
        Err(MathlineError::InvalidFnParameterLength { name: "print".to_string(), len: 0 })
    );
    assert!(float("sin(0)").abs() < 1e-12);
    assert!((float("cos(0)") - 1.0).abs() < 1e-12);
    assert!((float("log(1000)") - 3.0).abs() < 1e-12);
    assert!((float("ln(e)") - 1.0).abs() < 1e-12);
    assert_eq!(eval("print(3)"), Ok(Value::I64(3)));
    assert_eq!(eval("sin(true)"), Err(MathlineError::CannotUseAsNumber));
}

#[test]
fn unknown_function_and_variable() {
    assert_eq!(eval("foo(1)"), Err(MathlineError::FunctionIsNotSupported("foo".to_string())));
    assert_eq!(eval("bar"), Err(MathlineError::UnknownVariable("bar".to_string())));
    assert_eq!(eval("foo(bar)"), Err(MathlineError::UnknownVariable("bar".to_string())));
}

#[test]
fn round_trip() {
    let inputs = [
        "1 + 2 * 3",
        "(1 + 2) * 3",
        "2 ^ 3 ^ 2",
        "-(-3) + +4",
        "not true or false and 1 <= 2",
        "sin(pi / 2) * cos(0, 1)",
        "f()",
        "math.pi ** 2",
        "3.25 - 0.05 % 2",
        "x² ≥ 1 ≠ (2 ≤ 3)",
        "7 / 2 == 3.5",
        "3.0 * 3. - 2 ^ 3 * 4",
        "-9223372036854775808 + not x",
    ];
    for input in inputs {
        let e = one(input);
        let again = one(&e.to_string());
        assert_eq!(again, e, "{input:?}");
        assert_eq!(Evaluator::new(again).eval(), Evaluator::new(e).eval(), "{input:?}");
    }
}

#[test]
fn whitespace_insensitive() {
    let a = one("1+2");
    assert_eq!(one("1 + 2"), a);
    assert_eq!(one("1\n+\n2"), a);
    assert_eq!(Evaluator::new(a).eval(), Ok(Value::I64(3)));
    assert_eq!(eval("1\t*\t(2\n+3)"), Ok(Value::I64(5)));
}

#[test]
fn parse_errors() {
    assert_eq!(parse("(1 + 2"), Err(MathlineError::InvalidEOF));
    assert_eq!(parse("(1 + 2 3"), Err(MathlineError::InvalidSyntax));
    assert_eq!(parse("1 +"), Err(MathlineError::InvalidEOF));
    assert_eq!(parse("f(1"), Err(MathlineError::InvalidEOF));
    assert_eq!(parse("f(1 2)"), Err(MathlineError::InvalidSyntax));
    assert_eq!(parse("* 3"), Err(MathlineError::InvalidSyntax));
    assert_eq!(parse("1 not 2"), Err(MathlineError::InvalidSyntax));
    assert_eq!(parse(")"), Err(MathlineError::InvalidSyntax));
    assert_eq!(parse("1 + $"), Err(MathlineError::InvalidChar('$')));
}

#[test]
fn parser_yields_expressions_in_turn() {
    let mut parser = Parser::new("1 2\n3 + 4");
    assert_eq!(parser.next().unwrap().unwrap().to_string(), "1");
    assert_eq!(parser.next().unwrap().unwrap().to_string(), "2");
    assert_eq!(parser.next().unwrap().unwrap().to_string(), "3 + 4");
    assert_eq!(parser.next(), Ok(None));
    assert_eq!(parse("").unwrap().len(), 0);
}

#[test]
fn call_arguments() {
    let e = one("max(1, 2 + 3, x)");
    match &e {
        Expression::Fn(f) => {
            assert_eq!(f.name, "max");
            assert_eq!(f.parameters.len(), 3);
        },
        other => panic!("{other:?}"),
    }
    assert_eq!(e.to_string(), "max(1, 2 + 3, x)");
}
