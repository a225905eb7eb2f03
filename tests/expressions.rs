use calconsteroids::expression::{
    AdditionExpression, DivisionExpression, EvaluationError, Expression, MultiplicationExpression,
    SubtractionExpression, ValueExpression, VariableMap,
};
use calconsteroids::parse::{parse_pairs, ParseNode, Rule, StructuralError};
use calconsteroids::rational::{RationalValue, Sign};
use calconsteroids::value::Value;
use num::BigUint;
use std::cmp::Ordering;

fn lit(sign: Sign, numerator: u32, denominator: u32) -> Expression {
    Expression::Value(ValueExpression::new(Value::Rational(RationalValue::new(
        sign,
        BigUint::from(numerator),
        BigUint::from(denominator),
    ))))
}

fn var(name: &str) -> Expression {
    Expression::Variable(name.to_string())
}

fn leaf(rule: Rule, text: &str) -> ParseNode {
    ParseNode { rule, text: text.to_string(), children: Vec::new() }
}

fn node(rule: Rule, children: Vec<ParseNode>) -> ParseNode {
    ParseNode { rule, text: String::new(), children }
}

fn bindings(pairs: &[(&str, i64)]) -> VariableMap {
    let mut map = VariableMap::new();
    for (name, v) in pairs {
        map.insert(name.to_string(), Value::from_integer(*v));
    }
    map
}

#[test]
fn simplify_folds_literal_addition() {
    let e = Expression::Addition(AdditionExpression::new(
        Box::new(lit(Sign::Positive, 1, 2)),
        Box::new(lit(Sign::Positive, 1, 3)),
    ));
    match e.simplified() {
        Expression::Value(v) => {
            let expected = Value::Rational(RationalValue::new(Sign::Positive, BigUint::from(5u32), BigUint::from(6u32)));
            assert_eq!(v.get_value().cmp(&expected), Some(Ordering::Equal));
            assert_eq!(v.get_value().to_string(), "5/6");
        }
        other => panic!("not folded: {}", other.to_string()),
    }
}

#[test]
fn simplify_keeps_variables_and_unary_nodes() {
    let e = Expression::Addition(AdditionExpression::new(
        Box::new(var("x")),
        Box::new(Expression::Subtraction(SubtractionExpression::new(
            Box::new(lit(Sign::Positive, 5, 1)),
            Box::new(lit(Sign::Positive, 2, 1)),
        ))),
    ));
    assert_eq!(e.simplified().to_string(), "(x + 3)");
    let n = Expression::Negation(Box::new(Expression::Division(DivisionExpression::new(
        Box::new(lit(Sign::Positive, 4, 1)),
        Box::new(lit(Sign::Positive, 6, 1)),
    ))));
    let once = n.simplified();
    assert_eq!(once.to_string(), "-(2/3)");
    assert!(matches!(once, Expression::Negation(_)));
    let mut f = Expression::Factorial(Box::new(lit(Sign::Positive, 3, 1)));
    f.simplify();
    assert_eq!(f.to_string(), "(3)!");
}

#[test]
fn evaluate_reduces_fully() {
    let e = Expression::Negation(Box::new(Expression::Factorial(Box::new(var("n")))));
    let v = e.evaluate(&bindings(&[("n", 4)])).ok().unwrap();
    assert_eq!(v.to_string(), "-24");
}

#[test]
fn evaluate_equation_fails() {
    let e = Expression::Equals(Box::new(var("x")), Box::new(lit(Sign::Positive, 1, 1)));
    assert!(matches!(e.evaluate(&bindings(&[("x", 1)])), Err(EvaluationError::CantEvaluateVariant)));
    let inner = Expression::Addition(AdditionExpression::new(
        Box::new(lit(Sign::Positive, 1, 1)),
        Box::new(Expression::Equals(Box::new(var("a")), Box::new(var("b")))),
    ));
    assert!(matches!(inner.evaluate(&VariableMap::new()), Err(EvaluationError::CantEvaluateVariant)));
}

#[test]
fn unbound_variable_is_undefined() {
    let e = Expression::Multiplication(MultiplicationExpression::new(
        Box::new(lit(Sign::Positive, 2, 1)),
        Box::new(var("z")),
    ));
    let v = e.evaluate(&bindings(&[("x", 3)])).ok().unwrap();
    assert!(v.is_undefined());
    assert!(var("q").evaluate(&VariableMap::new()).ok().unwrap().is_undefined());
}

#[test]
fn later_binding_replaces_earlier() {
    let mut map = bindings(&[("x", 3)]);
    map.insert("x".to_string(), Value::from_integer(9));
    assert_eq!(var("x").evaluate(&map).ok().unwrap().to_string(), "9");
    assert!(map.get(&"y".to_string()).is_none());
}

#[test]
fn render_multiplication_forms() {
    let m = |a: Expression, b: Expression| {
        Expression::Multiplication(MultiplicationExpression::new(Box::new(a), Box::new(b)))
    };
    assert_eq!(m(lit(Sign::Positive, 2, 1), var("x")).to_string(), "2x");
    assert_eq!(m(var("x"), var("y")).to_string(), "xy");
    assert_eq!(m(lit(Sign::Positive, 2, 1), m(var("x"), var("y"))).to_string(), "2xy");
    assert_eq!(m(var("x"), lit(Sign::Positive, 2, 1)).to_string(), "(x * 2)");
    let eq = Expression::Equals(Box::new(var("x")), Box::new(lit(Sign::Negative, 1, 2)));
    assert_eq!(eq.to_string(), "(x = -1/2)");
    let d = Expression::Division(DivisionExpression::new(Box::new(var("a")), Box::new(var("b"))));
    assert_eq!(d.to_string(), "(a / b)");
}

#[test]
fn implicit_multiplication_evaluates() {
    // "2xy"
    let tree = vec![node(
        Rule::Expression,
        vec![node(
            Rule::ImplicitMultiplication,
            vec![leaf(Rule::Number, "2"), leaf(Rule::Variable, "x"), leaf(Rule::Variable, "y")],
        )],
    )];
    let e = parse_pairs(&tree).ok().unwrap();
    assert_eq!(e.to_string(), "2xy");
    let v = e.evaluate(&bindings(&[("x", 3), ("y", 4)])).ok().unwrap();
    assert_eq!(v.cmp(&Value::from_integer(24)), Some(Ordering::Equal));
}

#[test]
fn parse_simplify_render_round_trip() {
    // "(2+3)*4"
    let tree = vec![node(
        Rule::Expression,
        vec![
            node(
                Rule::ParenExpression,
                vec![node(
                    Rule::Expression,
                    vec![leaf(Rule::Number, "2"), leaf(Rule::Plus, "+"), leaf(Rule::Number, "3")],
                )],
            ),
            leaf(Rule::Asterisk, "*"),
            leaf(Rule::Number, "4"),
        ],
    )];
    let e = parse_pairs(&tree).ok().unwrap();
    assert_eq!(e.to_string(), "(5 * 4)".replace("5", "(2 + 3)"));
    assert_eq!(e.simplified().to_string(), "20");
}

#[test]
fn precedence_and_associativity() {
    let seq = |nodes: Vec<ParseNode>| parse_pairs(&vec![node(Rule::Expression, nodes)]).ok().unwrap();
    let n = |t: &str| leaf(Rule::Number, t);
    // 1 - 2 - 3 associates to the left
    let e = seq(vec![n("1"), leaf(Rule::Minus, "-"), n("2"), leaf(Rule::Minus, "-"), n("3")]);
    assert_eq!(e.to_string(), "((1 - 2) - 3)");
    assert_eq!(e.simplified().to_string(), "-4");
    // 2 + 3 * 4
    let e = seq(vec![n("2"), leaf(Rule::Plus, "+"), n("3"), leaf(Rule::Cdot, "\\cdot"), n("4")]);
    assert_eq!(e.simplified().to_string(), "14");
    // 8 / 2 / 2
    let e = seq(vec![n("8"), leaf(Rule::Slash, "/"), n("2"), leaf(Rule::Slash, "/"), n("2")]);
    assert_eq!(e.simplified().to_string(), "2");
    // -2 * 3! binds as (-(2)) * ((3)!)
    let e = seq(vec![
        leaf(Rule::Negate, "-"),
        n("2"),
        leaf(Rule::Asterisk, "*"),
        n("3"),
        leaf(Rule::Factorial, "!"),
    ]);
    assert_eq!(e.to_string(), "(-(2) * (3)!)");
    assert_eq!(e.evaluate(&VariableMap::new()).ok().unwrap().to_string(), "-12");
    // -3! is -(3!)
    let e = seq(vec![leaf(Rule::Negate, "-"), n("3"), leaf(Rule::Factorial, "!")]);
    assert_eq!(e.to_string(), "-((3)!)");
}

#[test]
fn parse_decimal_number() {
    let e = parse_pairs(&vec![node(Rule::Expression, vec![leaf(Rule::Number, "1.05")])]).ok().unwrap();
    assert_eq!(e.to_string(), "21/20");
}

#[test]
fn structural_failures() {
    let carat = vec![node(
        Rule::Expression,
        vec![leaf(Rule::Number, "2"), leaf(Rule::Carat, "^"), leaf(Rule::Number, "3")],
    )];
    assert!(matches!(parse_pairs(&carat), Err(StructuralError::MissingOperator)));
    let stray = vec![leaf(Rule::Carat, "^")];
    assert!(matches!(parse_pairs(&stray), Err(StructuralError::UnexpectedRule(Rule::Carat))));
    assert!(matches!(parse_pairs(&Vec::new()), Err(StructuralError::MissingOperand)));
    let dangling = vec![node(Rule::Expression, vec![leaf(Rule::Number, "2"), leaf(Rule::Plus, "+")])];
    assert!(matches!(parse_pairs(&dangling), Err(StructuralError::MissingOperand)));
    let bad = vec![leaf(Rule::Number, "1.2.3")];
    assert!(matches!(parse_pairs(&bad), Err(StructuralError::BadNumber)));
    let side_by_side = vec![leaf(Rule::Number, "1"), leaf(Rule::Number, "2")];
    assert!(matches!(parse_pairs(&side_by_side), Err(StructuralError::MissingOperator)));
}

#[test]
fn nesting_beyond_the_limit_fails() {
    let mut tree = leaf(Rule::Number, "1");
    for _ in 0..300 {
        tree = node(Rule::ParenExpression, vec![tree]);
    }
    assert!(matches!(parse_pairs(&vec![tree]), Err(StructuralError::TooDeep)));
    let mut shallow = leaf(Rule::Number, "1");
    for _ in 0..100 {
        shallow = node(Rule::ParenExpression, vec![shallow]);
    }
    assert!(parse_pairs(&vec![shallow]).is_ok());
}
