use lisp_parser::{evaluate, parse, render, Environment, Fraction, Primitive};

fn eval_and_render(line: &str) -> String {
    let mut env = Environment::new();
    let ast = parse(line).expect("parse");
    let v = evaluate(&ast, &mut env).expect("evaluate");
    render(&v)
}

#[test]
fn literal_round_trip() {
    // Rendering what a literal evaluates to reproduces the value.
    assert_eq!(eval_and_render("5"), "5");
    assert_eq!(eval_and_render("1.5"), "1.5");
    assert_eq!(eval_and_render("'hi'"), "'hi'");
    assert_eq!(eval_and_render("0"), "0");
}

#[test]
fn negative_numbers_render_with_minus() {
    assert_eq!(eval_and_render("_3"), "-3");
    assert_eq!(eval_and_render("_1.5"), "-1.5");
}

#[test]
fn trailing_zeros_drop() {
    assert_eq!(eval_and_render("1.50"), "1.5");
    assert_eq!(eval_and_render("2.0"), "2");
    assert_eq!(eval_and_render("0.0"), "0");
}

#[test]
fn computed_fractions_render_in_shortest_decimal_form() {
    // 0.5 + 0.5 is held as 100/100 and renders as 1.
    assert_eq!(eval_and_render("+ 0.5 0.5"), "1");
    assert_eq!(eval_and_render("+ 0.25 0.5"), "0.75");
}

#[test]
fn inexact_fractions_render_as_fractions() {
    // 1.0 / 3.0 has no finite decimal form.
    assert_eq!(eval_and_render("/ 1.0 3.0"), "100/300");
}

#[test]
fn vectors_render_bracketed() {
    assert_eq!(eval_and_render("/ 'a,b' ','"), "['a', 'b']");
    let v = Primitive::Vector(vec![
        Primitive::Integer(1),
        Primitive::Vector(vec![Primitive::Integer(2), Primitive::Integer(3)]),
    ]);
    assert_eq!(render(&v), "[1, [2, 3]]");
    assert_eq!(render(&Primitive::Vector(Vec::new())), "[]");
}

#[test]
fn fraction_renders_exactly() {
    assert_eq!(render(&Primitive::DoublePrecisionFloat(Fraction { num: 1, den: 8 })), "0.125");
    assert_eq!(render(&Primitive::DoublePrecisionFloat(Fraction { num: -3, den: 2 })), "-1.5");
    assert_eq!(render(&Primitive::DoublePrecisionFloat(Fraction { num: 1, den: 7 })), "1/7");
}

#[test]
fn extreme_integers_render() {
    assert_eq!(render(&Primitive::Integer(i64::MAX)), "9223372036854775807");
    assert_eq!(render(&Primitive::Integer(i64::MIN)), "-9223372036854775808");
}

#[test]
fn rendered_numbers_parse_and_evaluate_back() {
    let mut env = Environment::new();
    for n in [0i64, 7, 42, 1000, -5, -9001] {
        let text = render(&Primitive::Integer(n));
        let ast = parse(&text).expect("rendered number parses");
        let v = evaluate(&ast, &mut env).expect("rendered number evaluates");
        assert_eq!(v, Primitive::Integer(n));
    }
}

#[test]
fn decimal_round_trip() {
    assert_eq!(eval_and_render("0.125"), "0.125");
    assert_eq!(eval_and_render("_0.5"), "-0.5");
    assert_eq!(eval_and_render("10.01"), "10.01");
}
