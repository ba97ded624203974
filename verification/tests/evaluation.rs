use lisp_parser::{
    evaluate, parse, ArithmeticError, Environment, EvalError, Fraction, MonadicVerb, Primitive,
};

fn run(line: &str, env: &mut Environment) -> Result<Primitive, EvalError> {
    let ast = parse(line).expect("parse");
    evaluate(&ast, env)
}

#[test]
fn end_to_end_scenario() {
    // `+ 5 (* 2 2)` evaluates to 9.
    let mut env = Environment::new();
    assert_eq!(run("+ 5 (* 2 2)", &mut env), Ok(Primitive::Integer(9)));
}

#[test]
fn literal_evaluates_to_itself() {
    let mut env = Environment::new();
    assert_eq!(run("5", &mut env), Ok(Primitive::Integer(5)));
    assert_eq!(
        run("1.5", &mut env),
        Ok(Primitive::DoublePrecisionFloat(Fraction { num: 15, den: 10 }))
    );
    assert_eq!(run("'hi'", &mut env), Ok(Primitive::Str(String::from("hi"))));
}

#[test]
fn assignment_persists_across_lookups() {
    let mut env = Environment::new();
    assert_eq!(run("m := 5", &mut env), Ok(Primitive::Integer(5)));
    assert_eq!(run("m", &mut env), Ok(Primitive::Integer(5)));
}

#[test]
fn assignment_overwrites() {
    let mut env = Environment::new();
    run("m := 5", &mut env).unwrap();
    run("m := 7", &mut env).unwrap();
    assert_eq!(run("m", &mut env), Ok(Primitive::Integer(7)));
}

#[test]
fn undefined_variable_lookup() {
    let mut env = Environment::new();
    assert_eq!(
        run("undefinedName", &mut env),
        Err(EvalError::UndefinedVariable(String::from("undefinedName")))
    );
}

#[test]
fn division_by_zero_is_reported() {
    let mut env = Environment::new();
    assert_eq!(
        run("/ 5 0", &mut env),
        Err(EvalError::Arithmetic(ArithmeticError::DivideByZero))
    );
}

#[test]
fn overflow_is_reported() {
    let mut env = Environment::new();
    assert_eq!(
        run("* 4000000000.5 4000000000.5", &mut env),
        Err(EvalError::Arithmetic(ArithmeticError::Overflow))
    );
}

#[test]
fn unsupported_operator_is_reported() {
    let mut env = Environment::new();
    assert_eq!(
        run("> 5", &mut env),
        Err(EvalError::UnsupportedOperator(MonadicVerb::GreaterThan))
    );
}

#[test]
fn empty_line_has_nothing_to_evaluate() {
    let mut env = Environment::new();
    assert_eq!(run("", &mut env), Err(EvalError::EmptyExpression));
}

#[test]
fn juxtaposed_terms_fold_with_add() {
    let mut env = Environment::new();
    assert_eq!(run("1 2 3", &mut env), Ok(Primitive::Integer(6)));
}

#[test]
fn single_operand_applies_identity_on_the_left() {
    let mut env = Environment::new();
    assert_eq!(run("- 5", &mut env), Ok(Primitive::Integer(-5)));
    assert_eq!(run("+ 5", &mut env), Ok(Primitive::Integer(5)));
    assert_eq!(run("* 5", &mut env), Ok(Primitive::Integer(5)));
    assert_eq!(run("/ 5", &mut env), Ok(Primitive::Integer(0)));
}

#[test]
fn subtraction_folds_left_to_right() {
    let mut env = Environment::new();
    assert_eq!(run("- 10 3 2", &mut env), Ok(Primitive::Integer(5)));
}

#[test]
fn variables_combine() {
    let mut env = Environment::new();
    run("a := 2", &mut env).unwrap();
    run("b := 3", &mut env).unwrap();
    assert_eq!(run("+ a b", &mut env), Ok(Primitive::Integer(5)));
}

#[test]
fn tally_counts_vector_elements() {
    let mut env = Environment::new();
    run("parts := / 'a,b' ','", &mut env).unwrap();
    assert_eq!(run("# parts", &mut env), Ok(Primitive::Integer(2)));
    assert_eq!(run("# 5", &mut env), Ok(Primitive::Integer(1)));
}

#[test]
fn completed_assignments_survive_a_later_error() {
    let mut env = Environment::new();
    let r = run("(a := 1) undefinedZ", &mut env);
    assert_eq!(
        r,
        Err(EvalError::UndefinedVariable(String::from("undefinedZ")))
    );
    assert_eq!(run("a", &mut env), Ok(Primitive::Integer(1)));
}

#[test]
fn failed_assignment_binds_nothing() {
    let mut env = Environment::new();
    let r = run("a := undefinedZ", &mut env);
    assert_eq!(
        r,
        Err(EvalError::UndefinedVariable(String::from("undefinedZ")))
    );
    assert_eq!(
        run("a", &mut env),
        Err(EvalError::UndefinedVariable(String::from("a")))
    );
}

#[test]
fn multiple_expressions_give_the_last_value() {
    let mut env = Environment::new();
    assert_eq!(run("(a := 1) (b := 2) + a b", &mut env), Ok(Primitive::Integer(3)));
}

#[test]
fn string_division_by_evaluation() {
    let mut env = Environment::new();
    assert_eq!(
        run("/ 'a,b' ','", &mut env),
        Ok(Primitive::Vector(vec![
            Primitive::Str(String::from("a")),
            Primitive::Str(String::from("b")),
        ]))
    );
}
