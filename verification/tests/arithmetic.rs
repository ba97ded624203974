use lisp_parser::{
    add, divide, multiply, subtract, ArithmeticError, Fraction, OperationError, Primitive,
};

fn whole(n: i64) -> Primitive {
    Primitive::Integer(n)
}

fn frac(num: i64, den: i64) -> Primitive {
    Primitive::DoublePrecisionFloat(Fraction { num, den })
}

fn text(s: &str) -> Primitive {
    Primitive::Str(String::from(s))
}

fn vector(vs: Vec<Primitive>) -> Primitive {
    Primitive::Vector(vs)
}

#[test]
fn integer_arithmetic() {
    assert_eq!(add(&whole(2), &whole(3)), Ok(whole(5)));
    assert_eq!(subtract(&whole(2), &whole(3)), Ok(whole(-1)));
    assert_eq!(multiply(&whole(4), &whole(3)), Ok(whole(12)));
    assert_eq!(divide(&whole(7), &whole(2)), Ok(whole(3)));
    assert_eq!(divide(&whole(-7), &whole(2)), Ok(whole(-3)));
}

#[test]
fn integer_arithmetic_wraps() {
    assert_eq!(add(&whole(i64::MAX), &whole(1)), Ok(whole(i64::MIN)));
    assert_eq!(divide(&whole(i64::MIN), &whole(-1)), Ok(whole(i64::MIN)));
}

#[test]
fn division_by_integer_zero() {
    let err = Err(OperationError { kind: ArithmeticError::DivideByZero });
    assert_eq!(divide(&whole(5), &whole(0)), err);
    assert_eq!(divide(&frac(1, 2), &whole(0)), err);
    assert_eq!(divide(&whole(5), &frac(0, 1)), err);
    assert_eq!(divide(&frac(1, 2), &frac(0, 1)), err);
}

#[test]
fn fraction_arithmetic_is_exact() {
    // 0.5 + 0.25 = 0.75, held as 75/100 over the common denominator.
    assert_eq!(add(&frac(5, 10), &frac(25, 100)), Ok(frac(750, 1000)));
    // 1.5 * 1.5 = 2.25.
    assert_eq!(multiply(&frac(15, 10), &frac(15, 10)), Ok(frac(225, 100)));
    // 3.0 / 2.0 = 3/2 (denominators stay positive).
    assert_eq!(divide(&frac(30, 10), &frac(20, 10)), Ok(frac(300, 200)));
    // A whole operand promotes: 1 + 0.5 = 1.5.
    assert_eq!(add(&whole(1), &frac(5, 10)), Ok(frac(15, 10)));
}

#[test]
fn fraction_zero_is_canonical() {
    // 0.5 - 0.5 is the canonical zero 0/1.
    assert_eq!(subtract(&frac(5, 10), &frac(5, 10)), Ok(frac(0, 1)));
}

#[test]
fn fraction_overflow_is_reported() {
    let big = frac(40000000005, 10);
    assert_eq!(
        multiply(&big, &big),
        Err(OperationError { kind: ArithmeticError::Overflow })
    );
}

#[test]
fn text_concatenation() {
    assert_eq!(add(&text("ab"), &text("cd")), Ok(text("abcd")));
    assert_eq!(add(&whole(5), &text("x")), Ok(text("5x")));
    assert_eq!(add(&text("x"), &whole(5)), Ok(text("x5")));
    assert_eq!(add(&frac(15, 10), &text("x")), Ok(text("1.5x")));
}

#[test]
fn text_subtraction_removes_occurrences() {
    assert_eq!(subtract(&text("banana"), &text("an")), Ok(text("ba")));
    assert_eq!(subtract(&text("a1b1"), &whole(1)), Ok(text("ab")));
    assert_eq!(subtract(&whole(123), &text("2")), Ok(text("13")));
}

#[test]
fn text_multiplication() {
    // A whole count repeats the text.
    assert_eq!(multiply(&whole(3), &text("ab")), Ok(text("ababab")));
    assert_eq!(multiply(&text("ab"), &whole(3)), Ok(text("ababab")));
    // Text by text interleaves, the longer one's surplus at the end.
    assert_eq!(multiply(&text("abc"), &text("xy")), Ok(text("axbyc")));
    // A fractional count keeps that fraction of the repeated text:
    // 1.5 times "ab" is three characters of "abab".
    assert_eq!(multiply(&frac(15, 10), &text("ab")), Ok(text("aba")));
}

#[test]
fn text_division_truncates() {
    // A whole divisor keeps len/n characters.
    assert_eq!(divide(&whole(2), &text("abcdef")), Ok(text("abc")));
    assert_eq!(divide(&text("abcdef"), &whole(2)), Ok(text("abc")));
    // A fractional divisor rounds the kept length up: 6 / 4.0 -> 2.
    assert_eq!(divide(&text("abcdef"), &frac(40, 10)), Ok(text("ab")));
}

#[test]
fn text_division_by_text_splits() {
    assert_eq!(
        divide(&text("a,b,c"), &text(",")),
        Ok(vector(vec![text("a"), text("b"), text("c")]))
    );
    assert_eq!(
        divide(&text("ab"), &text(",")),
        Ok(vector(vec![text("ab")]))
    );
    // An empty separator isolates every character.
    assert_eq!(
        divide(&text("ab"), &text("")),
        Ok(vector(vec![text(""), text("a"), text("b"), text("")]))
    );
}

#[test]
fn vector_broadcast_keeps_longer_tail() {
    // [1,2,3] + [10,20] combines the shorter prefix and passes the
    // longer vector's tail through unchanged.
    let a = vector(vec![whole(1), whole(2), whole(3)]);
    let b = vector(vec![whole(10), whole(20)]);
    assert_eq!(add(&a, &b), Ok(vector(vec![whole(11), whole(22), whole(3)])));
    let c = vector(vec![whole(1), whole(2), whole(3)]);
    let d = vector(vec![whole(10), whole(20)]);
    assert_eq!(add(&d, &c), Ok(vector(vec![whole(11), whole(22), whole(3)])));
}

#[test]
fn vector_subtraction_is_direction_sensitive() {
    let a = vector(vec![whole(5), whole(5)]);
    let b = vector(vec![whole(1)]);
    assert_eq!(subtract(&a, &b), Ok(vector(vec![whole(4), whole(5)])));
    let a2 = vector(vec![whole(5), whole(5)]);
    let b2 = vector(vec![whole(1)]);
    assert_eq!(subtract(&b2, &a2), Ok(vector(vec![whole(-4), whole(5)])));
}

#[test]
fn scalar_broadcasts_over_vector() {
    let v = vector(vec![whole(1), whole(2)]);
    assert_eq!(add(&whole(10), &v), Ok(vector(vec![whole(11), whole(12)])));
    let v2 = vector(vec![whole(1), whole(2)]);
    assert_eq!(subtract(&whole(10), &v2), Ok(vector(vec![whole(9), whole(8)])));
    let v3 = vector(vec![whole(1), whole(2)]);
    assert_eq!(subtract(&v3, &whole(10)), Ok(vector(vec![whole(-9), whole(-8)])));
}

#[test]
fn vector_element_error_aborts() {
    let a = vector(vec![whole(1), whole(2)]);
    let b = vector(vec![whole(1), whole(0)]);
    assert_eq!(
        divide(&a, &b),
        Err(OperationError { kind: ArithmeticError::DivideByZero })
    );
}
