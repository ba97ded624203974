//! The grammar and its recursive-descent parser.
//!
//! ```text
//! lisp        := {expr}
//! expr        := assignment | monadicExpr | terms
//! assignment  := identifier ":=" expr
//! monadicExpr := operator expr
//! terms       := term {term}
//! term        := value | identifier | "(" expr ")"
//! value       := integer | decimal | string
//! integer     := ["_"] digit+
//! decimal     := ["_"] digit+ "." digit+
//! string      := "'" {char | "''"} "'"
//! ```
//!
//! A leading underscore is the negative sign (the minus sign is the
//! subtraction operator); `''` inside a string is an escaped quote; a
//! `terms` list of one element collapses to that element.
//!
//! The specification functions below define the parse; the executable
//! functions mirror them. A few branches of the specification return
//! an error where a position moved backwards; positions only move
//! forward, so those branches are unreachable, but writing them makes
//! the termination of the specification self-evident.

use vstd::prelude::*;

use crate::ast::{ast_wf, seq_ast_wf, AstNode, AstV, MonadicVerb};
use crate::errors::ParseError;
use crate::fraction::Fraction;
use crate::render::{digits_of, pow10, spec_render};
use crate::value::{PrimV, Primitive};

verus! {

broadcast use vstd::seq::axiom_seq_index_decreases, vstd::seq::axiom_seq_subrange_decreases, vstd::std_specs::vec::axiom_vec_index_decreases;

pub open spec fn is_ws(c: char) -> bool {
    c == ' ' || c == '\t' || c == '\r' || c == '\n'
}

pub open spec fn is_digit(c: char) -> bool {
    48 <= c as int <= 57
}

pub open spec fn is_alpha(c: char) -> bool {
    (65 <= c as int <= 90) || (97 <= c as int <= 122)
}

pub open spec fn is_ident_char(c: char) -> bool {
    is_alpha(c) || is_digit(c)
}

pub open spec fn is_op_start(c: char) -> bool {
    c == '>' || c == '<' || c == '*' || c == '-' || c == '+' || c == '/' || c == '#' || c == '='
        || c == '!' || c == '^' || c == '|' || c == '&'
}

/// The numeric value of a digit character.
pub open spec fn char_val(c: char) -> int {
    c as int - 48
}

/// The first position at or after `pos` that is not whitespace.
pub open spec fn skip_ws(s: Seq<char>, pos: int) -> int
    decreases s.len() - pos,
{
    if 0 <= pos < s.len() && is_ws(s[pos]) {
        skip_ws(s, pos + 1)
    } else {
        pos
    }
}

/// The first position at or after `pos` that is not a digit.
pub open spec fn digits_end(s: Seq<char>, pos: int) -> int
    decreases s.len() - pos,
{
    if 0 <= pos < s.len() && is_digit(s[pos]) {
        digits_end(s, pos + 1)
    } else {
        pos
    }
}

/// The first position at or after `pos` that cannot continue an
/// identifier.
pub open spec fn ident_end(s: Seq<char>, pos: int) -> int
    decreases s.len() - pos,
{
    if 0 <= pos < s.len() && is_ident_char(s[pos]) {
        ident_end(s, pos + 1)
    } else {
        pos
    }
}

/// The number a digit string denotes.
pub open spec fn digits_val(s: Seq<char>) -> int
    decreases s.len(),
{
    if s.len() == 0 {
        0
    } else {
        digits_val(s.subrange(0, s.len() - 1)) * 10 + char_val(s[s.len() - 1])
    }
}

/// Whether an assignment's `name :=` starts at `pos`.
pub open spec fn assign_ahead(s: Seq<char>, pos: int) -> bool {
    let e = ident_end(s, pos);
    let q = skip_ws(s, e);
    0 <= q && q + 1 < s.len() && s[q] == ':' && s[q + 1] == '='
}

/// Whether a term (value, identifier or parenthesis) starts at `pos`.
pub open spec fn term_start(s: Seq<char>, pos: int) -> bool {
    0 <= pos < s.len() && (is_digit(s[pos]) || s[pos] == '_' || s[pos] == '\'' || s[pos] == '('
        || is_alpha(s[pos]))
}

/// The operator token at `pos`: the verb and the position after it.
pub open spec fn parse_operator(s: Seq<char>, pos: int) -> Result<(MonadicVerb, int), ParseError> {
    if !(0 <= pos < s.len()) {
        Err(ParseError::UnexpectedToken)
    } else {
        let c = s[pos];
        let two = pos + 1 < s.len();
        if c == '>' {
            if two && s[pos + 1] == '=' {
                Ok((MonadicVerb::GreaterThanEqual, pos + 2))
            } else {
                Ok((MonadicVerb::GreaterThan, pos + 1))
            }
        } else if c == '<' {
            if two && s[pos + 1] == '=' {
                Ok((MonadicVerb::LessThanEqual, pos + 2))
            } else {
                Ok((MonadicVerb::LessThan, pos + 1))
            }
        } else if c == '=' {
            if two && s[pos + 1] == '=' {
                Ok((MonadicVerb::Equivalency, pos + 2))
            } else {
                Err(ParseError::UnexpectedToken)
            }
        } else if c == '!' {
            if two && s[pos + 1] == '=' {
                Ok((MonadicVerb::NotEquivalent, pos + 2))
            } else {
                Err(ParseError::UnexpectedToken)
            }
        } else if c == '*' {
            Ok((MonadicVerb::Multiplication, pos + 1))
        } else if c == '-' {
            Ok((MonadicVerb::Difference, pos + 1))
        } else if c == '+' {
            Ok((MonadicVerb::Addition, pos + 1))
        } else if c == '/' {
            Ok((MonadicVerb::Division, pos + 1))
        } else if c == '#' {
            Ok((MonadicVerb::Tally, pos + 1))
        } else if c == '^' {
            Ok((MonadicVerb::Power, pos + 1))
        } else if c == '|' {
            Ok((MonadicVerb::Or, pos + 1))
        } else if c == '&' {
            Ok((MonadicVerb::And, pos + 1))
        } else {
            Err(ParseError::UnexpectedToken)
        }
    }
}

/// The body of a string literal, from just after the opening quote:
/// the decoded content (with `''` read as one quote) and the position
/// after the closing quote.
pub open spec fn parse_string_body(s: Seq<char>, pos: int) -> Result<(Seq<char>, int), ParseError>
    decreases s.len() - pos,
{
    if !(0 <= pos < s.len()) {
        Err(ParseError::UnterminatedString)
    } else if s[pos] != '\'' {
        match parse_string_body(s, pos + 1) {
            Ok((content, end)) => Ok((seq![s[pos]] + content, end)),
            Err(e) => Err(e),
        }
    } else if pos + 1 < s.len() && s[pos + 1] == '\'' {
        match parse_string_body(s, pos + 2) {
            Ok((content, end)) => Ok((seq!['\''] + content, end)),
            Err(e) => Err(e),
        }
    } else {
        Ok((Seq::empty(), pos + 1))
    }
}

/// A numeric literal at `pos` (`pos` holds a digit or the `_` sign):
/// the value and the position after it. A magnitude that does not fit
/// the value type is an invalid literal; a negated zero is plain zero.
pub open spec fn parse_number(s: Seq<char>, pos: int) -> Result<(PrimV, int), ParseError> {
    let neg = 0 <= pos < s.len() && s[pos] == '_';
    let p0 = if neg {
        pos + 1
    } else {
        pos
    };
    if !(0 <= p0 < s.len() && is_digit(s[p0])) {
        Err(ParseError::InvalidLiteral)
    } else {
        let e1 = digits_end(s, p0);
        let iv = digits_val(s.subrange(p0, e1));
        if 0 <= e1 < s.len() && s[e1] == '.' {
            if !(e1 + 1 < s.len() && is_digit(s[e1 + 1])) {
                Err(ParseError::InvalidLiteral)
            } else {
                let e2 = digits_end(s, e1 + 1);
                let k = e2 - (e1 + 1);
                let fv = digits_val(s.subrange(e1 + 1, e2));
                if k > 18 {
                    Err(ParseError::InvalidLiteral)
                } else {
                    let den = pow10(k as nat);
                    let mag = iv * den + fv;
                    if mag > i64::MAX {
                        Err(ParseError::InvalidLiteral)
                    } else if mag == 0 {
                        Ok((PrimV::Rat(Fraction { num: 0, den: 1 }), e2))
                    } else {
                        let num = if neg {
                            -mag
                        } else {
                            mag
                        };
                        Ok((PrimV::Rat(Fraction { num: num as i64, den: den as i64 }), e2))
                    }
                }
            }
        } else {
            if iv > i64::MAX {
                Err(ParseError::InvalidLiteral)
            } else {
                let num = if neg {
                    -iv
                } else {
                    iv
                };
                Ok((PrimV::Int(num as i64), e1))
            }
        }
    }
}

/// One expression starting at `pos` (leading whitespace allowed):
/// assignment, operator expression, or terms.
pub open spec fn parse_expr(s: Seq<char>, pos: int) -> Result<(AstV, int), ParseError>
    decreases s.len() - pos, 3int,
{
    let p = skip_ws(s, pos);
    if p < pos || p > s.len() {
        Err(ParseError::UnexpectedToken)
    } else if p == s.len() {
        Err(ParseError::UnexpectedToken)
    } else if is_op_start(s[p]) {
        match parse_operator(s, p) {
            Err(e) => Err(e),
            Ok((verb, p2)) => {
                if p2 <= pos || p2 > s.len() {
                    Err(ParseError::UnexpectedToken)
                } else {
                    match parse_expr(s, p2) {
                        Err(e) => Err(e),
                        Ok((node, p3)) => Ok(
                            (AstV::MonadicOp { operator: verb, expr: Box::new(node) }, p3),
                        ),
                    }
                }
            },
        }
    } else if is_alpha(s[p]) && assign_ahead(s, p) {
        let e = ident_end(s, p);
        let q = skip_ws(s, e);
        if q + 2 <= pos || q + 2 > s.len() || e > s.len() {
            Err(ParseError::UnexpectedToken)
        } else {
            match parse_expr(s, q + 2) {
                Err(e2) => Err(e2),
                Ok((node, p3)) => Ok(
                    (AstV::IsGlobal { ident: s.subrange(p, e), expr: Box::new(node) }, p3),
                ),
            }
        }
    } else if term_start(s, p) {
        parse_terms(s, p)
    } else {
        Err(ParseError::UnexpectedToken)
    }
}

/// A juxtaposed term list starting at `pos` (`pos` holds a term
/// start); a single term stands for itself, two or more become a
/// `Terms` node.
pub open spec fn parse_terms(s: Seq<char>, pos: int) -> Result<(AstV, int), ParseError>
    decreases s.len() - pos, 2int,
{
    match parse_term(s, pos) {
        Err(e) => Err(e),
        Ok((first, p1)) => {
            if p1 <= pos || p1 > s.len() {
                Err(ParseError::UnexpectedToken)
            } else {
                match parse_terms_rest(s, p1, seq![first]) {
                    Err(e) => Err(e),
                    Ok((nodes, p2)) => {
                        if nodes.len() == 1 {
                            Ok((nodes[0], p2))
                        } else {
                            Ok((AstV::Terms(nodes), p2))
                        }
                    },
                }
            }
        },
    }
}

/// The remaining terms of a term list; stops before anything that is
/// not a term, and before an identifier that begins an assignment.
pub open spec fn parse_terms_rest(s: Seq<char>, pos: int, acc: Seq<AstV>) -> Result<
    (Seq<AstV>, int),
    ParseError,
>
    decreases s.len() - pos, 2int,
{
    let p = skip_ws(s, pos);
    if p < pos || p > s.len() {
        Err(ParseError::UnexpectedToken)
    } else if term_start(s, p) && !(is_alpha(s[p]) && assign_ahead(s, p)) {
        match parse_term(s, p) {
            Err(e) => Err(e),
            Ok((node, p2)) => {
                if p2 <= pos || p2 > s.len() {
                    Err(ParseError::UnexpectedToken)
                } else {
                    parse_terms_rest(s, p2, acc.push(node))
                }
            },
        }
    } else {
        Ok((acc, pos))
    }
}

/// One term at `pos`: a literal, an identifier, or a parenthesized
/// expression.
pub open spec fn parse_term(s: Seq<char>, pos: int) -> Result<(AstV, int), ParseError>
    decreases s.len() - pos, 1int,
{
    if !(0 <= pos < s.len()) {
        Err(ParseError::UnexpectedToken)
    } else if is_digit(s[pos]) || s[pos] == '_' {
        match parse_number(s, pos) {
            Err(e) => Err(e),
            Ok((v, p1)) => Ok((AstV::Value(v), p1)),
        }
    } else if s[pos] == '\'' {
        match parse_string_body(s, pos + 1) {
            Err(e) => Err(e),
            Ok((content, p1)) => Ok((AstV::Value(PrimV::Text(content)), p1)),
        }
    } else if is_alpha(s[pos]) {
        let e = ident_end(s, pos);
        if e > s.len() {
            Err(ParseError::UnexpectedToken)
        } else {
            Ok((AstV::Ident(s.subrange(pos, e)), e))
        }
    } else if s[pos] == '(' {
        match parse_expr(s, pos + 1) {
            Err(e) => Err(e),
            Ok((node, p1)) => {
                let q = skip_ws(s, p1);
                if 0 <= q < s.len() && s[q] == ')' {
                    Ok((node, q + 1))
                } else {
                    Err(ParseError::UnexpectedToken)
                }
            },
        }
    } else {
        Err(ParseError::UnexpectedToken)
    }
}

/// A whole line: expressions until the end of the input.
pub open spec fn parse_lisp(s: Seq<char>, pos: int) -> Result<Seq<AstV>, ParseError>
    decreases s.len() - pos, 4int,
{
    let p = skip_ws(s, pos);
    if p < pos || p > s.len() {
        Err(ParseError::UnexpectedToken)
    } else if p == s.len() {
        Ok(Seq::empty())
    } else {
        match parse_expr(s, p) {
            Err(e) => Err(e),
            Ok((node, p1)) => {
                if p1 <= pos || p1 > s.len() {
                    Err(ParseError::UnexpectedToken)
                } else {
                    match parse_lisp(s, p1) {
                        Err(e) => Err(e),
                        Ok(rest) => Ok(seq![node] + rest),
                    }
                }
            },
        }
    }
}

/// What parsing a line of input yields.
pub open spec fn spec_parse(s: Seq<char>) -> Result<Seq<AstV>, ParseError> {
    parse_lisp(s, 0)
}

fn ws_char(c: char) -> (b: bool)
    ensures
        b == is_ws(c),
{
    c == ' ' || c == '\t' || c == '\r' || c == '\n'
}

fn digit_char_at(c: char) -> (b: bool)
    ensures
        b == is_digit(c),
{
    let u = c as u32;
    48 <= u && u <= 57
}

fn alpha_char_at(c: char) -> (b: bool)
    ensures
        b == is_alpha(c),
{
    let u = c as u32;
    (65 <= u && u <= 90) || (97 <= u && u <= 122)
}

fn ident_char_at(c: char) -> (b: bool)
    ensures
        b == is_ident_char(c),
{
    alpha_char_at(c) || digit_char_at(c)
}

fn op_start_at(c: char) -> (b: bool)
    ensures
        b == is_op_start(c),
{
    c == '>' || c == '<' || c == '*' || c == '-' || c == '+' || c == '/' || c == '#' || c == '='
        || c == '!' || c == '^' || c == '|' || c == '&'
}

fn skip_ws_exec(s: &Vec<char>, pos: usize) -> (r: usize)
    requires
        pos <= s@.len(),
    ensures
        r == skip_ws(s@, pos as int),
        pos <= r <= s@.len(),
{
    let mut i = pos;
    while i < s.len() && ws_char(s[i])
        invariant
            pos <= i <= s@.len(),
            skip_ws(s@, pos as int) == skip_ws(s@, i as int),
        decreases s@.len() - i,
    {
        i += 1;
    }
    i
}

fn ident_end_exec(s: &Vec<char>, pos: usize) -> (r: usize)
    requires
        pos <= s@.len(),
    ensures
        r == ident_end(s@, pos as int),
        pos <= r <= s@.len(),
        pos < s@.len() && is_ident_char(s@[pos as int]) ==> r > pos,
{
    let mut i = pos;
    while i < s.len() && ident_char_at(s[i])
        invariant
            pos <= i <= s@.len(),
            ident_end(s@, pos as int) == ident_end(s@, i as int),
        decreases s@.len() - i,
    {
        i += 1;
    }
    i
}

fn assign_ahead_exec(s: &Vec<char>, pos: usize) -> (b: bool)
    requires
        pos <= s@.len(),
    ensures
        b == assign_ahead(s@, pos as int),
{
    let e = ident_end_exec(s, pos);
    let q = skip_ws_exec(s, e);
    q < s.len() && q + 1 < s.len() && s[q] == ':' && s[q + 1] == '='
}

fn parse_operator_exec(s: &Vec<char>, pos: usize) -> (r: Result<(MonadicVerb, usize), ParseError>)
    requires
        pos <= s@.len(),
    ensures
        match r {
            Ok((verb, p)) => parse_operator(s@, pos as int) == Ok::<_, ParseError>(
                (verb, p as int),
            ) && pos < p <= s@.len(),
            Err(e) => parse_operator(s@, pos as int) == Err::<(MonadicVerb, int), _>(e),
        },
{
    if pos >= s.len() {
        return Err(ParseError::UnexpectedToken);
    }
    let c = s[pos];
    let two = pos + 1 < s.len();
    if c == '>' {
        if two && s[pos + 1] == '=' {
            Ok((MonadicVerb::GreaterThanEqual, pos + 2))
        } else {
            Ok((MonadicVerb::GreaterThan, pos + 1))
        }
    } else if c == '<' {
        if two && s[pos + 1] == '=' {
            Ok((MonadicVerb::LessThanEqual, pos + 2))
        } else {
            Ok((MonadicVerb::LessThan, pos + 1))
        }
    } else if c == '=' {
        if two && s[pos + 1] == '=' {
            Ok((MonadicVerb::Equivalency, pos + 2))
        } else {
            Err(ParseError::UnexpectedToken)
        }
    } else if c == '!' {
        if two && s[pos + 1] == '=' {
            Ok((MonadicVerb::NotEquivalent, pos + 2))
        } else {
            Err(ParseError::UnexpectedToken)
        }
    } else if c == '*' {
        Ok((MonadicVerb::Multiplication, pos + 1))
    } else if c == '-' {
        Ok((MonadicVerb::Difference, pos + 1))
    } else if c == '+' {
        Ok((MonadicVerb::Addition, pos + 1))
    } else if c == '/' {
        Ok((MonadicVerb::Division, pos + 1))
    } else if c == '#' {
        Ok((MonadicVerb::Tally, pos + 1))
    } else if c == '^' {
        Ok((MonadicVerb::Power, pos + 1))
    } else if c == '|' {
        Ok((MonadicVerb::Or, pos + 1))
    } else if c == '&' {
        Ok((MonadicVerb::And, pos + 1))
    } else {
        Err(ParseError::UnexpectedToken)
    }
}

fn parse_string_body_exec(s: &Vec<char>, pos: usize) -> (r: Result<
    (Vec<char>, usize),
    ParseError,
>)
    requires
        pos <= s@.len(),
    ensures
        match r {
            Ok((content, p)) => parse_string_body(s@, pos as int) == Ok::<_, ParseError>(
                (content@, p as int),
            ) && pos < p <= s@.len(),
            Err(e) => parse_string_body(s@, pos as int) == Err::<(Seq<char>, int), _>(e),
        },
    decreases s@.len() - pos,
{
    if pos >= s.len() {
        return Err(ParseError::UnterminatedString);
    }
    if s[pos] != '\'' {
        match parse_string_body_exec(s, pos + 1) {
            Err(e) => Err(e),
            Ok((content, end)) => {
                let ghost gc = content@;
                let mut out: Vec<char> = Vec::new();
                out.push(s[pos]);
                let mut cm = content;
                out.append(&mut cm);
                proof {
                    assert(out@ =~= seq![s@[pos as int]] + gc);
                }
                Ok((out, end))
            },
        }
    } else if pos + 1 < s.len() && s[pos + 1] == '\'' {
        match parse_string_body_exec(s, pos + 2) {
            Err(e) => Err(e),
            Ok((content, end)) => {
                let ghost gc = content@;
                let mut out: Vec<char> = Vec::new();
                out.push('\'');
                let mut cm = content;
                out.append(&mut cm);
                proof {
                    assert(out@ =~= seq!['\''] + gc);
                }
                Ok((out, end))
            },
        }
    } else {
        let out: Vec<char> = Vec::new();
        proof {
            assert(out@ =~= Seq::<char>::empty());
        }
        Ok((out, pos + 1))
    }
}

/// Scan a digit run from `lo`: its end, and its value when that fits
/// the value type.
fn scan_digits_val(s: &Vec<char>, lo: usize) -> (r: (usize, Option<u64>))
    requires
        lo <= s@.len(),
    ensures
        r.0 == digits_end(s@, lo as int),
        lo <= r.0 <= s@.len(),
        lo < s@.len() && is_digit(s@[lo as int]) ==> r.0 > lo,
        match r.1 {
            Some(v) => v == digits_val(s@.subrange(lo as int, r.0 as int)) && v <= i64::MAX,
            None => digits_val(s@.subrange(lo as int, r.0 as int)) > i64::MAX,
        },
{
    let mut i = lo;
    let mut acc: u128 = 0;
    let mut big = false;
    while i < s.len() && digit_char_at(s[i])
        invariant
            lo <= i <= s@.len(),
            digits_end(s@, lo as int) == digits_end(s@, i as int),
            !big ==> acc == digits_val(s@.subrange(lo as int, i as int)) && acc <= i64::MAX,
            big ==> digits_val(s@.subrange(lo as int, i as int)) > i64::MAX,
        decreases s@.len() - i,
    {
        let d = (s[i] as u32 - 48) as u128;
        let ghost pre = s@.subrange(lo as int, i as int);
        let ghost cur = s@.subrange(lo as int, i + 1);
        proof {
            assert(cur.subrange(0, cur.len() - 1) =~= pre);
            assert(cur[cur.len() - 1] == s@[i as int]);
        }
        if !big {
            let acc2 = acc * 10 + d;
            if acc2 > i64::MAX as u128 {
                big = true;
            } else {
                acc = acc2;
            }
        } else {
            proof {
                let pv = digits_val(pre);
                assert(pv * 10 + char_val(s@[i as int]) > i64::MAX) by (nonlinear_arith)
                    requires
                        pv > i64::MAX,
                        char_val(s@[i as int]) >= 0,
                ;
            }
        }
        i += 1;
    }
    if big {
        (i, None)
    } else {
        (i, Some(acc as u64))
    }
}

fn parse_number_exec(s: &Vec<char>, pos: usize) -> (r: Result<(Primitive, usize), ParseError>)
    requires
        pos <= s@.len(),
    ensures
        match r {
            Ok((v, p)) => parse_number(s@, pos as int) == Ok::<_, ParseError>((v@, p as int))
                && pos < p <= s@.len() && crate::value::value_wf(v@),
            Err(e) => parse_number(s@, pos as int) == Err::<(PrimV, int), _>(e),
        },
{
    let neg = pos < s.len() && s[pos] == '_';
    let p0 = if neg {
        pos + 1
    } else {
        pos
    };
    if !(p0 < s.len() && digit_char_at(s[p0])) {
        return Err(ParseError::InvalidLiteral);
    }
    let (e1, iv_opt) = scan_digits_val(s, p0);
    if e1 < s.len() && s[e1] == '.' {
        if !(e1 + 1 < s.len() && digit_char_at(s[e1 + 1])) {
            return Err(ParseError::InvalidLiteral);
        }
        let (e2, fv_opt) = scan_digits_val(s, e1 + 1);
        let k = e2 - (e1 + 1);
        if k > 18 {
            return Err(ParseError::InvalidLiteral);
        }
        let ghost giv = digits_val(s@.subrange(p0 as int, e1 as int));
        let ghost gfv = digits_val(s@.subrange(e1 + 1, e2 as int));
        let den = crate::render::pow10_u64(k);
        proof {
            crate::render::lemma_pow10_mono(0, k as nat);
            crate::render::lemma_pow10_mono(k as nat, 18);
            crate::render::lemma_pow10_18();
        }
        let iv = match iv_opt {
            Some(v) => v,
            None => {
                proof {
                    assert(giv * (den as int) + gfv > i64::MAX) by (nonlinear_arith)
                        requires
                            giv > i64::MAX,
                            den >= 1,
                            gfv >= 0,
                    ;
                }
                return Err(ParseError::InvalidLiteral);
            },
        };
        let fv = match fv_opt {
            Some(v) => v,
            None => {
                proof {
                    assert(giv * (den as int) + gfv > i64::MAX) by (nonlinear_arith)
                        requires
                            gfv > i64::MAX,
                            den >= 1,
                            giv >= 0,
                    ;
                }
                return Err(ParseError::InvalidLiteral);
            },
        };
        proof {
            assert((iv as int) * (den as int) + (fv as int)
                < 0x1000_0000_0000_0000_0000_0000_0000_0000 && (iv as int) * (den as int) + (
            fv as int) >= 0) by (nonlinear_arith)
                requires
                    0 <= iv <= 0x7FFF_FFFF_FFFF_FFFF,
                    1 <= den <= 1_000_000_000_000_000_000,
                    0 <= fv <= 0x7FFF_FFFF_FFFF_FFFF,
            ;
        }
        let mag: u128 = (iv as u128) * (den as u128) + (fv as u128);
        if mag > i64::MAX as u128 {
            return Err(ParseError::InvalidLiteral);
        }
        if mag == 0 {
            return Ok((Primitive::DoublePrecisionFloat(Fraction { num: 0, den: 1 }), e2));
        }
        let num: i64 = if neg {
            -(mag as i64)
        } else {
            mag as i64
        };
        Ok((Primitive::DoublePrecisionFloat(Fraction { num, den: den as i64 }), e2))
    } else {
        let iv = match iv_opt {
            Some(v) => v,
            None => {
                return Err(ParseError::InvalidLiteral);
            },
        };
        let num: i64 = if neg {
            -(iv as i64)
        } else {
            iv as i64
        };
        Ok((Primitive::Integer(num), e1))
    }
}

fn parse_term_exec(s: &Vec<char>, pos: usize) -> (r: Result<(AstNode, usize), ParseError>)
    requires
        pos <= s@.len(),
    ensures
        match r {
            Ok((node, p)) => parse_term(s@, pos as int) == Ok::<_, ParseError>(
                (node@, p as int),
            ) && pos < p <= s@.len() && ast_wf(node@),
            Err(e) => parse_term(s@, pos as int) == Err::<(AstV, int), _>(e),
        },
    decreases s@.len() - pos, 1int,
{
    if pos >= s.len() {
        return Err(ParseError::UnexpectedToken);
    }
    let c = s[pos];
    if digit_char_at(c) || c == '_' {
        match parse_number_exec(s, pos) {
            Err(e) => Err(e),
            Ok((v, p1)) => Ok((AstNode::Value(v), p1)),
        }
    } else if c == '\'' {
        match parse_string_body_exec(s, pos + 1) {
            Err(e) => Err(e),
            Ok((content, p1)) => Ok(
                (AstNode::Value(Primitive::Str(crate::text::chars_to_string(&content))), p1),
            ),
        }
    } else if alpha_char_at(c) {
        let e = ident_end_exec(s, pos);
        let name = crate::text::chars_to_string(&crate::text::copy_range(s, pos, e));
        Ok((AstNode::Ident(name), e))
    } else if c == '(' {
        match parse_expr_exec(s, pos + 1) {
            Err(e) => Err(e),
            Ok((node, p1)) => {
                let q = skip_ws_exec(s, p1);
                if q < s.len() && s[q] == ')' {
                    Ok((node, q + 1))
                } else {
                    Err(ParseError::UnexpectedToken)
                }
            },
        }
    } else {
        Err(ParseError::UnexpectedToken)
    }
}

fn parse_terms_rest_exec(s: &Vec<char>, pos: usize, acc: Vec<AstNode>) -> (r: Result<
    (Vec<AstNode>, usize),
    ParseError,
>)
    requires
        pos <= s@.len(),
        seq_ast_wf(crate::ast::seq_ast_view(acc@)),
    ensures
        match r {
            Ok((nodes, p)) => parse_terms_rest(s@, pos as int, crate::ast::seq_ast_view(acc@))
                == Ok::<_, ParseError>((crate::ast::seq_ast_view(nodes@), p as int)) && pos <= p
                <= s@.len() && seq_ast_wf(crate::ast::seq_ast_view(nodes@)) && nodes@.len() >= acc@.len(),
            Err(e) => parse_terms_rest(s@, pos as int, crate::ast::seq_ast_view(acc@)) == Err::<
                (Seq<AstV>, int),
                _,
            >(e),
        },
    decreases s@.len() - pos, 2int,
{
    let p = skip_ws_exec(s, pos);
    let more = p < s.len() && {
        let c = s[p];
        (digit_char_at(c) || c == '_' || c == '\'' || c == '(' || alpha_char_at(c)) && !(
        alpha_char_at(c) && assign_ahead_exec(s, p))
    };
    if more {
        match parse_term_exec(s, p) {
            Err(e) => Err(e),
            Ok((node, p2)) => {
                let ghost gaccseq = acc@;
                let ghost gacc = crate::ast::seq_ast_view(acc@);
                let ghost gnode = node@;
                let mut acc2 = acc;
                acc2.push(node);
                proof {
                    crate::ast::lemma_seq_ast_view(acc2@);
                    crate::ast::lemma_seq_ast_view(gaccseq);
                    assert(crate::ast::seq_ast_view(acc2@) =~= gacc.push(gnode));
                    crate::ast::lemma_seq_ast_wf_push(gacc, gnode);
                }
                parse_terms_rest_exec(s, p2, acc2)
            },
        }
    } else {
        Ok((acc, pos))
    }
}

fn parse_terms_exec(s: &Vec<char>, pos: usize) -> (r: Result<(AstNode, usize), ParseError>)
    requires
        pos <= s@.len(),
    ensures
        match r {
            Ok((node, p)) => parse_terms(s@, pos as int) == Ok::<_, ParseError>(
                (node@, p as int),
            ) && pos < p <= s@.len() && ast_wf(node@),
            Err(e) => parse_terms(s@, pos as int) == Err::<(AstV, int), _>(e),
        },
    decreases s@.len() - pos, 2int,
{
    match parse_term_exec(s, pos) {
        Err(e) => Err(e),
        Ok((first, p1)) => {
            let ghost gfirst = first@;
            let mut acc: Vec<AstNode> = Vec::new();
            acc.push(first);
            proof {
                crate::ast::lemma_seq_ast_view(acc@);
                assert(crate::ast::seq_ast_view(acc@) =~= seq![gfirst]);
                crate::ast::lemma_seq_ast_wf(seq![gfirst]);
            }
            match parse_terms_rest_exec(s, p1, acc) {
                Err(e) => Err(e),
                Ok((mut nodes, p2)) => {
                    proof {
                        crate::ast::lemma_seq_ast_view(nodes@);
                    }
                    if nodes.len() == 1 {
                        let ghost gall = nodes@;
                        let node = nodes.pop().unwrap();
                        proof {
                            crate::ast::lemma_seq_ast_view(gall);
                            assert(node == gall[0]);
                            assert(node@ == crate::ast::seq_ast_view(gall)[0]);
                            crate::ast::lemma_seq_ast_wf(crate::ast::seq_ast_view(gall));
                        }
                        Ok((node, p2))
                    } else {
                        let ghost gnodes = crate::ast::seq_ast_view(nodes@);
                        let node = AstNode::Terms(nodes);
                        proof {
                            assert(node@ == AstV::Terms(gnodes));
                        }
                        Ok((node, p2))
                    }
                },
            }
        },
    }
}

fn parse_expr_exec(s: &Vec<char>, pos: usize) -> (r: Result<(AstNode, usize), ParseError>)
    requires
        pos <= s@.len(),
    ensures
        match r {
            Ok((node, p)) => parse_expr(s@, pos as int) == Ok::<_, ParseError>(
                (node@, p as int),
            ) && pos < p <= s@.len() && ast_wf(node@),
            Err(e) => parse_expr(s@, pos as int) == Err::<(AstV, int), _>(e),
        },
    decreases s@.len() - pos, 3int,
{
    let p = skip_ws_exec(s, pos);
    if p == s.len() {
        return Err(ParseError::UnexpectedToken);
    }
    let c = s[p];
    if op_start_at(c) {
        match parse_operator_exec(s, p) {
            Err(e) => Err(e),
            Ok((verb, p2)) => {
                match parse_expr_exec(s, p2) {
                    Err(e) => Err(e),
                    Ok((node, p3)) => {
                        let ghost gnode = node@;
                        let out = AstNode::MonadicOp { operator: verb, expr: Box::new(node) };
                        proof {
                            assert(out@ == AstV::MonadicOp {
                                operator: verb,
                                expr: Box::new(gnode),
                            });
                        }
                        Ok((out, p3))
                    },
                }
            },
        }
    } else if alpha_char_at(c) && assign_ahead_exec(s, p) {
        let e = ident_end_exec(s, p);
        let q = skip_ws_exec(s, e);
        match parse_expr_exec(s, q + 2) {
            Err(e2) => Err(e2),
            Ok((node, p3)) => {
                let ghost gnode = node@;
                let name = crate::text::chars_to_string(&crate::text::copy_range(s, p, e));
                let out = AstNode::IsGlobal { ident: name, expr: Box::new(node) };
                proof {
                    assert(out@ == AstV::IsGlobal {
                        ident: s@.subrange(p as int, e as int),
                        expr: Box::new(gnode),
                    });
                }
                Ok((out, p3))
            },
        }
    } else if digit_char_at(c) || c == '_' || c == '\'' || c == '(' || alpha_char_at(c) {
        parse_terms_exec(s, p)
    } else {
        Err(ParseError::UnexpectedToken)
    }
}

fn parse_lisp_exec(s: &Vec<char>, pos: usize) -> (r: Result<Vec<AstNode>, ParseError>)
    requires
        pos <= s@.len(),
    ensures
        match r {
            Ok(nodes) => parse_lisp(s@, pos as int) == Ok::<_, ParseError>(
                crate::ast::seq_ast_view(nodes@),
            ) && seq_ast_wf(crate::ast::seq_ast_view(nodes@)),
            Err(e) => parse_lisp(s@, pos as int) == Err::<Seq<AstV>, _>(e),
        },
    decreases s@.len() - pos, 4int,
{
    let p = skip_ws_exec(s, pos);
    if p == s.len() {
        let out: Vec<AstNode> = Vec::new();
        proof {
            assert(crate::ast::seq_ast_view(out@) =~= Seq::<AstV>::empty());
        }
        return Ok(out);
    }
    match parse_expr_exec(s, p) {
        Err(e) => Err(e),
        Ok((node, p1)) => {
            match parse_lisp_exec(s, p1) {
                Err(e) => Err(e),
                Ok(rest) => {
                    let ghost gnode = node@;
                    let ghost grest = crate::ast::seq_ast_view(rest@);
                    let ghost grestseq = rest@;
                    let mut out: Vec<AstNode> = Vec::new();
                    out.push(node);
                    let mut rm = rest;
                    out.append(&mut rm);
                    proof {
                        crate::ast::lemma_seq_ast_view(out@);
                        crate::ast::lemma_seq_ast_view(grestseq);
                        assert(crate::ast::seq_ast_view(out@) =~= seq![gnode] + grest);
                        crate::ast::lemma_seq_ast_wf(grest);
                        crate::ast::lemma_seq_ast_wf(seq![gnode] + grest);
                        assert forall|i: int| 0 <= i < (seq![gnode] + grest).len() implies ast_wf(
                            #[trigger] (seq![gnode] + grest)[i],
                        ) by {
                            if i > 0 {
                                assert((seq![gnode] + grest)[i] == grest[i - 1]);
                            }
                        }
                    }
                    Ok(out)
                },
            }
        },
    }
}

/// Parse a line of input into its expressions.
pub fn parse(source: &str) -> (r: Result<Vec<AstNode>, ParseError>)
    ensures
        match r {
            Ok(nodes) => spec_parse(source@) == Ok::<_, ParseError>(
                crate::ast::seq_ast_view(nodes@),
            ) && seq_ast_wf(crate::ast::seq_ast_view(nodes@)),
            Err(e) => spec_parse(source@) == Err::<Seq<AstV>, _>(e),
        },
{
    let cs = crate::text::str_chars(source);
    parse_lisp_exec(&cs, 0)
}

/// The parser, as a named front end.
pub struct LISPParser;

impl LISPParser {
    /// Parse a line of input into its expressions.
    pub fn parse(source: &str) -> (r: Result<Vec<AstNode>, ParseError>)
        ensures
            match r {
                Ok(nodes) => spec_parse(source@) == Ok::<_, ParseError>(
                    crate::ast::seq_ast_view(nodes@),
                ) && seq_ast_wf(crate::ast::seq_ast_view(nodes@)),
                Err(e) => spec_parse(source@) == Err::<Seq<AstV>, _>(e),
            },
    {
        parse(source)
    }
}

/// Every character of a rendered whole number is a digit.
proof fn lemma_digits_of_all_digits(n: nat)
    ensures
        digits_of(n).len() >= 1,
        forall|i: int| 0 <= i < digits_of(n).len() ==> is_digit(#[trigger] digits_of(n)[i]),
    decreases n,
{
    if n < 10 {
    } else {
        lemma_digits_of_all_digits(n / 10);
        let ds = digits_of(n);
        assert forall|i: int| 0 <= i < ds.len() implies is_digit(#[trigger] ds[i]) by {
            if i < ds.len() - 1 {
                assert(ds[i] == digits_of(n / 10)[i]);
            }
        }
    }
}

/// Reading back the rendered digits of a whole number gives the number.
proof fn lemma_digits_val_of_digits(n: nat)
    ensures
        digits_val(digits_of(n)) == n,
    decreases n,
{
    if n < 10 {
        let ds = digits_of(n);
        assert(ds == seq![crate::render::digit_char(n as int)]);
        assert(ds.subrange(0, 0) =~= Seq::<char>::empty());
        assert(crate::render::digit_char(n as int) as int == 48 + n);
        assert(digits_val(ds) == digits_val(ds.subrange(0, 0)) * 10 + char_val(ds[0]));
        assert(digits_val(ds.subrange(0, 0)) == 0);
        assert(char_val(ds[0]) == n);
    } else {
        lemma_digits_val_of_digits(n / 10);
        let ds = digits_of(n);
        assert(ds.subrange(0, ds.len() - 1) =~= digits_of(n / 10));
        assert(crate::render::digit_char((n % 10) as int) as int == 48 + n % 10);
    }
}

/// A run of digits scans to the end of the input.
proof fn lemma_digits_end_all(s: Seq<char>, i: int)
    requires
        0 <= i <= s.len(),
        forall|j: int| i <= j < s.len() ==> is_digit(#[trigger] s[j]),
    ensures
        digits_end(s, i) == s.len(),
    decreases s.len() - i,
{
    if i < s.len() {
        lemma_digits_end_all(s, i + 1);
    }
}

/// Law: for a whole-number literal, parsing its canonical rendering
/// gives back the literal, evaluating that gives back the value, and
/// the value renders to the same text again.
pub proof fn lemma_literal_round_trip(n: i64, env: Map<Seq<char>, crate::value::PrimV>)
    requires
        n >= 0,
    ensures
        spec_parse(digits_of(n as nat)) == Ok::<Seq<AstV>, ParseError>(
            seq![AstV::Value(PrimV::Int(n))],
        ),
        crate::eval::eval_nodes(seq![AstV::Value(PrimV::Int(n))], env) == (
            Ok::<crate::value::PrimV, crate::eval::EvalErrV>(PrimV::Int(n)),
            env,
        ),
        spec_render(PrimV::Int(n)) == digits_of(n as nat),
{
    let s = digits_of(n as nat);
    lemma_digits_of_all_digits(n as nat);
    lemma_digits_val_of_digits(n as nat);
    lemma_digits_end_all(s, 0);
    let node = AstV::Value(PrimV::Int(n));
    assert(s.subrange(0, s.len() as int) =~= s);
    assert(skip_ws(s, 0) == 0);
    assert(term_start(s, 0));
    assert(parse_number(s, 0) == Ok::<(PrimV, int), ParseError>((PrimV::Int(n), s.len() as int)));
    assert(parse_term(s, 0) == Ok::<(AstV, int), ParseError>((node, s.len() as int)));
    assert(skip_ws(s, s.len() as int) == s.len());
    assert(parse_terms_rest(s, s.len() as int, seq![node]) == Ok::<(Seq<AstV>, int), ParseError>(
        (seq![node], s.len() as int),
    ));
    assert(parse_terms(s, 0) == Ok::<(AstV, int), ParseError>((node, s.len() as int)));
    assert(parse_expr(s, 0) == Ok::<(AstV, int), ParseError>((node, s.len() as int)));
    assert(parse_lisp(s, s.len() as int) == Ok::<Seq<AstV>, ParseError>(Seq::empty()));
    assert(seq![node] + Seq::<AstV>::empty() =~= seq![node]);
    assert(parse_lisp(s, 0) == Ok::<Seq<AstV>, ParseError>(seq![node]));
    let ns = seq![node];
    assert(crate::eval::eval_node(node, env) == (
        Ok::<crate::value::PrimV, crate::eval::EvalErrV>(PrimV::Int(n)),
        env,
    ));
}

/// Law: for a negative whole number above the smallest one, parsing
/// its rendering reads the minus sign as the Difference operator over
/// the magnitude, and evaluating that yields the number back.
pub proof fn lemma_negative_round_trip(n: i64, env: Map<Seq<char>, crate::value::PrimV>)
    requires
        i64::MIN < n < 0,
    ensures
        ({
            let mag = (-(n as int)) as i64;
            let node = AstV::MonadicOp {
                operator: MonadicVerb::Difference,
                expr: Box::new(AstV::Value(PrimV::Int(mag))),
            };
            &&& spec_parse(crate::render::spec_render_int(n as int)) == Ok::<Seq<AstV>, ParseError>(
                seq![node],
            )
            &&& crate::eval::eval_nodes(seq![node], env) == (
                Ok::<crate::value::PrimV, crate::eval::EvalErrV>(PrimV::Int(n)),
                env,
            )
        }),
{
    let mag = (-(n as int)) as i64;
    let ds = digits_of(mag as nat);
    let s = crate::render::spec_render_int(n as int);
    lemma_digits_of_all_digits(mag as nat);
    lemma_digits_val_of_digits(mag as nat);
    assert(s == seq!['-'] + ds);
    assert(s[0] == '-');
    assert forall|j: int| 1 <= j < s.len() implies is_digit(#[trigger] s[j]) by {
        assert(s[j] == ds[j - 1]);
    }
    lemma_digits_end_all(s, 1);
    assert(s.subrange(1, s.len() as int) =~= ds);
    let node_in = AstV::Value(PrimV::Int(mag));
    assert(skip_ws(s, 0) == 0);
    assert(is_op_start(s[0]));
    assert(parse_operator(s, 0) == Ok::<(MonadicVerb, int), ParseError>(
        (MonadicVerb::Difference, 1),
    ));
    assert(skip_ws(s, 1) == 1);
    assert(term_start(s, 1));
    assert(parse_number(s, 1) == Ok::<(PrimV, int), ParseError>((PrimV::Int(mag), s.len() as int)));
    assert(parse_term(s, 1) == Ok::<(AstV, int), ParseError>((node_in, s.len() as int)));
    assert(skip_ws(s, s.len() as int) == s.len());
    assert(parse_terms_rest(s, s.len() as int, seq![node_in]) == Ok::<
        (Seq<AstV>, int),
        ParseError,
    >((seq![node_in], s.len() as int)));
    assert(parse_terms(s, 1) == Ok::<(AstV, int), ParseError>((node_in, s.len() as int)));
    assert(parse_expr(s, 1) == Ok::<(AstV, int), ParseError>((node_in, s.len() as int)));
    let node = AstV::MonadicOp {
        operator: MonadicVerb::Difference,
        expr: Box::new(node_in),
    };
    assert(parse_expr(s, 0) == Ok::<(AstV, int), ParseError>((node, s.len() as int)));
    assert(parse_lisp(s, s.len() as int) == Ok::<Seq<AstV>, ParseError>(Seq::empty()));
    assert(seq![node] + Seq::<AstV>::empty() =~= seq![node]);
    assert(parse_lisp(s, 0) == Ok::<Seq<AstV>, ParseError>(seq![node]));
    assert(crate::eval::eval_node(node_in, env) == (
        Ok::<crate::value::PrimV, crate::eval::EvalErrV>(PrimV::Int(mag)),
        env,
    ));
    assert(crate::arith::spec_binop(
        crate::arith::BinOp::Sub,
        PrimV::Int(0),
        PrimV::Int(mag),
    ) == Ok::<crate::value::PrimV, crate::errors::ArithmeticError>(PrimV::Int(n)));
}

/// Law: parsing is deterministic. `parse`'s contract ties every run to
/// `spec_parse` of the input text alone, so two parses of the same
/// text yield structurally identical results.
pub proof fn lemma_parse_deterministic(a: Seq<char>, b: Seq<char>)
    requires
        a == b,
    ensures
        spec_parse(a) == spec_parse(b),
{
}

} // verus!
