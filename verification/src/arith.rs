//! The arithmetic engine: the four binary operations, each total over
//! all sixteen pairings of the four value kinds.
//!
//! Whole numbers use the machine's wrapping `i64` arithmetic; decimals
//! use exact fractions; text has concatenation, removal, repetition,
//! interleaving, truncation and splitting rules; a vector combines
//! with a scalar by broadcasting, and with another vector elementwise
//! over the shorter length, the longer vector's tail passing through
//! unchanged.

use vstd::prelude::*;

use crate::errors::{ArithmeticError, OperationError};
use crate::fraction::{spec_rat_add, spec_rat_div, spec_rat_mul, spec_rat_sub, Fraction};
use crate::render::{spec_render_fraction, spec_render_int};
use crate::text::{chars_to_string, copy_range, interleave, remove_all, remove_all_from, split_acc};
use crate::text::{interleave_from, lemma_views_of, split_from, views_of};
use crate::value::{lemma_seq_prim_view, lemma_seq_value_wf, prim_view, seq_prim_view, seq_value_wf, value_wf, PrimV, Primitive};

verus! {

broadcast use vstd::seq::axiom_seq_index_decreases, vstd::seq::axiom_seq_subrange_decreases, vstd::std_specs::vec::axiom_vec_index_decreases;

/// One of the four binary operations.
#[derive(Clone, Copy, Debug, PartialEq, Eq, Structural)]
pub enum BinOp {
    Add,
    Sub,
    Mul,
    Div,
}

pub open spec fn abs_i(x: int) -> int {
    if x < 0 {
        -x
    } else {
        x
    }
}

/// `i64` division as the machine performs it: truncation toward zero,
/// with the one wrapping case `i64::MIN / -1`.
pub open spec fn int_wrap_div(x: i64, y: i64) -> i64 {
    if x == i64::MIN && y == -1 {
        i64::MIN
    } else {
        let q = abs_i(x as int) / abs_i(y as int);
        if (x < 0) != (y < 0) {
            (-q) as i64
        } else {
            q as i64
        }
    }
}

/// Whole-number arithmetic: wrapping add, subtract and multiply;
/// division truncates and rejects a zero divisor.
pub open spec fn spec_int_int(op: BinOp, x: i64, y: i64) -> Result<PrimV, ArithmeticError> {
    match op {
        BinOp::Add => Ok(PrimV::Int(vstd::wrapping::i64_specs::wrapping_add(x, y))),
        BinOp::Sub => Ok(PrimV::Int(vstd::wrapping::i64_specs::wrapping_sub(x, y))),
        BinOp::Mul => Ok(PrimV::Int(vstd::wrapping::i64_specs::wrapping_mul(x, y))),
        BinOp::Div => if y == 0 {
            Err(ArithmeticError::DivideByZero)
        } else {
            Ok(PrimV::Int(int_wrap_div(x, y)))
        },
    }
}

/// Fraction arithmetic (a whole operand is promoted to `n/1` first).
pub open spec fn spec_rat_rat(op: BinOp, f: Fraction, g: Fraction) -> Result<
    PrimV,
    ArithmeticError,
> {
    let r = match op {
        BinOp::Add => spec_rat_add(f, g),
        BinOp::Sub => spec_rat_sub(f, g),
        BinOp::Mul => spec_rat_mul(f, g),
        BinOp::Div => spec_rat_div(f, g),
    };
    match r {
        Ok(h) => Ok(PrimV::Rat(h)),
        Err(e) => Err(e),
    }
}

/// A whole number against text: the number is stringified for Add and
/// Sub; Mul repeats the text; Div keeps the first `len/|x|` characters.
pub open spec fn spec_int_text(op: BinOp, x: i64, t: Seq<char>) -> Result<
    PrimV,
    ArithmeticError,
> {
    spec_num_text(op, spec_render_int(x as int), x as int, 1, t)
}

/// Text against a whole number; Sub strips the number's rendering from
/// the text (the mirror image of `spec_int_text`'s Sub).
pub open spec fn spec_text_int(op: BinOp, t: Seq<char>, x: i64) -> Result<
    PrimV,
    ArithmeticError,
> {
    spec_text_num(op, t, spec_render_int(x as int), x as int, 1)
}

pub open spec fn spec_rat_text(op: BinOp, f: Fraction, t: Seq<char>) -> Result<
    PrimV,
    ArithmeticError,
> {
    spec_num_text(op, spec_render_fraction(f), f.num as int, f.den as int, t)
}

pub open spec fn spec_text_rat(op: BinOp, t: Seq<char>, f: Fraction) -> Result<
    PrimV,
    ArithmeticError,
> {
    spec_text_num(op, t, spec_render_fraction(f), f.num as int, f.den as int)
}

/// A number (value `num/den`, rendered as `rendered`) on the left of a
/// text operand.
pub open spec fn spec_num_text(
    op: BinOp,
    rendered: Seq<char>,
    num: int,
    den: int,
    t: Seq<char>,
) -> Result<PrimV, ArithmeticError> {
    match op {
        BinOp::Add => Ok(PrimV::Text(rendered + t)),
        BinOp::Sub => Ok(PrimV::Text(remove_all(rendered, t))),
        BinOp::Mul => Ok(PrimV::Text(num_repeat(num, den, t))),
        BinOp::Div => if num == 0 {
            Err(ArithmeticError::DivideByZero)
        } else {
            Ok(PrimV::Text(num_truncate(num, den, t)))
        },
    }
}

/// A text operand on the left of a number: Add appends the rendering,
/// Sub removes its occurrences from the text; Mul and Div mirror the
/// number-on-the-left rules.
pub open spec fn spec_text_num(
    op: BinOp,
    t: Seq<char>,
    rendered: Seq<char>,
    num: int,
    den: int,
) -> Result<PrimV, ArithmeticError> {
    match op {
        BinOp::Add => Ok(PrimV::Text(t + rendered)),
        BinOp::Sub => Ok(PrimV::Text(remove_all(t, rendered))),
        BinOp::Mul => Ok(PrimV::Text(num_repeat(num, den, t))),
        BinOp::Div => if num == 0 {
            Err(ArithmeticError::DivideByZero)
        } else {
            Ok(PrimV::Text(num_truncate(num, den, t)))
        },
    }
}

/// Text repeated `num/den` times: the first `floor(num*len/den)`
/// characters of the text cycled; empty when the factor is not
/// positive.
pub open spec fn num_repeat(num: int, den: int, t: Seq<char>) -> Seq<char> {
    if num <= 0 {
        Seq::empty()
    } else {
        let count = (num * t.len()) / den;
        Seq::new(count as nat, |j: int| t[j % (t.len() as int)])
    }
}

/// Text truncated to `len/(num/den)` characters, rounded up and capped
/// at the whole text; the divisor's sign is ignored.
pub open spec fn num_truncate(num: int, den: int, t: Seq<char>) -> Seq<char> {
    let c = (t.len() * den + abs_i(num) - 1) / abs_i(num);
    if c > t.len() {
        t
    } else {
        t.subrange(0, c)
    }
}

/// The models of the pieces `split_acc` produced, as text values.
pub open spec fn texts_of(ps: Seq<Seq<char>>) -> Seq<PrimV> {
    Seq::new(ps.len(), |i: int| PrimV::Text(ps[i]))
}

/// Splitting by empty text: an empty piece, each character alone, and
/// an empty piece again.
pub open spec fn split_by_empty(s: Seq<char>) -> Seq<PrimV> {
    Seq::new(
        s.len() + 2,
        |i: int|
            if i == 0 || i == s.len() + 1 {
                PrimV::Text(Seq::empty())
            } else {
                PrimV::Text(seq![s[i - 1]])
            },
    )
}

/// Text against text: concatenation, removal of occurrences,
/// interleaving, and splitting into a vector of pieces.
pub open spec fn spec_text_text(op: BinOp, s: Seq<char>, t: Seq<char>) -> Result<
    PrimV,
    ArithmeticError,
> {
    match op {
        BinOp::Add => Ok(PrimV::Text(s + t)),
        BinOp::Sub => Ok(PrimV::Text(remove_all(s, t))),
        BinOp::Mul => Ok(PrimV::Text(interleave(s, t))),
        BinOp::Div => if t.len() == 0 {
            Ok(PrimV::Vector(split_by_empty(s)))
        } else {
            Ok(PrimV::Vector(texts_of(split_acc(s, t, Seq::empty()))))
        },
    }
}

/// The full operation over models. Two vectors zip elementwise over
/// the shorter length, the longer tail passing through; a vector and a
/// scalar broadcast, the scalar keeping its side.
pub open spec fn spec_binop(op: BinOp, a: PrimV, b: PrimV) -> Result<PrimV, ArithmeticError>
    decreases a, b,
{
    match (a, b) {
        (PrimV::Vector(va), PrimV::Vector(vb)) => match spec_zip(op, va, vb) {
            Ok(s) => Ok(PrimV::Vector(s)),
            Err(e) => Err(e),
        },
        (PrimV::Vector(va), _) => match spec_map_vs(op, va, b) {
            Ok(s) => Ok(PrimV::Vector(s)),
            Err(e) => Err(e),
        },
        (_, PrimV::Vector(vb)) => match spec_map_sv(op, a, vb) {
            Ok(s) => Ok(PrimV::Vector(s)),
            Err(e) => Err(e),
        },
        (PrimV::Int(x), PrimV::Int(y)) => spec_int_int(op, x, y),
        (PrimV::Int(x), PrimV::Rat(g)) => spec_rat_rat(op, Fraction { num: x, den: 1 }, g),
        (PrimV::Rat(f), PrimV::Int(y)) => spec_rat_rat(op, f, Fraction { num: y, den: 1 }),
        (PrimV::Rat(f), PrimV::Rat(g)) => spec_rat_rat(op, f, g),
        (PrimV::Int(x), PrimV::Text(t)) => spec_int_text(op, x, t),
        (PrimV::Text(t), PrimV::Int(y)) => spec_text_int(op, t, y),
        (PrimV::Rat(f), PrimV::Text(t)) => spec_rat_text(op, f, t),
        (PrimV::Text(t), PrimV::Rat(g)) => spec_text_rat(op, t, g),
        (PrimV::Text(s), PrimV::Text(t)) => spec_text_text(op, s, t),
    }
}

/// Elementwise combination of two vectors; the first error aborts, and
/// the longer vector's unconsumed tail is appended unchanged.
pub open spec fn spec_zip(op: BinOp, va: Seq<PrimV>, vb: Seq<PrimV>) -> Result<
    Seq<PrimV>,
    ArithmeticError,
>
    decreases va, vb,
{
    if va.len() == 0 {
        Ok(vb)
    } else if vb.len() == 0 {
        Ok(va)
    } else {
        match spec_binop(op, va[0], vb[0]) {
            Err(e) => Err(e),
            Ok(v) => match spec_zip(
                op,
                va.subrange(1, va.len() as int),
                vb.subrange(1, vb.len() as int),
            ) {
                Err(e) => Err(e),
                Ok(rest) => Ok(seq![v] + rest),
            },
        }
    }
}

/// Broadcast with the vector on the left.
pub open spec fn spec_map_vs(op: BinOp, va: Seq<PrimV>, b: PrimV) -> Result<
    Seq<PrimV>,
    ArithmeticError,
>
    decreases va, b,
{
    if va.len() == 0 {
        Ok(Seq::empty())
    } else {
        match spec_binop(op, va[0], b) {
            Err(e) => Err(e),
            Ok(v) => match spec_map_vs(op, va.subrange(1, va.len() as int), b) {
                Err(e) => Err(e),
                Ok(rest) => Ok(seq![v] + rest),
            },
        }
    }
}

/// Broadcast with the vector on the right.
pub open spec fn spec_map_sv(op: BinOp, a: PrimV, vb: Seq<PrimV>) -> Result<
    Seq<PrimV>,
    ArithmeticError,
>
    decreases a, vb,
{
    if vb.len() == 0 {
        Ok(Seq::empty())
    } else {
        match spec_binop(op, a, vb[0]) {
            Err(e) => Err(e),
            Ok(v) => match spec_map_sv(op, a, vb.subrange(1, vb.len() as int)) {
                Err(e) => Err(e),
                Ok(rest) => Ok(seq![v] + rest),
            },
        }
    }
}

/// `i64` division as the machine performs it.
fn div_i64(x: i64, y: i64) -> (r: i64)
    requires
        y != 0,
    ensures
        r == int_wrap_div(x, y),
{
    if x == i64::MIN && y == -1 {
        return i64::MIN;
    }
    let ax: u64 = if x >= 0 {
        x as u64
    } else {
        (-(x as i128)) as u64
    };
    let ay: u64 = if y >= 0 {
        y as u64
    } else {
        (-(y as i128)) as u64
    };
    proof {
        vstd::arithmetic::div_mod::lemma_div_nonincreasing(ax as int, ay as int);
        if ax == 0x8000_0000_0000_0000 && ay >= 2 {
            vstd::arithmetic::div_mod::lemma_div_is_ordered_by_denominator(ax as int, 2, ay as int);
        }
    }
    let q = ax / ay;
    if (x < 0) != (y < 0) {
        (-(q as i128)) as i64
    } else {
        q as i64
    }
}

/// Whole-number arithmetic.
fn exec_int_int(op: BinOp, x: i64, y: i64) -> (r: Result<Primitive, OperationError>)
    ensures
        res_view(r) == spec_int_int(op, x, y),
{
    match op {
        BinOp::Add => Ok(Primitive::Integer(x.wrapping_add(y))),
        BinOp::Sub => Ok(Primitive::Integer(x.wrapping_sub(y))),
        BinOp::Mul => Ok(Primitive::Integer(x.wrapping_mul(y))),
        BinOp::Div => if y == 0 {
            Err(OperationError { kind: ArithmeticError::DivideByZero })
        } else {
            Ok(Primitive::Integer(div_i64(x, y)))
        },
    }
}

/// Fraction arithmetic.
fn exec_rat_rat(op: BinOp, f: Fraction, g: Fraction) -> (r: Result<Primitive, OperationError>)
    requires
        f.wf(),
        g.wf(),
    ensures
        res_view(r) == spec_rat_rat(op, f, g),
        r matches Ok(v) ==> crate::value::value_wf(v@),
{
    let rr = match op {
        BinOp::Add => crate::fraction::rat_add(f, g),
        BinOp::Sub => crate::fraction::rat_sub(f, g),
        BinOp::Mul => crate::fraction::rat_mul(f, g),
        BinOp::Div => crate::fraction::rat_div(f, g),
    };
    match rr {
        Ok(h) => Ok(Primitive::DoublePrecisionFloat(h)),
        Err(e) => Err(OperationError { kind: e }),
    }
}

/// Text repeated `num/den` times (`num_repeat`).
fn repeat_by_factor(num: i64, den: i64, t: &Vec<char>) -> (r: Vec<char>)
    requires
        den >= 1,
    ensures
        r@ == num_repeat(num as int, den as int, t@),
{
    if num <= 0 {
        return Vec::new();
    }
    let tl = t.len();
    if tl == 0 {
        proof {
            let z = t@.len() as int;
            assert((num as int) * z == 0) by (nonlinear_arith)
                requires
                    z == 0,
            ;
            vstd::arithmetic::div_mod::lemma_div_of0(den as int);
            assert(num_repeat(num as int, den as int, t@) =~= Seq::<char>::empty());
        }
        return Vec::new();
    }
    proof {
        assert(((num as nat) * (tl as nat)) < 0x8000_0000_0000_0000_0000_0000_0000_0000)
            by (nonlinear_arith)
            requires
                0 < num <= 0x7FFF_FFFF_FFFF_FFFF,
                tl < 0x1_0000_0000_0000_0000,
        ;
    }
    let count: u128 = (num as u128) * (tl as u128) / (den as u128);
    let mut r: Vec<char> = Vec::new();
    let mut j: u128 = 0;
    while j < count
        invariant
            j <= count,
            t@.len() >= 1,
            count == ((num as int) * (t@.len() as int)) / (den as int),
            num >= 1,
            den >= 1,
            r@ == Seq::new(j as nat, |m: int| t@[m % (t@.len() as int)]),
        decreases count - j,
    {
        let idx = (j % (t.len() as u128)) as usize;
        r.push(t[idx]);
        proof {
            assert(r@ =~= Seq::new((j + 1) as nat, |m: int| t@[m % (t@.len() as int)]));
        }
        j += 1;
    }
    proof {
        assert(r@ =~= num_repeat(num as int, den as int, t@));
    }
    r
}

/// Text truncated by the factor `num/den` (`num_truncate`).
fn truncate_by_factor(num: i64, den: i64, t: &Vec<char>) -> (r: Vec<char>)
    requires
        den >= 1,
        num != 0,
    ensures
        r@ == num_truncate(num as int, den as int, t@),
{
    let pa: u128 = if num < 0 {
        (-(num as i128)) as u128
    } else {
        num as u128
    };
    let tl = t.len();
    proof {
        assert(((tl as nat) * (den as nat)) < 0x8000_0000_0000_0000_0000_0000_0000_0000)
            by (nonlinear_arith)
            requires
                1 <= den <= 0x7FFF_FFFF_FFFF_FFFF,
                tl < 0x1_0000_0000_0000_0000,
        ;
    }
    let c: u128 = ((tl as u128) * (den as u128) + pa - 1) / pa;
    if c > t.len() as u128 {
        let r = copy_range(t, 0, t.len());
        proof {
            assert(t@.subrange(0, t@.len() as int) =~= t@);
        }
        r
    } else {
        copy_range(t, 0, c as usize)
    }
}

/// A number (rendered, with value `num/den`) on the left of text.
fn exec_num_text(op: BinOp, rendered: Vec<char>, num: i64, den: i64, t: &Vec<char>) -> (r: Result<
    Primitive,
    OperationError,
>)
    requires
        den >= 1,
    ensures
        res_view(r) == spec_num_text(op, rendered@, num as int, den as int, t@),
        r matches Ok(v) ==> crate::value::value_wf(v@),
{
    match op {
        BinOp::Add => {
            let ghost gr = rendered@;
            let mut cs = rendered;
            let mut tc = copy_range(t, 0, t.len());
            cs.append(&mut tc);
            proof {
                assert(cs@ =~= gr + t@);
            }
            Ok(Primitive::Str(chars_to_string(&cs)))
        },
        BinOp::Sub => {
            let cs = remove_all_from(&rendered, t, 0);
            proof {
                assert(rendered@.subrange(0, rendered@.len() as int) =~= rendered@);
            }
            Ok(Primitive::Str(chars_to_string(&cs)))
        },
        BinOp::Mul => {
            let cs = repeat_by_factor(num, den, t);
            Ok(Primitive::Str(chars_to_string(&cs)))
        },
        BinOp::Div => if num == 0 {
            Err(OperationError { kind: ArithmeticError::DivideByZero })
        } else {
            let cs = truncate_by_factor(num, den, t);
            Ok(Primitive::Str(chars_to_string(&cs)))
        },
    }
}

/// Text on the left of a number.
fn exec_text_num(op: BinOp, t: &Vec<char>, rendered: Vec<char>, num: i64, den: i64) -> (r: Result<
    Primitive,
    OperationError,
>)
    requires
        den >= 1,
    ensures
        res_view(r) == spec_text_num(op, t@, rendered@, num as int, den as int),
        r matches Ok(v) ==> crate::value::value_wf(v@),
{
    match op {
        BinOp::Add => {
            let ghost gr = rendered@;
            let mut cs = copy_range(t, 0, t.len());
            let mut rc = rendered;
            cs.append(&mut rc);
            proof {
                assert(t@.subrange(0, t@.len() as int) =~= t@);
                assert(cs@ =~= t@ + gr);
            }
            Ok(Primitive::Str(chars_to_string(&cs)))
        },
        BinOp::Sub => {
            let cs = remove_all_from(t, &rendered, 0);
            proof {
                assert(t@.subrange(0, t@.len() as int) =~= t@);
            }
            Ok(Primitive::Str(chars_to_string(&cs)))
        },
        BinOp::Mul => {
            let cs = repeat_by_factor(num, den, t);
            Ok(Primitive::Str(chars_to_string(&cs)))
        },
        BinOp::Div => if num == 0 {
            Err(OperationError { kind: ArithmeticError::DivideByZero })
        } else {
            let cs = truncate_by_factor(num, den, t);
            Ok(Primitive::Str(chars_to_string(&cs)))
        },
    }
}

/// Text against text.
#[verifier::loop_isolation(false)]
fn exec_text_text(op: BinOp, s: &Vec<char>, t: &Vec<char>) -> (r: Result<Primitive, OperationError>)
    ensures
        res_view(r) == spec_text_text(op, s@, t@),
        r matches Ok(v) ==> crate::value::value_wf(v@),
{
    match op {
        BinOp::Add => {
            let mut cs = copy_range(s, 0, s.len());
            let mut tc = copy_range(t, 0, t.len());
            cs.append(&mut tc);
            proof {
                assert(cs@ =~= s@ + t@);
            }
            Ok(Primitive::Str(chars_to_string(&cs)))
        },
        BinOp::Sub => {
            let cs = remove_all_from(s, t, 0);
            proof {
                assert(s@.subrange(0, s@.len() as int) =~= s@);
            }
            Ok(Primitive::Str(chars_to_string(&cs)))
        },
        BinOp::Mul => {
            let cs = interleave_from(s, t, 0);
            proof {
                assert(s@.subrange(0, s@.len() as int) =~= s@);
                assert(t@.subrange(0, t@.len() as int) =~= t@);
            }
            Ok(Primitive::Str(chars_to_string(&cs)))
        },
        BinOp::Div => {
            if t.len() == 0 {
                let ghost target = split_by_empty(s@);
                let mut out: Vec<Primitive> = Vec::new();
                out.push(Primitive::Str(String::new()));
                let mut i: usize = 0;
                while i < s.len()
                    invariant
                        i <= s@.len(),
                        out@.len() == i + 1,
                        forall|j: int|
                            0 <= j < out@.len() ==> prim_view(out@[j]) == target[j],
                    decreases s@.len() - i,
                {
                    let mut one: Vec<char> = Vec::new();
                    one.push(s[i]);
                    out.push(Primitive::Str(chars_to_string(&one)));
                    proof {
                        assert(one@ =~= seq![s@[i as int]]);
                    }
                    i += 1;
                }
                out.push(Primitive::Str(String::new()));
                proof {
                    lemma_seq_prim_view(out@);
                    assert(seq_prim_view(out@) =~= target);
                    lemma_seq_value_wf(seq_prim_view(out@));
                }
                Ok(Primitive::Vector(out))
            } else {
                let empty_cur: Vec<char> = Vec::new();
                let parts = split_from(s, t, 0, empty_cur);
                proof {
                    assert(s@.subrange(0, s@.len() as int) =~= s@);
                    lemma_views_of(parts@);
                }
                let ghost pieces = split_acc(s@, t@, Seq::<char>::empty());
                let mut out: Vec<Primitive> = Vec::new();
                let mut i: usize = 0;
                while i < parts.len()
                    invariant
                        i <= parts@.len(),
                        out@.len() == i,
                        views_of(parts@) == pieces,
                        views_of(parts@).len() == parts@.len(),
                        forall|j: int|
                            0 <= j < parts@.len() ==> views_of(parts@)[j] == parts@[j]@,
                        forall|j: int|
                            0 <= j < out@.len() ==> prim_view(out@[j]) == PrimV::Text(pieces[j]),
                    decreases parts@.len() - i,
                {
                    out.push(Primitive::Str(chars_to_string(&parts[i])));
                    i += 1;
                }
                proof {
                    lemma_seq_prim_view(out@);
                    assert(seq_prim_view(out@) =~= texts_of(pieces));
                    lemma_seq_value_wf(seq_prim_view(out@));
                }
                Ok(Primitive::Vector(out))
            }
        },
    }
}

/// A vector-of-values operation result, at the model level.
pub open spec fn vec_res_view(r: Result<Vec<Primitive>, OperationError>) -> Result<
    Seq<PrimV>,
    ArithmeticError,
> {
    match r {
        Ok(v) => Ok(seq_prim_view(v@)),
        Err(e) => Err(e.kind),
    }
}

/// Elementwise combination of two vectors from index `i` on.
#[verifier::loop_isolation(false)]
fn zip_from(op: BinOp, va: &Vec<Primitive>, vb: &Vec<Primitive>, i: usize) -> (r: Result<
    Vec<Primitive>,
    OperationError,
>)
    requires
        i <= va@.len(),
        i <= vb@.len(),
        seq_value_wf(seq_prim_view(va@)),
        seq_value_wf(seq_prim_view(vb@)),
    ensures
        vec_res_view(r) == spec_zip(
            op,
            seq_prim_view(va@).subrange(i as int, va@.len() as int),
            seq_prim_view(vb@).subrange(i as int, vb@.len() as int),
        ),
        r matches Ok(v) ==> seq_value_wf(seq_prim_view(v@)),
    decreases va@, vb@, va@.len() - i,
{
    let ghost sva = seq_prim_view(va@);
    let ghost svb = seq_prim_view(vb@);
    proof {
        lemma_seq_prim_view(va@);
        lemma_seq_prim_view(vb@);
        lemma_seq_value_wf(sva);
        lemma_seq_value_wf(svb);
    }
    let ghost suf_a = sva.subrange(i as int, sva.len() as int);
    let ghost suf_b = svb.subrange(i as int, svb.len() as int);
    if i == va.len() {
        let r = crate::value::duplicate_range(vb, i);
        proof {
            lemma_seq_prim_view(r@);
            assert(suf_a.len() == 0);
            crate::value::lemma_seq_value_wf_subrange(svb, i as int, svb.len() as int);
        }
        Ok(r)
    } else if i == vb.len() {
        let r = crate::value::duplicate_range(va, i);
        proof {
            lemma_seq_prim_view(r@);
            assert(suf_b.len() == 0);
            crate::value::lemma_seq_value_wf_subrange(sva, i as int, sva.len() as int);
        }
        Ok(r)
    } else {
        proof {
            assert(decreases_to!(va@ => va@[i as int]));
            assert(value_wf(sva[i as int]));
            assert(value_wf(svb[i as int]));
            assert(suf_a[0] == sva[i as int]);
            assert(suf_b[0] == svb[i as int]);
            assert(suf_a.subrange(1, suf_a.len() as int) =~= sva.subrange(
                i + 1,
                sva.len() as int,
            ));
            assert(suf_b.subrange(1, suf_b.len() as int) =~= svb.subrange(
                i + 1,
                svb.len() as int,
            ));
        }
        let head = apply_binop(op, &va[i], &vb[i]);
        match head {
            Err(e) => Err(e),
            Ok(h) => {
                let rest = zip_from(op, va, vb, i + 1);
                match rest {
                    Err(e) => Err(e),
                    Ok(rv) => {
                        let ghost grv = rv@;
                        let ghost grest = seq_prim_view(rv@);
                        let ghost gh = h@;
                        let mut out: Vec<Primitive> = Vec::new();
                        out.push(h);
                        let mut rm = rv;
                        out.append(&mut rm);
                        proof {
                            lemma_seq_prim_view(grv);
                            lemma_seq_prim_view(out@);
                            assert(seq_prim_view(out@) =~= seq![gh] + grest);
                            assert(suf_a.subrange(1, suf_a.len() as int) =~= sva.subrange(
                                i + 1,
                                sva.len() as int,
                            ));
                            assert(suf_b.subrange(1, suf_b.len() as int) =~= svb.subrange(
                                i + 1,
                                svb.len() as int,
                            ));
                            crate::value::lemma_seq_value_wf_cons(gh, grest);
                        }
                        Ok(out)
                    },
                }
            },
        }
    }
}

/// Broadcast with the vector on the left, from index `i` on.
#[verifier::loop_isolation(false)]
fn map_vs_from(op: BinOp, va: &Vec<Primitive>, b: &Primitive, i: usize) -> (r: Result<
    Vec<Primitive>,
    OperationError,
>)
    requires
        i <= va@.len(),
        seq_value_wf(seq_prim_view(va@)),
        value_wf(b@),
    ensures
        vec_res_view(r) == spec_map_vs(
            op,
            seq_prim_view(va@).subrange(i as int, va@.len() as int),
            b@,
        ),
        r matches Ok(v) ==> seq_value_wf(seq_prim_view(v@)),
    decreases va@, *b, va@.len() - i,
{
    let ghost sva = seq_prim_view(va@);
    proof {
        lemma_seq_prim_view(va@);
        lemma_seq_value_wf(sva);
    }
    let ghost suf_a = sva.subrange(i as int, sva.len() as int);
    if i == va.len() {
        let out: Vec<Primitive> = Vec::new();
        proof {
            assert(suf_a.len() == 0);
            assert(seq_prim_view(out@) =~= Seq::<PrimV>::empty());
        }
        Ok(out)
    } else {
        proof {
            assert(decreases_to!(va@ => va@[i as int]));
            assert(value_wf(sva[i as int]));
            assert(suf_a[0] == sva[i as int]);
            assert(suf_a.subrange(1, suf_a.len() as int) =~= sva.subrange(
                i + 1,
                sva.len() as int,
            ));
        }
        let head = apply_binop(op, &va[i], b);
        match head {
            Err(e) => Err(e),
            Ok(h) => {
                let rest = map_vs_from(op, va, b, i + 1);
                match rest {
                    Err(e) => Err(e),
                    Ok(rv) => {
                        let ghost grv = rv@;
                        let ghost grest = seq_prim_view(rv@);
                        let ghost gh = h@;
                        let mut out: Vec<Primitive> = Vec::new();
                        out.push(h);
                        let mut rm = rv;
                        out.append(&mut rm);
                        proof {
                            lemma_seq_prim_view(grv);
                            lemma_seq_prim_view(out@);
                            assert(seq_prim_view(out@) =~= seq![gh] + grest);
                            assert(suf_a.subrange(1, suf_a.len() as int) =~= sva.subrange(
                                i + 1,
                                sva.len() as int,
                            ));
                            crate::value::lemma_seq_value_wf_cons(gh, grest);
                        }
                        Ok(out)
                    },
                }
            },
        }
    }
}

/// Broadcast with the vector on the right, from index `i` on.
#[verifier::loop_isolation(false)]
fn map_sv_from(op: BinOp, a: &Primitive, vb: &Vec<Primitive>, i: usize) -> (r: Result<
    Vec<Primitive>,
    OperationError,
>)
    requires
        i <= vb@.len(),
        value_wf(a@),
        seq_value_wf(seq_prim_view(vb@)),
    ensures
        vec_res_view(r) == spec_map_sv(
            op,
            a@,
            seq_prim_view(vb@).subrange(i as int, vb@.len() as int),
        ),
        r matches Ok(v) ==> seq_value_wf(seq_prim_view(v@)),
    decreases *a, vb@, vb@.len() - i,
{
    let ghost svb = seq_prim_view(vb@);
    proof {
        lemma_seq_prim_view(vb@);
        lemma_seq_value_wf(svb);
    }
    let ghost suf_b = svb.subrange(i as int, svb.len() as int);
    if i == vb.len() {
        let out: Vec<Primitive> = Vec::new();
        proof {
            assert(suf_b.len() == 0);
            assert(seq_prim_view(out@) =~= Seq::<PrimV>::empty());
        }
        Ok(out)
    } else {
        proof {
            assert(decreases_to!(vb@ => vb@[i as int]));
            assert(value_wf(svb[i as int]));
            assert(suf_b[0] == svb[i as int]);
            assert(suf_b.subrange(1, suf_b.len() as int) =~= svb.subrange(
                i + 1,
                svb.len() as int,
            ));
        }
        let head = apply_binop(op, a, &vb[i]);
        match head {
            Err(e) => Err(e),
            Ok(h) => {
                let rest = map_sv_from(op, a, vb, i + 1);
                match rest {
                    Err(e) => Err(e),
                    Ok(rv) => {
                        let ghost grv = rv@;
                        let ghost grest = seq_prim_view(rv@);
                        let ghost gh = h@;
                        let mut out: Vec<Primitive> = Vec::new();
                        out.push(h);
                        let mut rm = rv;
                        out.append(&mut rm);
                        proof {
                            lemma_seq_prim_view(grv);
                            lemma_seq_prim_view(out@);
                            assert(seq_prim_view(out@) =~= seq![gh] + grest);
                            assert(suf_b.subrange(1, suf_b.len() as int) =~= svb.subrange(
                                i + 1,
                                svb.len() as int,
                            ));
                            crate::value::lemma_seq_value_wf_cons(gh, grest);
                        }
                        Ok(out)
                    },
                }
            },
        }
    }
}

/// The full operation on two values.
pub fn apply_binop(op: BinOp, a: &Primitive, b: &Primitive) -> (r: Result<
    Primitive,
    OperationError,
>)
    requires
        value_wf(a@),
        value_wf(b@),
    ensures
        res_view(r) == spec_binop(op, a@, b@),
        r matches Ok(v) ==> value_wf(v@),
    decreases *a, *b, 1int,
{
    match (a, b) {
        (Primitive::Vector(va), Primitive::Vector(vb)) => {
            proof {
                assert(decreases_to!(*a => a->Vector_0));
                assert(decreases_to!(a->Vector_0 => a->Vector_0@));
                assert(a@ == PrimV::Vector(seq_prim_view(va@)));
                assert(b@ == PrimV::Vector(seq_prim_view(vb@)));
                lemma_seq_prim_view(va@);
                lemma_seq_prim_view(vb@);
            }
            match zip_from(op, va, vb, 0) {
                Ok(v) => {
                    proof {
                        assert(seq_prim_view(va@).subrange(0, seq_prim_view(va@).len() as int)
                            =~= seq_prim_view(va@));
                        assert(seq_prim_view(vb@).subrange(0, seq_prim_view(vb@).len() as int)
                            =~= seq_prim_view(vb@));
                        assert(spec_binop(op, a@, b@) == Ok::<PrimV, ArithmeticError>(
                            PrimV::Vector(seq_prim_view(v@)),
                        ));
                    }
                    Ok(Primitive::Vector(v))
                },
                Err(e) => {
                    proof {
                        assert(seq_prim_view(va@).subrange(0, seq_prim_view(va@).len() as int)
                            =~= seq_prim_view(va@));
                        assert(seq_prim_view(vb@).subrange(0, seq_prim_view(vb@).len() as int)
                            =~= seq_prim_view(vb@));
                    }
                    Err(e)
                },
            }
        },
        (Primitive::Vector(va), _) => {
            proof {
                assert(decreases_to!(*a => a->Vector_0));
                assert(decreases_to!(a->Vector_0 => a->Vector_0@));
                assert(a@ == PrimV::Vector(seq_prim_view(va@)));
                assert(!(b@ is Vector));
                lemma_seq_prim_view(va@);
            }
            match map_vs_from(op, va, b, 0) {
                Ok(v) => {
                    proof {
                        assert(seq_prim_view(va@).subrange(0, seq_prim_view(va@).len() as int)
                            =~= seq_prim_view(va@));
                        assert(spec_binop(op, a@, b@) == Ok::<PrimV, ArithmeticError>(
                            PrimV::Vector(seq_prim_view(v@)),
                        ));
                    }
                    Ok(Primitive::Vector(v))
                },
                Err(e) => {
                    proof {
                        assert(seq_prim_view(va@).subrange(0, seq_prim_view(va@).len() as int)
                            =~= seq_prim_view(va@));
                    }
                    Err(e)
                },
            }
        },
        (_, Primitive::Vector(vb)) => {
            proof {
                assert(decreases_to!(*b => b->Vector_0));
                assert(decreases_to!(b->Vector_0 => b->Vector_0@));
                assert(b@ == PrimV::Vector(seq_prim_view(vb@)));
                assert(!(a@ is Vector));
                lemma_seq_prim_view(vb@);
            }
            match map_sv_from(op, a, vb, 0) {
                Ok(v) => {
                    proof {
                        assert(seq_prim_view(vb@).subrange(0, seq_prim_view(vb@).len() as int)
                            =~= seq_prim_view(vb@));
                        assert(spec_binop(op, a@, b@) == Ok::<PrimV, ArithmeticError>(
                            PrimV::Vector(seq_prim_view(v@)),
                        ));
                    }
                    Ok(Primitive::Vector(v))
                },
                Err(e) => {
                    proof {
                        assert(seq_prim_view(vb@).subrange(0, seq_prim_view(vb@).len() as int)
                            =~= seq_prim_view(vb@));
                    }
                    Err(e)
                },
            }
        },
        (Primitive::Integer(x), Primitive::Integer(y)) => exec_int_int(op, *x, *y),
        (Primitive::Integer(x), Primitive::DoublePrecisionFloat(g)) => exec_rat_rat(
            op,
            Fraction::from_int(*x),
            *g,
        ),
        (Primitive::DoublePrecisionFloat(f), Primitive::Integer(y)) => exec_rat_rat(
            op,
            *f,
            Fraction::from_int(*y),
        ),
        (Primitive::DoublePrecisionFloat(f), Primitive::DoublePrecisionFloat(g)) => exec_rat_rat(
            op,
            *f,
            *g,
        ),
        (Primitive::Integer(x), Primitive::Str(t)) => {
            let tc = crate::text::str_chars(t.as_str());
            exec_num_text(op, crate::render::render_int_chars(*x), *x, 1, &tc)
        },
        (Primitive::Str(t), Primitive::Integer(y)) => {
            let tc = crate::text::str_chars(t.as_str());
            exec_text_num(op, &tc, crate::render::render_int_chars(*y), *y, 1)
        },
        (Primitive::DoublePrecisionFloat(f), Primitive::Str(t)) => {
            let tc = crate::text::str_chars(t.as_str());
            exec_num_text(op, crate::render::render_fraction_chars(*f), f.num, f.den, &tc)
        },
        (Primitive::Str(t), Primitive::DoublePrecisionFloat(g)) => {
            let tc = crate::text::str_chars(t.as_str());
            exec_text_num(op, &tc, crate::render::render_fraction_chars(*g), g.num, g.den)
        },
        (Primitive::Str(s), Primitive::Str(t)) => {
            let sc = crate::text::str_chars(s.as_str());
            let tc = crate::text::str_chars(t.as_str());
            let rr = exec_text_text(op, &sc, &tc);
            proof {
                assert(spec_binop(op, a@, b@) == spec_text_text(op, sc@, tc@));
            }
            rr
        },
    }
}

/// The Add column of the operation matrix.
pub fn add(a: &Primitive, b: &Primitive) -> (r: Result<Primitive, OperationError>)
    requires
        value_wf(a@),
        value_wf(b@),
    ensures
        res_view(r) == spec_binop(BinOp::Add, a@, b@),
        r matches Ok(v) ==> value_wf(v@),
{
    apply_binop(BinOp::Add, a, b)
}

/// The Subtract column of the operation matrix.
pub fn subtract(a: &Primitive, b: &Primitive) -> (r: Result<Primitive, OperationError>)
    requires
        value_wf(a@),
        value_wf(b@),
    ensures
        res_view(r) == spec_binop(BinOp::Sub, a@, b@),
        r matches Ok(v) ==> value_wf(v@),
{
    apply_binop(BinOp::Sub, a, b)
}

/// The Multiply column of the operation matrix.
pub fn multiply(a: &Primitive, b: &Primitive) -> (r: Result<Primitive, OperationError>)
    requires
        value_wf(a@),
        value_wf(b@),
    ensures
        res_view(r) == spec_binop(BinOp::Mul, a@, b@),
        r matches Ok(v) ==> value_wf(v@),
{
    apply_binop(BinOp::Mul, a, b)
}

/// The Divide column of the operation matrix.
pub fn divide(a: &Primitive, b: &Primitive) -> (r: Result<Primitive, OperationError>)
    requires
        value_wf(a@),
        value_wf(b@),
    ensures
        res_view(r) == spec_binop(BinOp::Div, a@, b@),
        r matches Ok(v) ==> value_wf(v@),
{
    apply_binop(BinOp::Div, a, b)
}


/// Law: dividing a whole number or a fraction by numeric zero fails
/// with exactly `DivideByZero`.
pub proof fn lemma_divide_by_zero(x: i64, f: Fraction, g: Fraction)
    ensures
        spec_binop(BinOp::Div, PrimV::Int(x), PrimV::Int(0)) == Err::<PrimV, ArithmeticError>(
            ArithmeticError::DivideByZero,
        ),
        spec_binop(BinOp::Div, PrimV::Rat(f), PrimV::Int(0)) == Err::<PrimV, ArithmeticError>(
            ArithmeticError::DivideByZero,
        ),
        g.is_zero() ==> spec_binop(BinOp::Div, PrimV::Int(x), PrimV::Rat(g)) == Err::<
            PrimV,
            ArithmeticError,
        >(ArithmeticError::DivideByZero),
        g.is_zero() ==> spec_binop(BinOp::Div, PrimV::Rat(f), PrimV::Rat(g)) == Err::<
            PrimV,
            ArithmeticError,
        >(ArithmeticError::DivideByZero),
{
}

/// Law: when two vectors combine, the zipped prefix has the shorter
/// length, each of its entries is the elementwise combination, and the
/// longer vector's tail passes through unchanged, so the result has
/// the longer length.
pub proof fn lemma_vector_broadcast(op: BinOp, va: Seq<PrimV>, vb: Seq<PrimV>)
    ensures
        spec_zip(op, va, vb) matches Ok(s) ==> {
            let m = if va.len() <= vb.len() {
                va.len() as int
            } else {
                vb.len() as int
            };
            &&& s.len() == (if va.len() <= vb.len() {
                vb.len() as int
            } else {
                va.len() as int
            })
            &&& (forall|i: int| m <= i < va.len() ==> s[i] == va[i])
            &&& (forall|i: int| m <= i < vb.len() ==> s[i] == vb[i])
            &&& (forall|i: int|
                0 <= i < m ==> Ok::<PrimV, ArithmeticError>(#[trigger] s[i]) == spec_binop(
                    op,
                    va[i],
                    vb[i],
                ))
        },
    decreases va.len(),
{
    if va.len() == 0 || vb.len() == 0 {
    } else {
        let ta = va.subrange(1, va.len() as int);
        let tb = vb.subrange(1, vb.len() as int);
        lemma_vector_broadcast(op, ta, tb);
        if spec_zip(op, va, vb) is Ok {
            let s = spec_zip(op, va, vb)->Ok_0;
            let rest = spec_zip(op, ta, tb)->Ok_0;
            let m = if va.len() <= vb.len() {
                va.len() as int
            } else {
                vb.len() as int
            };
            assert(s == seq![spec_binop(op, va[0], vb[0])->Ok_0] + rest);
            assert forall|i: int| m <= i < va.len() implies s[i] == va[i] by {
                assert(s[i] == rest[i - 1]);
                assert(rest[i - 1] == ta[i - 1]);
            }
            assert forall|i: int| m <= i < vb.len() implies s[i] == vb[i] by {
                assert(s[i] == rest[i - 1]);
                assert(rest[i - 1] == tb[i - 1]);
            }
            assert forall|i: int|
                0 <= i < m implies Ok::<PrimV, ArithmeticError>(#[trigger] s[i]) == spec_binop(
                op,
                va[i],
                vb[i],
            ) by {
                if i > 0 {
                    assert(s[i] == rest[i - 1]);
                    assert(ta[i - 1] == va[i]);
                    assert(tb[i - 1] == vb[i]);
                }
            }
        }
    }
}

/// An operation result, seen at the model level.
pub open spec fn res_view(r: Result<Primitive, OperationError>) -> Result<PrimV, ArithmeticError> {
    match r {
        Ok(p) => Ok(p@),
        Err(e) => Err(e.kind),
    }
}

} // verus!
