//! Canonical text rendering of values.
//!
//! Whole numbers print in decimal. A fraction prints as a decimal
//! number when some scaling by a power of ten makes it exact (the
//! shortest such form is chosen, so `15/10` prints as `1.5` and
//! `100/100` as `1`); otherwise it prints as `numerator/denominator`.
//! Text prints wrapped in single quotes, and a vector prints as a
//! bracketed, comma-separated list of its elements' renderings.

use vstd::prelude::*;

use crate::fraction::Fraction;
use crate::text::chars_to_string;
use crate::value::{lemma_seq_prim_view, lemma_seq_value_wf, prim_view, seq_prim_view, seq_value_wf, value_wf, Primitive, PrimV};

verus! {

broadcast use vstd::seq::axiom_seq_index_decreases, vstd::seq::axiom_seq_subrange_decreases, vstd::std_specs::vec::axiom_vec_index_decreases;

/// The character for one decimal digit.
pub open spec fn digit_char(d: int) -> char {
    ((48 + d) as u8) as char
}

/// Decimal digits of a whole number, most significant first.
pub open spec fn digits_of(n: nat) -> Seq<char>
    decreases n,
{
    if n < 10 {
        seq![digit_char(n as int)]
    } else {
        digits_of(n / 10).push(digit_char((n % 10) as int))
    }
}

/// Rendering of a signed whole number.
pub open spec fn spec_render_int(n: int) -> Seq<char> {
    if n < 0 {
        seq!['-'] + digits_of((-n) as nat)
    } else {
        digits_of(n as nat)
    }
}

pub open spec fn pow10(k: nat) -> nat
    decreases k,
{
    if k == 0 {
        1
    } else {
        10 * pow10((k - 1) as nat)
    }
}

/// The smallest scale `k` (trying `k`, `k+1`, ... up to 19) for which
/// `na * 10^k` is a multiple of `den`, if any.
pub open spec fn find_scale(na: nat, den: nat, k: nat) -> Option<nat>
    decreases 20 - k,
{
    if k > 19 {
        None
    } else if (na * pow10(k)) % den == 0 {
        Some(k)
    } else {
        find_scale(na, den, k + 1)
    }
}

/// Left-pad a digit string with zeros up to `width` characters.
pub open spec fn zero_pad(ds: Seq<char>, width: nat) -> Seq<char>
    decreases width - ds.len(),
{
    if ds.len() >= width {
        ds
    } else {
        zero_pad(seq!['0'] + ds, width)
    }
}

/// The unsigned part of a fraction's rendering: exact decimal form
/// when one exists, `numerator/denominator` otherwise.
pub open spec fn spec_fraction_body(na: nat, den: nat) -> Seq<char> {
    match find_scale(na, den, 0) {
        Some(k) => {
            if k == 0 {
                digits_of(na / den)
            } else {
                let ds = zero_pad(digits_of((na * pow10(k)) / den), k + 1);
                ds.subrange(0, ds.len() - k) + seq!['.'] + ds.subrange(
                    ds.len() - k,
                    ds.len() as int,
                )
            }
        },
        None => digits_of(na) + seq!['/'] + digits_of(den),
    }
}

/// Rendering of a fraction: a sign when negative, then the unsigned part.
pub open spec fn spec_render_fraction(f: Fraction) -> Seq<char> {
    let na = (if f.num < 0 {
        -(f.num as int)
    } else {
        f.num as int
    }) as nat;
    if f.num < 0 {
        seq!['-'] + spec_fraction_body(na, f.den as nat)
    } else {
        spec_fraction_body(na, f.den as nat)
    }
}

/// Rendering of a value.
pub open spec fn spec_render(v: PrimV) -> Seq<char>
    decreases v,
{
    match v {
        PrimV::Int(n) => spec_render_int(n as int),
        PrimV::Rat(f) => spec_render_fraction(f),
        PrimV::Text(s) => seq!['\''] + s + seq!['\''],
        PrimV::Vector(elems) => seq!['['] + spec_render_items(elems) + seq![']'],
    }
}

/// The comma-separated renderings of a vector's elements.
pub open spec fn spec_render_items(elems: Seq<PrimV>) -> Seq<char>
    decreases elems,
{
    if elems.len() == 0 {
        Seq::empty()
    } else if elems.len() == 1 {
        spec_render(elems[0])
    } else {
        spec_render(elems[0]) + seq![',', ' '] + spec_render_items(
            elems.subrange(1, elems.len() as int),
        )
    }
}

/// Appending one element extends the item list by a separator and the
/// element's rendering.
proof fn lemma_render_items_snoc(s: Seq<PrimV>, x: PrimV)
    ensures
        spec_render_items(s.push(x)) == if s.len() == 0 {
            spec_render(x)
        } else {
            spec_render_items(s) + seq![',', ' '] + spec_render(x)
        },
    decreases s.len(),
{
    let sx = s.push(x);
    if s.len() == 0 {
        assert(sx[0] == x);
    } else {
        assert(sx.subrange(1, sx.len() as int) =~= s.subrange(1, s.len() as int).push(x));
        lemma_render_items_snoc(s.subrange(1, s.len() as int), x);
        if s.len() == 1 {
            assert(spec_render_items(s) == spec_render(s[0]));
        }
    }
}

/// Powers of ten do not shrink as the exponent grows.
pub proof fn lemma_pow10_mono(i: nat, j: nat)
    requires
        i <= j,
    ensures
        pow10(i) <= pow10(j),
        pow10(j) >= 1,
    decreases j,
{
    if j == 0 {
    } else if i == j {
        lemma_pow10_mono(0, (j - 1) as nat);
    } else {
        lemma_pow10_mono(i, (j - 1) as nat);
    }
}

pub proof fn lemma_pow10_18()
    ensures
        pow10(18) == 1_000_000_000_000_000_000,
{
    reveal_with_fuel(pow10, 20);
}

/// `10^k` as a machine word, for scales up to 19.
pub fn pow10_u64(k: usize) -> (r: u64)
    requires
        k <= 19,
    ensures
        r == pow10(k as nat),
    decreases k,
{
    if k == 0 {
        1
    } else {
        let rec = pow10_u64(k - 1);
        proof {
            lemma_pow10_mono((k - 1) as nat, 18);
            lemma_pow10_18();
        }
        10 * rec
    }
}

/// Decimal digits of a whole number, most significant first.
fn digits_u128(n: u128) -> (r: Vec<char>)
    ensures
        r@ == digits_of(n as nat),
        r@.len() >= 1,
    decreases n,
{
    if n < 10 {
        let d = n as u8 + 48;
        let mut r: Vec<char> = Vec::new();
        r.push(d as char);
        proof {
            assert(r@ =~= digits_of(n as nat));
        }
        r
    } else {
        let mut r = digits_u128(n / 10);
        let d = (n % 10) as u8 + 48;
        r.push(d as char);
        r
    }
}

/// Rendering of a signed whole number.
pub fn render_int_chars(n: i64) -> (r: Vec<char>)
    ensures
        r@ == spec_render_int(n as int),
{
    if n < 0 {
        let mag = (-(n as i128)) as u128;
        let mut r: Vec<char> = Vec::new();
        r.push('-');
        let mut ds = digits_u128(mag);
        r.append(&mut ds);
        proof {
            assert(r@ =~= spec_render_int(n as int));
        }
        r
    } else {
        digits_u128(n as u128)
    }
}

/// The unsigned part of a fraction's rendering.
#[verifier::loop_isolation(false)]
fn fraction_body_chars(na: u64, den: u64) -> (r: Vec<char>)
    requires
        na <= 0x8000_0000_0000_0000,
        1 <= den <= 0x7FFF_FFFF_FFFF_FFFF,
    ensures
        r@ == spec_fraction_body(na as nat, den as nat),
{
    let ghost gna = na as nat;
    let ghost gden = den as nat;
    let mut k: usize = 0;
    while k <= 19
        invariant
            k <= 20,
            find_scale(gna, gden, 0) == find_scale(gna, gden, k as nat),
        decreases 20 - k,
    {
        let p = pow10_u64(k);
        proof {
            assert(((na as nat) * (p as nat)) < 0x8000_0000_0000_0000_0000_0000_0000_0000)
                by (nonlinear_arith)
                requires
                    na <= 0x8000_0000_0000_0000,
                    p < 0x1_0000_0000_0000_0000,
            ;
        }
        let prod = na as u128 * p as u128;
        if prod % (den as u128) == 0 {
            let scaled = prod / (den as u128);
            if k == 0 {
                return digits_u128(scaled);
            }
            let mut ds = digits_u128(scaled);
            while ds.len() < k + 1
                invariant
                    zero_pad(ds@, (k + 1) as nat) == zero_pad(
                        digits_of((gna * pow10(k as nat)) / gden),
                        (k + 1) as nat,
                    ),
                    ds@.len() >= 1,
                decreases k + 1 - ds.len(),
            {
                let ghost pre = ds@;
                ds.insert(0, '0');
                proof {
                    assert(ds@ =~= seq!['0'] + pre);
                }
            }
            let ghost gds = zero_pad(digits_of((gna * pow10(k as nat)) / gden), (k + 1) as nat);
            proof {
                assert(ds@ == gds);
            }
            let take = ds.len() - k;
            let mut body: Vec<char> = Vec::new();
            let mut i: usize = 0;
            while i < take
                invariant
                    i <= take,
                    body@ == gds.subrange(0, i as int),
                decreases take - i,
            {
                body.push(ds[i]);
                proof {
                    assert(body@ =~= gds.subrange(0, i + 1));
                }
                i += 1;
            }
            body.push('.');
            let mut j: usize = take;
            while j < ds.len()
                invariant
                    take <= j <= ds@.len(),
                    body@ == gds.subrange(0, take as int) + seq!['.'] + gds.subrange(
                        take as int,
                        j as int,
                    ),
                decreases ds.len() - j,
            {
                body.push(ds[j]);
                proof {
                    assert(body@ =~= gds.subrange(0, take as int) + seq!['.'] + gds.subrange(
                        take as int,
                        j + 1,
                    ));
                }
                j += 1;
            }
            proof {
                assert(gds.subrange(take as int, gds.len() as int) == gds.subrange(
                    take as int,
                    j as int,
                ));
            }
            return body;
        }
        k += 1;
    }
    let mut body = digits_u128(na as u128);
    body.push('/');
    let mut dd = digits_u128(den as u128);
    body.append(&mut dd);
    proof {
        assert(body@ =~= digits_of(gna) + seq!['/'] + digits_of(gden));
    }
    body
}

/// Rendering of a fraction.
pub fn render_fraction_chars(f: Fraction) -> (r: Vec<char>)
    requires
        f.wf(),
    ensures
        r@ == spec_render_fraction(f),
{
    let na: u64 = if f.num < 0 {
        (-(f.num as i128)) as u64
    } else {
        f.num as u64
    };
    let body = fraction_body_chars(na, f.den as u64);
    if f.num < 0 {
        let ghost gbody = body@;
        let mut r: Vec<char> = Vec::new();
        r.push('-');
        let mut b = body;
        r.append(&mut b);
        proof {
            assert(r@ =~= seq!['-'] + gbody);
        }
        r
    } else {
        body
    }
}

/// The characters of a value's rendering.
#[verifier::loop_isolation(false)]
fn render_value_chars(v: &Primitive) -> (r: Vec<char>)
    requires
        value_wf(prim_view(*v)),
    ensures
        r@ == spec_render(prim_view(*v)),
    decreases *v,
{
    match v {
        Primitive::Integer(n) => render_int_chars(*n),
        Primitive::DoublePrecisionFloat(f) => render_fraction_chars(*f),
        Primitive::Str(s) => {
            let mut r: Vec<char> = Vec::new();
            r.push('\'');
            let st = s.as_str();
            let n = st.unicode_len();
            let mut i: usize = 0;
            while i < n
                invariant
                    i <= n,
                    r@ == seq!['\''] + st@.subrange(0, i as int),
                decreases n - i,
            {
                r.push(st.get_char(i));
                proof {
                    assert(r@ =~= seq!['\''] + st@.subrange(0, i + 1));
                }
                i += 1;
            }
            r.push('\'');
            proof {
                assert(st@.subrange(0, n as int) =~= s@);
                assert(r@ =~= seq!['\''] + s@ + seq!['\'']);
            }
            r
        },
        Primitive::Vector(elems) => {
            let ghost es = seq_prim_view(elems@);
            proof {
                lemma_seq_prim_view(elems@);
            }
            let mut r: Vec<char> = Vec::new();
            r.push('[');
            let mut i: usize = 0;
            while i < elems.len()
                invariant
                    i <= elems@.len(),
                    r@ == seq!['['] + spec_render_items(es.subrange(0, i as int)),
                decreases elems@.len() - i,
            {
                if i > 0 {
                    r.push(',');
                    r.push(' ');
                }
                proof {
                    assert(decreases_to!(*v => v->Vector_0));
                    assert(decreases_to!(v->Vector_0 => (v->Vector_0)[i as int]));
                    assert(prim_view(*v) == PrimV::Vector(es));
                    assert(seq_value_wf(es));
                    lemma_seq_value_wf(es);
                    assert(value_wf(es[i as int]));
                    assert(es[i as int] == prim_view(elems@[i as int]));
                }
                let mut ec = render_value_chars(&elems[i]);
                r.append(&mut ec);
                proof {
                    lemma_render_items_snoc(es.subrange(0, i as int), es[i as int]);
                    assert(es.subrange(0, i as int).push(es[i as int]) =~= es.subrange(0, i + 1));
                    if i > 0 {
                        assert(r@ =~= seq!['['] + (spec_render_items(es.subrange(0, i as int))
                            + seq![',', ' '] + spec_render(es[i as int])));
                    } else {
                        assert(r@ =~= seq!['['] + spec_render(es[0]));
                    }
                }
                i += 1;
            }
            r.push(']');
            proof {
                assert(es.subrange(0, es.len() as int) =~= es);
                assert(r@ =~= seq!['['] + spec_render_items(es) + seq![']']);
            }
            r
        },
    }
}

/// The canonical text rendering of a value.
pub fn render(v: &Primitive) -> (r: String)
    requires
        value_wf(v@),
    ensures
        r@ == spec_render(v@),
{
    let cs = render_value_chars(v);
    chars_to_string(&cs)
}

} // verus!
