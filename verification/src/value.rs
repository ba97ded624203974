//! The dynamically-tagged value type of the language and its
//! mathematical model.

use vstd::prelude::*;

use crate::fraction::Fraction;

verus! {

broadcast use vstd::seq::axiom_seq_index_decreases, vstd::seq::axiom_seq_subrange_decreases, vstd::std_specs::vec::axiom_vec_index_decreases;

/// A runtime value: a signed whole number, an exact decimal (held as a
/// fraction), a piece of text, or an ordered sequence of values.
#[derive(Debug, PartialEq)]
pub enum Primitive {
    Integer(i64),
    DoublePrecisionFloat(Fraction),
    Str(String),
    Vector(Vec<Primitive>),
}

/// The model of a `Primitive`: text as a sequence of characters,
/// vectors as sequences of models.
pub enum PrimV {
    Int(i64),
    Rat(Fraction),
    Text(Seq<char>),
    Vector(Seq<PrimV>),
}

/// The model denoted by a value.
pub open spec fn prim_view(p: Primitive) -> PrimV
    decreases p,
{
    match p {
        Primitive::Integer(n) => PrimV::Int(n),
        Primitive::DoublePrecisionFloat(f) => PrimV::Rat(f),
        Primitive::Str(s) => PrimV::Text(s@),
        Primitive::Vector(v) => PrimV::Vector(seq_prim_view(v@)),
    }
}

/// The models of a sequence of values, element by element.
pub open spec fn seq_prim_view(s: Seq<Primitive>) -> Seq<PrimV>
    decreases s,
{
    if s.len() == 0 {
        Seq::empty()
    } else {
        seq_prim_view(s.subrange(0, s.len() - 1)).push(prim_view(s[s.len() - 1]))
    }
}

/// `seq_prim_view` maps `prim_view` over the sequence.
pub proof fn lemma_seq_prim_view(s: Seq<Primitive>)
    ensures
        seq_prim_view(s).len() == s.len(),
        forall|i: int| 0 <= i < s.len() ==> seq_prim_view(s)[i] == prim_view(s[i]),
    decreases s.len(),
{
    if s.len() > 0 {
        lemma_seq_prim_view(s.subrange(0, s.len() - 1));
    }
}

impl View for Primitive {
    type V = PrimV;

    open spec fn view(&self) -> PrimV {
        prim_view(*self)
    }
}

impl Primitive {
    /// A structural copy of the value.
    #[verifier::loop_isolation(false)]
    pub fn duplicate(&self) -> (r: Primitive)
        ensures
            r@ == self@,
        decreases *self,
    {
        match self {
            Primitive::Integer(n) => Primitive::Integer(*n),
            Primitive::DoublePrecisionFloat(f) => Primitive::DoublePrecisionFloat(*f),
            Primitive::Str(s) => Primitive::Str(s.clone()),
            Primitive::Vector(v) => {
                let mut out: Vec<Primitive> = Vec::new();
                let mut i: usize = 0;
                while i < v.len()
                    invariant
                        i <= v.len(),
                        out@.len() == i,
                        forall|j: int| 0 <= j < i ==> prim_view(out@[j]) == prim_view(v@[j]),
                    decreases v.len() - i,
                {
                    proof {
                        assert(self->Vector_0 == *v);
                        assert(decreases_to!(*self => self->Vector_0));
                        assert(decreases_to!(*v => (*v)[i as int]));
                    }
                    out.push(v[i].duplicate());
                    i += 1;
                }
                let r = Primitive::Vector(out);
                proof {
                    lemma_seq_prim_view(out@);
                    lemma_seq_prim_view(v@);
                    assert(seq_prim_view(out@) =~= seq_prim_view(v@));
                }
                r
            },
        }
    }
}

/// Structural copies of the values from `from` onward.
#[verifier::loop_isolation(false)]
pub fn duplicate_range(v: &Vec<Primitive>, from: usize) -> (r: Vec<Primitive>)
    requires
        from <= v@.len(),
    ensures
        seq_prim_view(r@) == seq_prim_view(v@).subrange(from as int, v@.len() as int),
{
    let mut r: Vec<Primitive> = Vec::new();
    let mut i = from;
    while i < v.len()
        invariant
            from <= i <= v@.len(),
            r@.len() == i - from,
            forall|j: int| 0 <= j < r@.len() ==> prim_view(r@[j]) == prim_view(v@[from + j]),
        decreases v@.len() - i,
    {
        r.push(v[i].duplicate());
        i += 1;
    }
    proof {
        lemma_seq_prim_view(r@);
        lemma_seq_prim_view(v@);
        assert(seq_prim_view(r@) =~= seq_prim_view(v@).subrange(from as int, v@.len() as int));
    }
    r
}

/// Every fraction in the value, however deeply nested, is well-formed.
pub open spec fn value_wf(v: PrimV) -> bool
    decreases v,
{
    match v {
        PrimV::Int(_) => true,
        PrimV::Rat(f) => f.wf(),
        PrimV::Text(_) => true,
        PrimV::Vector(elems) => seq_value_wf(elems),
    }
}

/// Every element of the sequence is well-formed.
pub open spec fn seq_value_wf(s: Seq<PrimV>) -> bool
    decreases s,
{
    if s.len() == 0 {
        true
    } else {
        value_wf(s[0]) && seq_value_wf(s.subrange(1, s.len() as int))
    }
}

/// Well-formedness carries over to any subrange.
pub proof fn lemma_seq_value_wf_subrange(s: Seq<PrimV>, from: int, to: int)
    requires
        seq_value_wf(s),
        0 <= from <= to <= s.len(),
    ensures
        seq_value_wf(s.subrange(from, to)),
{
    lemma_seq_value_wf(s);
    let sub = s.subrange(from, to);
    assert forall|j: int| 0 <= j < sub.len() implies value_wf(#[trigger] sub[j]) by {
        assert(sub[j] == s[from + j]);
    }
    lemma_seq_value_wf(sub);
}

/// A well-formed head in front of a well-formed sequence stays
/// well-formed.
pub proof fn lemma_seq_value_wf_cons(h: PrimV, rest: Seq<PrimV>)
    requires
        value_wf(h),
        seq_value_wf(rest),
    ensures
        seq_value_wf(seq![h] + rest),
{
    lemma_seq_value_wf(rest);
    let whole = seq![h] + rest;
    assert forall|j: int| 0 <= j < whole.len() implies value_wf(#[trigger] whole[j]) by {
        if j > 0 {
            assert(whole[j] == rest[j - 1]);
        } else {
            assert(whole[0] == h);
        }
    }
    lemma_seq_value_wf(whole);
}

/// `seq_value_wf` holds exactly when each element is well-formed.
pub proof fn lemma_seq_value_wf(s: Seq<PrimV>)
    ensures
        seq_value_wf(s) <==> (forall|i: int| 0 <= i < s.len() ==> value_wf(#[trigger] s[i])),
    decreases s.len(),
{
    if s.len() > 0 {
        let tail = s.subrange(1, s.len() as int);
        lemma_seq_value_wf(tail);
        if seq_value_wf(s) {
            assert forall|i: int| 0 <= i < s.len() implies value_wf(#[trigger] s[i]) by {
                if i > 0 {
                    assert(tail[i - 1] == s[i]);
                }
            }
        }
        if forall|i: int| 0 <= i < s.len() ==> value_wf(#[trigger] s[i]) {
            assert forall|i: int| 0 <= i < tail.len() implies value_wf(#[trigger] tail[i]) by {
                assert(tail[i] == s[i + 1]);
            }
        }
    }
}

} // verus!
