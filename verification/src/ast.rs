//! The abstract syntax tree the parser produces.

use vstd::prelude::*;

use crate::value::{prim_view, seq_prim_view, PrimV, Primitive};

verus! {

broadcast use vstd::seq::axiom_seq_index_decreases, vstd::seq::axiom_seq_subrange_decreases, vstd::std_specs::vec::axiom_vec_index_decreases;

/// The prefix operators the grammar knows. Only Addition, Difference,
/// Multiplication, Division and Tally have evaluation rules; the rest
/// parse but evaluating them is an error.
#[derive(PartialEq, Eq, Debug, Clone, Copy, Structural)]
pub enum MonadicVerb {
    GreaterThan,
    GreaterThanEqual,
    Multiplication,
    Difference,
    Addition,
    Division,
    Tally,
    LessThan,
    LessThanEqual,
    Equivalency,
    NotEquivalent,
    Power,
    Or,
    And,
}

/// One node of the syntax tree.
#[derive(PartialEq, Debug)]
pub enum AstNode {
    /// A literal value.
    Value(Primitive),
    /// A prefix operator applied to the whole expression at its right.
    MonadicOp { operator: MonadicVerb, expr: Box<AstNode> },
    /// Two or more juxtaposed terms.
    Terms(Vec<AstNode>),
    /// `name := expr`: bind a name in the environment.
    IsGlobal { ident: String, expr: Box<AstNode> },
    /// A name to look up at evaluation time.
    Ident(String),
}

/// The model of a syntax tree node.
pub enum AstV {
    Value(PrimV),
    MonadicOp { operator: MonadicVerb, expr: Box<AstV> },
    Terms(Seq<AstV>),
    IsGlobal { ident: Seq<char>, expr: Box<AstV> },
    Ident(Seq<char>),
}

/// The model denoted by a node.
pub open spec fn ast_view(n: AstNode) -> AstV
    decreases n,
{
    match n {
        AstNode::Value(p) => AstV::Value(prim_view(p)),
        AstNode::MonadicOp { operator, expr } => AstV::MonadicOp {
            operator,
            expr: Box::new(ast_view(*expr)),
        },
        AstNode::Terms(ts) => AstV::Terms(seq_ast_view(ts@)),
        AstNode::IsGlobal { ident, expr } => AstV::IsGlobal {
            ident: ident@,
            expr: Box::new(ast_view(*expr)),
        },
        AstNode::Ident(s) => AstV::Ident(s@),
    }
}

/// The models of a sequence of nodes, element by element.
pub open spec fn seq_ast_view(s: Seq<AstNode>) -> Seq<AstV>
    decreases s,
{
    if s.len() == 0 {
        Seq::empty()
    } else {
        seq_ast_view(s.subrange(0, s.len() - 1)).push(ast_view(s[s.len() - 1]))
    }
}

/// `seq_ast_view` maps `ast_view` over the sequence.
pub proof fn lemma_seq_ast_view(s: Seq<AstNode>)
    ensures
        seq_ast_view(s).len() == s.len(),
        forall|i: int| 0 <= i < s.len() ==> seq_ast_view(s)[i] == ast_view(s[i]),
    decreases s.len(),
{
    if s.len() > 0 {
        lemma_seq_ast_view(s.subrange(0, s.len() - 1));
    }
}

/// Every literal value in the tree is well-formed.
pub open spec fn ast_wf(n: AstV) -> bool
    decreases n,
{
    match n {
        AstV::Value(v) => crate::value::value_wf(v),
        AstV::MonadicOp { operator, expr } => ast_wf(*expr),
        AstV::Terms(ts) => seq_ast_wf(ts),
        AstV::IsGlobal { ident, expr } => ast_wf(*expr),
        AstV::Ident(_) => true,
    }
}

/// Every node of the sequence is well-formed.
pub open spec fn seq_ast_wf(s: Seq<AstV>) -> bool
    decreases s,
{
    if s.len() == 0 {
        true
    } else {
        ast_wf(s[0]) && seq_ast_wf(s.subrange(1, s.len() as int))
    }
}

/// `seq_ast_wf` holds exactly when each node is well-formed.
pub proof fn lemma_seq_ast_wf(s: Seq<AstV>)
    ensures
        seq_ast_wf(s) <==> (forall|i: int| 0 <= i < s.len() ==> ast_wf(#[trigger] s[i])),
    decreases s.len(),
{
    if s.len() > 0 {
        let tail = s.subrange(1, s.len() as int);
        lemma_seq_ast_wf(tail);
        if seq_ast_wf(s) {
            assert forall|i: int| 0 <= i < s.len() implies ast_wf(#[trigger] s[i]) by {
                if i > 0 {
                    assert(tail[i - 1] == s[i]);
                }
            }
        }
        if forall|i: int| 0 <= i < s.len() ==> ast_wf(#[trigger] s[i]) {
            assert forall|i: int| 0 <= i < tail.len() implies ast_wf(#[trigger] tail[i]) by {
                assert(tail[i] == s[i + 1]);
            }
        }
    }
}

/// A well-formed node appended to a well-formed list keeps it
/// well-formed.
pub proof fn lemma_seq_ast_wf_push(s: Seq<AstV>, x: AstV)
    requires
        seq_ast_wf(s),
        ast_wf(x),
    ensures
        seq_ast_wf(s.push(x)),
{
    lemma_seq_ast_wf(s);
    let sx = s.push(x);
    assert forall|i: int| 0 <= i < sx.len() implies ast_wf(#[trigger] sx[i]) by {
        if i < s.len() {
            assert(sx[i] == s[i]);
        } else {
            assert(sx[i] == x);
        }
    }
    lemma_seq_ast_wf(sx);
}

impl View for AstNode {
    type V = AstV;

    open spec fn view(&self) -> AstV {
        ast_view(*self)
    }
}

} // verus!
