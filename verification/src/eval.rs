//! The tree evaluator: a recursive walk that resolves identifiers in
//! the environment, applies operators through the arithmetic engine,
//! and performs assignment.
//!
//! A prefix operator whose operand is a term list combines the first
//! term with a fold of the rest (so `+ 5 (* 2 2)` is `5 + 4`); over a
//! single operand an arithmetic operator applies with its identity on
//! the left (`- 5` is `0 - 5`), Tally counts a vector's elements, and
//! any other operator has no rule. A bare term list folds with Add.
//! Errors abort the walk, but assignments already made stay in the
//! environment.

use vstd::prelude::*;

use crate::arith::{apply_binop, spec_binop, BinOp};
use crate::ast::{ast_view, ast_wf, seq_ast_view, seq_ast_wf, AstNode, AstV, MonadicVerb};
use crate::env::Environment;
use crate::errors::ArithmeticError;
use crate::value::{value_wf, PrimV, Primitive};

verus! {

broadcast use vstd::seq::axiom_seq_index_decreases, vstd::seq::axiom_seq_subrange_decreases, vstd::std_specs::vec::axiom_vec_index_decreases;

/// Why evaluation of a line failed.
#[derive(Debug, PartialEq)]
pub enum EvalError {
    /// A name with no binding in the environment.
    UndefinedVariable(String),
    /// An operator that parses but has no evaluation rule.
    UnsupportedOperator(MonadicVerb),
    /// The arithmetic engine rejected an operation.
    Arithmetic(ArithmeticError),
    /// Nothing to evaluate.
    EmptyExpression,
}

/// The model of an evaluation error.
pub enum EvalErrV {
    UndefinedVariable(Seq<char>),
    UnsupportedOperator(MonadicVerb),
    Arithmetic(ArithmeticError),
    EmptyExpression,
}

impl View for EvalError {
    type V = EvalErrV;

    open spec fn view(&self) -> EvalErrV {
        match self {
            EvalError::UndefinedVariable(s) => EvalErrV::UndefinedVariable(s@),
            EvalError::UnsupportedOperator(v) => EvalErrV::UnsupportedOperator(*v),
            EvalError::Arithmetic(a) => EvalErrV::Arithmetic(*a),
            EvalError::EmptyExpression => EvalErrV::EmptyExpression,
        }
    }
}

/// The binary operation a verb stands for, if it has one.
pub open spec fn verb_op(v: MonadicVerb) -> Option<BinOp> {
    match v {
        MonadicVerb::Addition => Some(BinOp::Add),
        MonadicVerb::Difference => Some(BinOp::Sub),
        MonadicVerb::Multiplication => Some(BinOp::Mul),
        MonadicVerb::Division => Some(BinOp::Div),
        _ => None,
    }
}

/// The identity a lone operand is combined against: 0 for Add and
/// Sub, 1 for Mul and Div.
pub open spec fn identity_of(op: BinOp) -> PrimV {
    match op {
        BinOp::Add => PrimV::Int(0),
        BinOp::Sub => PrimV::Int(0),
        BinOp::Mul => PrimV::Int(1),
        BinOp::Div => PrimV::Int(1),
    }
}

/// Tally: the element count of a vector, 1 for anything else.
pub open spec fn tally_of(v: PrimV) -> PrimV {
    match v {
        PrimV::Vector(es) => PrimV::Int(
            if es.len() > i64::MAX {
                i64::MAX
            } else {
                es.len() as i64
            },
        ),
        _ => PrimV::Int(1),
    }
}

/// Evaluation of one node: the value or error, and the environment
/// after the walk.
pub open spec fn eval_node(n: AstV, env: Map<Seq<char>, PrimV>) -> (Result<PrimV, EvalErrV>, Map<
    Seq<char>,
    PrimV,
>)
    decreases n, 0int,
{
    match n {
        AstV::Value(v) => (Ok(v), env),
        AstV::Ident(name) => if env.contains_key(name) {
            (Ok(env[name]), env)
        } else {
            (Err(EvalErrV::UndefinedVariable(name)), env)
        },
        AstV::IsGlobal { ident, expr } => {
            let (r, env1) = eval_node(*expr, env);
            match r {
                Ok(v) => (Ok(v), env1.insert(ident, v)),
                Err(e) => (Err(e), env1),
            }
        },
        AstV::Terms(ts) => {
            if ts.len() == 0 {
                (Err(EvalErrV::EmptyExpression), env)
            } else {
                let (r0, env1) = eval_node(ts[0], env);
                match r0 {
                    Err(e) => (Err(e), env1),
                    Ok(v0) => eval_fold(BinOp::Add, v0, ts.subrange(1, ts.len() as int), env1),
                }
            }
        },
        AstV::MonadicOp { operator, expr } => {
            match verb_op(operator) {
                Some(op) => {
                    match *expr {
                        AstV::Terms(ts) => {
                            if ts.len() == 0 {
                                (Err(EvalErrV::EmptyExpression), env)
                            } else {
                                let (r0, env1) = eval_node(ts[0], env);
                                match r0 {
                                    Err(e) => (Err(e), env1),
                                    Ok(v0) => eval_fold(
                                        op,
                                        v0,
                                        ts.subrange(1, ts.len() as int),
                                        env1,
                                    ),
                                }
                            }
                        },
                        _ => {
                            let (r, env1) = eval_node(*expr, env);
                            match r {
                                Err(e) => (Err(e), env1),
                                Ok(v) => match spec_binop(op, identity_of(op), v) {
                                    Ok(w) => (Ok(w), env1),
                                    Err(a) => (Err(EvalErrV::Arithmetic(a)), env1),
                                },
                            }
                        },
                    }
                },
                None => {
                    if operator == MonadicVerb::Tally {
                        let (r, env1) = eval_node(*expr, env);
                        match r {
                            Err(e) => (Err(e), env1),
                            Ok(v) => (Ok(tally_of(v)), env1),
                        }
                    } else {
                        (Err(EvalErrV::UnsupportedOperator(operator)), env)
                    }
                },
            }
        },
    }
}

/// Left fold of `op` over the remaining terms, starting from `acc`.
pub open spec fn eval_fold(
    op: BinOp,
    acc: PrimV,
    ts: Seq<AstV>,
    env: Map<Seq<char>, PrimV>,
) -> (Result<PrimV, EvalErrV>, Map<Seq<char>, PrimV>)
    decreases ts, 1int,
{
    if ts.len() == 0 {
        (Ok(acc), env)
    } else {
        let (r, env1) = eval_node(ts[0], env);
        match r {
            Err(e) => (Err(e), env1),
            Ok(v) => match spec_binop(op, acc, v) {
                Err(a) => (Err(EvalErrV::Arithmetic(a)), env1),
                Ok(w) => eval_fold(op, w, ts.subrange(1, ts.len() as int), env1),
            },
        }
    }
}

/// Evaluation of a whole line: each expression in order; the last
/// value is the line's value, and an error aborts the line but keeps
/// the assignments already made.
pub open spec fn eval_nodes(ns: Seq<AstV>, env: Map<Seq<char>, PrimV>) -> (Result<
    PrimV,
    EvalErrV,
>, Map<Seq<char>, PrimV>)
    decreases ns.len(),
{
    if ns.len() == 0 {
        (Err(EvalErrV::EmptyExpression), env)
    } else {
        let (r, env1) = eval_node(ns[0], env);
        match r {
            Err(e) => (Err(e), env1),
            Ok(v) => {
                if ns.len() == 1 {
                    (Ok(v), env1)
                } else {
                    eval_nodes(ns.subrange(1, ns.len() as int), env1)
                }
            },
        }
    }
}

/// An evaluation result, at the model level.
pub open spec fn eval_res_view(r: Result<Primitive, EvalError>) -> Result<PrimV, EvalErrV> {
    match r {
        Ok(p) => Ok(p@),
        Err(e) => Err(e@),
    }
}

/// The binary operation a verb stands for.
fn verb_op_exec(v: MonadicVerb) -> (r: Option<BinOp>)
    ensures
        r == verb_op(v),
{
    match v {
        MonadicVerb::Addition => Some(BinOp::Add),
        MonadicVerb::Difference => Some(BinOp::Sub),
        MonadicVerb::Multiplication => Some(BinOp::Mul),
        MonadicVerb::Division => Some(BinOp::Div),
        _ => None,
    }
}

/// The identity value for an operation.
fn identity_exec(op: BinOp) -> (r: Primitive)
    ensures
        r@ == identity_of(op),
        value_wf(r@),
{
    match op {
        BinOp::Add => Primitive::Integer(0),
        BinOp::Sub => Primitive::Integer(0),
        BinOp::Mul => Primitive::Integer(1),
        BinOp::Div => Primitive::Integer(1),
    }
}

/// Tally of a value.
fn tally_exec(v: &Primitive) -> (r: Primitive)
    ensures
        r@ == tally_of(v@),
{
    match v {
        Primitive::Vector(es) => {
            proof {
                crate::value::lemma_seq_prim_view(es@);
            }
            let n = es.len();
            if n as u128 > i64::MAX as u128 {
                Primitive::Integer(i64::MAX)
            } else {
                Primitive::Integer(n as i64)
            }
        },
        _ => Primitive::Integer(1),
    }
}

/// Evaluation of one node against the environment.
fn eval_node_exec(n: &AstNode, env: &mut Environment) -> (r: Result<Primitive, EvalError>)
    requires
        ast_wf(n@),
        old(env).wf(),
    ensures
        ({
            let (sr, senv) = eval_node(n@, old(env)@);
            &&& eval_res_view(r) == sr
            &&& final(env)@ == senv
            &&& final(env).wf()
            &&& (r matches Ok(v) ==> value_wf(v@))
        }),
    decreases *n, 1int, 0int,
{
    match n {
        AstNode::Value(p) => Ok(p.duplicate()),
        AstNode::Ident(name) => {
            match env.get(name.as_str()) {
                Some(v) => Ok(v),
                None => Err(EvalError::UndefinedVariable(name.clone())),
            }
        },
        AstNode::IsGlobal { ident, expr } => {
            proof {
                assert(decreases_to!(*n => n->IsGlobal_expr));
            }
            match eval_node_exec(expr, env) {
                Err(e) => Err(e),
                Ok(v) => {
                    let dup = v.duplicate();
                    env.insert(ident.clone(), v);
                    Ok(dup)
                },
            }
        },
        AstNode::Terms(ts) => {
            let ghost tv = seq_ast_view(ts@);
            proof {
                crate::ast::lemma_seq_ast_view(ts@);
                crate::ast::lemma_seq_ast_wf(tv);
                assert(n@ == AstV::Terms(tv));
            }
            if ts.len() == 0 {
                Err(EvalError::EmptyExpression)
            } else {
                proof {
                    assert(decreases_to!(*n => n->Terms_0));
                    assert(decreases_to!(n->Terms_0 => ts@[0]));
                    assert(tv[0] == ast_view(ts@[0]));
                }
                match eval_node_exec(&ts[0], env) {
                    Err(e) => Err(e),
                    Ok(v0) => eval_fold_exec(BinOp::Add, v0, ts, 1, env),
                }
            }
        },
        AstNode::MonadicOp { operator, expr } => {
            match verb_op_exec(*operator) {
                Some(op) => {
                    match &**expr {
                        AstNode::Terms(ts) => {
                            let ghost tv = seq_ast_view(ts@);
                            proof {
                                crate::ast::lemma_seq_ast_view(ts@);
                                assert((*(n->MonadicOp_expr))@ == AstV::Terms(tv));
                                assert(n@ == AstV::MonadicOp {
                                    operator: *operator,
                                    expr: Box::new(AstV::Terms(tv)),
                                });
                                assert(ast_wf(AstV::Terms(tv)));
                                assert(seq_ast_wf(tv));
                                crate::ast::lemma_seq_ast_wf(tv);
                            }
                            if ts.len() == 0 {
                                Err(EvalError::EmptyExpression)
                            } else {
                                proof {
                                    assert(decreases_to!(*n => n->MonadicOp_expr));
                                    assert(decreases_to!(*(n->MonadicOp_expr)
                                        => (*(n->MonadicOp_expr))->Terms_0));
                                    assert(decreases_to!((*(n->MonadicOp_expr))->Terms_0
                                        => ts@[0]));
                                    assert(tv[0] == ast_view(ts@[0]));
                                }
                                match eval_node_exec(&ts[0], env) {
                                    Err(e) => Err(e),
                                    Ok(v0) => eval_fold_exec(op, v0, ts, 1, env),
                                }
                            }
                        },
                        _ => {
                            proof {
                                assert(decreases_to!(*n => n->MonadicOp_expr));
                            }
                            match eval_node_exec(expr, env) {
                                Err(e) => Err(e),
                                Ok(v) => {
                                    let ident_v = identity_exec(op);
                                    match apply_binop(op, &ident_v, &v) {
                                        Ok(w) => Ok(w),
                                        Err(oe) => Err(EvalError::Arithmetic(oe.kind)),
                                    }
                                },
                            }
                        },
                    }
                },
                None => {
                    if *operator == MonadicVerb::Tally {
                        proof {
                            assert(decreases_to!(*n => n->MonadicOp_expr));
                        }
                        match eval_node_exec(expr, env) {
                            Err(e) => Err(e),
                            Ok(v) => Ok(tally_exec(&v)),
                        }
                    } else {
                        Err(EvalError::UnsupportedOperator(*operator))
                    }
                },
            }
        },
    }
}

/// Left fold of `op` over the terms from `i` on, starting from `acc`.
fn eval_fold_exec(
    op: BinOp,
    acc: Primitive,
    ts: &Vec<AstNode>,
    i: usize,
    env: &mut Environment,
) -> (r: Result<Primitive, EvalError>)
    requires
        i <= ts@.len(),
        seq_ast_wf(seq_ast_view(ts@)),
        value_wf(acc@),
        old(env).wf(),
    ensures
        ({
            let tv = seq_ast_view(ts@);
            let (sr, senv) = eval_fold(op, acc@, tv.subrange(i as int, tv.len() as int), old(env)@);
            &&& eval_res_view(r) == sr
            &&& final(env)@ == senv
            &&& final(env).wf()
            &&& (r matches Ok(v) ==> value_wf(v@))
        }),
    decreases ts@, 2int, ts@.len() - i,
{
    let ghost tv = seq_ast_view(ts@);
    proof {
        crate::ast::lemma_seq_ast_view(ts@);
        crate::ast::lemma_seq_ast_wf(tv);
    }
    let ghost suf = tv.subrange(i as int, tv.len() as int);
    if i == ts.len() {
        proof {
            assert(suf.len() == 0);
        }
        Ok(acc)
    } else {
        proof {
            assert(decreases_to!(ts@ => ts@[i as int]));
            assert(suf[0] == tv[i as int]);
            assert(tv[i as int] == ast_view(ts@[i as int]));
            assert(suf.subrange(1, suf.len() as int) =~= tv.subrange(i + 1, tv.len() as int));
        }
        match eval_node_exec(&ts[i], env) {
            Err(e) => Err(e),
            Ok(v) => {
                match apply_binop(op, &acc, &v) {
                    Err(oe) => Err(EvalError::Arithmetic(oe.kind)),
                    Ok(w) => eval_fold_exec(op, w, ts, i + 1, env),
                }
            },
        }
    }
}

/// Evaluation of a whole line from expression `i` on.
fn evaluate_from(nodes: &Vec<AstNode>, i: usize, env: &mut Environment) -> (r: Result<
    Primitive,
    EvalError,
>)
    requires
        i <= nodes@.len(),
        seq_ast_wf(seq_ast_view(nodes@)),
        old(env).wf(),
    ensures
        ({
            let nv = seq_ast_view(nodes@);
            let (sr, senv) = eval_nodes(nv.subrange(i as int, nv.len() as int), old(env)@);
            &&& eval_res_view(r) == sr
            &&& final(env)@ == senv
            &&& final(env).wf()
            &&& (r matches Ok(v) ==> value_wf(v@))
        }),
    decreases nodes@.len() - i,
{
    let ghost nv = seq_ast_view(nodes@);
    proof {
        crate::ast::lemma_seq_ast_view(nodes@);
        crate::ast::lemma_seq_ast_wf(nv);
    }
    let ghost suf = nv.subrange(i as int, nv.len() as int);
    if i == nodes.len() {
        proof {
            assert(suf.len() == 0);
        }
        Err(EvalError::EmptyExpression)
    } else {
        proof {
            assert(suf[0] == nv[i as int]);
            assert(nv[i as int] == ast_view(nodes@[i as int]));
            assert(suf.subrange(1, suf.len() as int) =~= nv.subrange(i + 1, nv.len() as int));
        }
        match eval_node_exec(&nodes[i], env) {
            Err(e) => Err(e),
            Ok(v) => {
                if i + 1 == nodes.len() {
                    Ok(v)
                } else {
                    evaluate_from(nodes, i + 1, env)
                }
            },
        }
    }
}

/// Evaluate a parsed line against the environment: each expression in
/// order, the last one's value as the result; an error aborts the line
/// but keeps the assignments already made.
pub fn evaluate(nodes: &Vec<AstNode>, env: &mut Environment) -> (r: Result<Primitive, EvalError>)
    requires
        seq_ast_wf(seq_ast_view(nodes@)),
        old(env).wf(),
    ensures
        ({
            let (sr, senv) = eval_nodes(seq_ast_view(nodes@), old(env)@);
            &&& eval_res_view(r) == sr
            &&& final(env)@ == senv
            &&& final(env).wf()
            &&& (r matches Ok(v) ==> value_wf(v@))
        }),
{
    proof {
        let nv = seq_ast_view(nodes@);
        assert(nv.subrange(0, nv.len() as int) =~= nv);
    }
    evaluate_from(nodes, 0, env)
}

/// Law: an assignment binds the name to the evaluated value, and a
/// lookup of that name right afterwards, in the environment the
/// assignment produced, returns exactly that value.
pub proof fn lemma_assignment_persists(name: Seq<char>, e: AstV, env: Map<Seq<char>, PrimV>)
    ensures
        ({
            let (r, env1) = eval_node(AstV::IsGlobal { ident: name, expr: Box::new(e) }, env);
            r matches Ok(v) ==> env1.contains_key(name) && env1[name] == v && eval_node(
                AstV::Ident(name),
                env1,
            ) == (Ok::<PrimV, EvalErrV>(v), env1)
        }),
{
}

/// Law: looking up a name with no binding fails with exactly
/// `UndefinedVariable` of that name, and leaves the environment as it
/// was.
pub proof fn lemma_undefined_lookup(name: Seq<char>, env: Map<Seq<char>, PrimV>)
    requires
        !env.contains_key(name),
    ensures
        eval_node(AstV::Ident(name), env) == (
            Err::<PrimV, EvalErrV>(EvalErrV::UndefinedVariable(name)),
            env,
        ),
{
}

} // verus!
