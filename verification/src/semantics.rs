//! The mathematical semantics both consumers of the graph are held to.
//!
//! A `Term` is the operation tree a value is computed by: the result of an
//! expression, or of a lowered program, spelled out symbolically. Numeric
//! evaluation is a function of this tree alone — two computations that
//! build the same term compute the same 32-bit floating-point value — so
//! stating lowering correctness over terms pins the numeric result without
//! the library doing floating-point arithmetic itself.

use vstd::prelude::*;

use crate::instruction::{Instruction, Op};
use crate::operation::{Kind, Node, node_wf, same_kinds};

verus! {

/// The operation tree that produces a value: a constant's bit pattern, or
/// one of the four arithmetic operations applied to two sub-trees.
pub enum Term {
    Constant(u32),
    Add(Box<Term>, Box<Term>),
    Sub(Box<Term>, Box<Term>),
    Mul(Box<Term>, Box<Term>),
    Div(Box<Term>, Box<Term>),
}

/// Direct evaluation of node `j` of the arena, as a term: a constant leaf
/// evaluates to itself, and a binary node to its operation applied to its
/// operands' evaluations. This is the specification `evaluate` is held to.
pub open spec fn node_eval(nodes: Seq<Node>, j: int) -> Term
    decreases j,
{
    if 0 <= j < nodes.len() && node_wf(nodes, j) {
        match nodes[j].kind {
            Kind::Constant(v) => Term::Constant(v),
            Kind::Add(a, b) => Term::Add(
                Box::new(node_eval(nodes, a as int)),
                Box::new(node_eval(nodes, b as int)),
            ),
            Kind::Sub(a, b) => Term::Sub(
                Box::new(node_eval(nodes, a as int)),
                Box::new(node_eval(nodes, b as int)),
            ),
            Kind::Mul(a, b) => Term::Mul(
                Box::new(node_eval(nodes, a as int)),
                Box::new(node_eval(nodes, b as int)),
            ),
            Kind::Div(a, b) => Term::Div(
                Box::new(node_eval(nodes, a as int)),
                Box::new(node_eval(nodes, b as int)),
            ),
        }
    } else {
        Term::Constant(0)
    }
}

/// Evaluation reads only the nodes' kinds: arenas that agree on kinds
/// evaluate alike, whatever their memo state.
pub proof fn lemma_node_eval_same_kinds(a: Seq<Node>, b: Seq<Node>, j: int)
    requires
        same_kinds(a, b),
    ensures
        node_eval(a, j) == node_eval(b, j),
    decreases j,
{
    if 0 <= j < a.len() && node_wf(a, j) {
        assert(node_wf(b, j));
        match a[j].kind {
            Kind::Constant(_) => {},
            Kind::Add(x, y) => {
                lemma_node_eval_same_kinds(a, b, x as int);
                lemma_node_eval_same_kinds(a, b, y as int);
            },
            Kind::Sub(x, y) => {
                lemma_node_eval_same_kinds(a, b, x as int);
                lemma_node_eval_same_kinds(a, b, y as int);
            },
            Kind::Mul(x, y) => {
                lemma_node_eval_same_kinds(a, b, x as int);
                lemma_node_eval_same_kinds(a, b, y as int);
            },
            Kind::Div(x, y) => {
                lemma_node_eval_same_kinds(a, b, x as int);
                lemma_node_eval_same_kinds(a, b, y as int);
            },
        }
    } else {
        if 0 <= j < b.len() && node_wf(b, j) {
            assert(node_wf(a, j));
        }
    }
}

/// What one instruction stores into its destination slot, given the store
/// the earlier instructions built: a constant term, or the operation
/// applied to the terms already held by the operand slots.
pub open spec fn op_value(store: Map<int, Term>, op: Op) -> Term {
    match op {
        Op::Constant(v) => Term::Constant(v),
        Op::Add(a, b) => Term::Add(Box::new(store[a as int]), Box::new(store[b as int])),
        Op::Sub(a, b) => Term::Sub(Box::new(store[a as int]), Box::new(store[b as int])),
        Op::Mul(a, b) => Term::Mul(Box::new(store[a as int]), Box::new(store[b as int])),
        Op::Div(a, b) => Term::Div(Box::new(store[a as int]), Box::new(store[b as int])),
    }
}

/// Execute a program in order against a slot-indexed store, starting from
/// `store`: each instruction reads its operand slots and writes its
/// destination slot.
pub open spec fn run(prog: Seq<Instruction>, store: Map<int, Term>) -> Map<int, Term>
    decreases prog.len(),
{
    if prog.len() == 0 {
        store
    } else {
        let prev = run(prog.drop_last(), store);
        prev.insert(prog.last().ret as int, op_value(prev, prog.last().op))
    }
}

/// The store a program builds when executed from an empty store.
pub open spec fn store_of(prog: Seq<Instruction>) -> Map<int, Term> {
    run(prog, Map::empty())
}

/// Appending instructions whose destinations lie at or above `prog.len()`
/// leaves the slots the prefix defined untouched.
pub proof fn lemma_store_prefix(prog: Seq<Instruction>, ext: Seq<Instruction>, k: int)
    requires
        forall|m: int| 0 <= m < ext.len() ==> ext[m].ret >= prog.len() + m,
        0 <= k < prog.len(),
        store_of(prog).dom().contains(k),
    ensures
        store_of(prog + ext).dom().contains(k),
        store_of(prog + ext)[k] == store_of(prog)[k],
    decreases ext.len(),
{
    if ext.len() == 0 {
        assert(prog + ext =~= prog);
    } else {
        let ext0 = ext.drop_last();
        let i = ext.last();
        lemma_store_prefix(prog, ext0, k);
        assert((prog + ext).drop_last() =~= prog + ext0);
        assert(store_of(prog + ext) == run(prog + ext, Map::empty()));
        assert(i.ret as int != k);
    }
}

} // verus!
