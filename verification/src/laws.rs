//! The laws the lowering pass obeys, stated and proved over the
//! specification that `Graph::compile` is held to.

use vstd::prelude::*;

use crate::instruction::{Instruction, instr_wf, op_uses_slot, prog_wf};
use crate::operation::{
    Kind, Node, graph_wf, lower_inv, memo_ok_at, node_instr_ok_at, node_wf, op_matches_node,
    same_kinds, spec_lower, unlowered, uses_operand,
};
use crate::semantics::{Term, node_eval};

verus! {

/// Evaluation is compositional: a constant leaf evaluates to itself, and a
/// binary node to its operation applied to its operands' evaluations —
/// nothing else of the graph enters the result.
pub proof fn lemma_eval_compositional(nodes: Seq<Node>, j: int)
    requires
        graph_wf(nodes),
        0 <= j < nodes.len(),
    ensures
        match nodes[j].kind {
            Kind::Constant(v) => node_eval(nodes, j) == Term::Constant(v),
            Kind::Add(a, b) => node_eval(nodes, j) == Term::Add(
                Box::new(node_eval(nodes, a as int)),
                Box::new(node_eval(nodes, b as int)),
            ),
            Kind::Sub(a, b) => node_eval(nodes, j) == Term::Sub(
                Box::new(node_eval(nodes, a as int)),
                Box::new(node_eval(nodes, b as int)),
            ),
            Kind::Mul(a, b) => node_eval(nodes, j) == Term::Mul(
                Box::new(node_eval(nodes, a as int)),
                Box::new(node_eval(nodes, b as int)),
            ),
            Kind::Div(a, b) => node_eval(nodes, j) == Term::Div(
                Box::new(node_eval(nodes, a as int)),
                Box::new(node_eval(nodes, b as int)),
            ),
        },
{
    assert(node_wf(nodes, j));
}

/// Determinism: lowering reads nothing but the graph. Two graphs that
/// describe the same expressions — equal node kinds throughout — and that
/// have never been lowered produce identical lowering outcomes: the same
/// instruction list, slot for slot.
pub proof fn lemma_lower_deterministic(g1: Seq<Node>, g2: Seq<Node>, j: int)
    requires
        same_kinds(g1, g2),
        unlowered(g1),
        unlowered(g2),
    ensures
        spec_lower(g1, Seq::<Instruction>::empty(), j) == spec_lower(
            g2,
            Seq::<Instruction>::empty(),
            j,
        ),
{
    assert forall|m: int| 0 <= m < g1.len() implies g1[m] == g2[m] by {
        assert(g1[m].kind == g2[m].kind);
        assert(g1[m].memo is None && g2[m].memo is None);
        assert(g1[m] =~= g2[m]);
    }
    assert(g1 =~= g2);
}

/// The destination slots a program writes.
pub open spec fn destinations(prog: Seq<Instruction>) -> Set<int> {
    Set::new(|t: int| exists|k: int| 0 <= k < prog.len() && prog[k].ret == t)
}

/// Slot density: a well-formed program — and `Graph::compile` returns only
/// such programs — writes exactly the slots `0, 1, ..., len - 1`, each as
/// the destination of exactly one instruction: no gaps, no repeats.
pub proof fn lemma_slot_density(prog: Seq<Instruction>)
    requires
        prog_wf(prog),
    ensures
        destinations(prog) =~= Set::new(|t: int| 0 <= t < prog.len()),
        forall|k1: int, k2: int|
            0 <= k1 < prog.len() && 0 <= k2 < prog.len() && prog[k1].ret == prog[k2].ret ==> k1
                == k2,
{
    assert forall|t: int| 0 <= t < prog.len() implies destinations(prog).contains(t) by {
        assert(instr_wf(prog, t));
        assert(prog[t].ret == t);
    }
    assert forall|t: int| destinations(prog).contains(t) implies 0 <= t < prog.len() by {
        let k = choose|k: int| 0 <= k < prog.len() && prog[k].ret == t;
        assert(instr_wf(prog, k));
    }
    assert forall|k1: int, k2: int|
        0 <= k1 < prog.len() && 0 <= k2 < prog.len() && prog[k1].ret
            == prog[k2].ret implies k1 == k2 by {
        assert(instr_wf(prog, k1));
        assert(instr_wf(prog, k2));
    }
}

/// Memoization of a shared sub-expression: after a lowering pass — whose
/// final state satisfies `lower_inv`, as `Graph::compile` ensures — a node
/// `s` that stands as an operand of two compiled parents was itself
/// compiled, both parents' instructions read the one slot `s` was compiled
/// to, and exactly one instruction of the program writes that slot.
pub proof fn lemma_shared_operand_compiled_once(
    nodes: Seq<Node>,
    prog: Seq<Instruction>,
    p1: int,
    p2: int,
    s: int,
)
    requires
        lower_inv(nodes, prog),
        0 <= p1 < nodes.len(),
        0 <= p2 < nodes.len(),
        0 <= s < nodes.len(),
        nodes[p1].memo is Some,
        nodes[p2].memo is Some,
        uses_operand(nodes[p1].kind, s),
        uses_operand(nodes[p2].kind, s),
    ensures
        nodes[s].memo is Some,
        op_uses_slot(prog[nodes[p1].memo->0 as int].op, nodes[s].memo->0 as int),
        op_uses_slot(prog[nodes[p2].memo->0 as int].op, nodes[s].memo->0 as int),
        forall|k: int|
            0 <= k < prog.len() && prog[k].ret == nodes[s].memo->0 ==> k == nodes[s].memo->0 as int,
{
    lemma_parent_reads_operand_slot(nodes, prog, p1, s);
    lemma_parent_reads_operand_slot(nodes, prog, p2, s);
    assert(memo_ok_at(nodes, prog, s));
    assert forall|k: int|
        0 <= k < prog.len() && prog[k].ret == nodes[s].memo->0 implies k == nodes[s].memo->0
        as int by {
        assert(instr_wf(prog, k));
    }
}

/// A compiled parent's instruction reads the slot its operand was compiled
/// to.
proof fn lemma_parent_reads_operand_slot(nodes: Seq<Node>, prog: Seq<Instruction>, p: int, s: int)
    requires
        lower_inv(nodes, prog),
        0 <= p < nodes.len(),
        0 <= s < nodes.len(),
        nodes[p].memo is Some,
        uses_operand(nodes[p].kind, s),
    ensures
        nodes[s].memo is Some,
        op_uses_slot(prog[nodes[p].memo->0 as int].op, nodes[s].memo->0 as int),
{
    assert(node_instr_ok_at(nodes, prog, p));
    let sp = nodes[p].memo->0 as int;
    assert(op_matches_node(nodes, p, prog[sp].op));
    match nodes[p].kind {
        Kind::Constant(_) => {},
        Kind::Add(a, b) => {
            assert(a == s || b == s);
        },
        Kind::Sub(a, b) => {
            assert(a == s || b == s);
        },
        Kind::Mul(a, b) => {
            assert(a == s || b == s);
        },
        Kind::Div(a, b) => {
            assert(a == s || b == s);
        },
    }
}

} // verus!
