//! The operation graph: an arena of operation nodes, handles into it, and
//! the memoized lowering pass that compiles the graph to a flat instruction
//! list.
//!
//! Nodes live in a dense arena and refer to their operands by index; an
//! operand index is always smaller than the index of the node that uses it,
//! so the graph is acyclic by construction. Several parents may name the
//! same operand index: that is the structural sharing that makes the graph
//! a DAG rather than a tree, and what the memoization in `compile` exists
//! for.

use vstd::prelude::*;

use crate::instruction;
use crate::instruction::{Instruction, Op, instr_wf, op_uses_slot, prog_wf};
use crate::semantics::{
    lemma_node_eval_same_kinds, lemma_store_prefix, node_eval, op_value, store_of,
};

verus! {

/// What an operation node does. Binary variants carry the arena indices of
/// their two operands; a constant carries the bit pattern of its 32-bit
/// floating-point value.
#[derive(Clone, Copy, PartialEq, Eq, Structural, Debug)]
pub enum Kind {
    Constant(u32),
    Add(usize, usize),
    Sub(usize, usize),
    Mul(usize, usize),
    Div(usize, usize),
}

/// One arena record: the node's operation, fixed at construction, and its
/// memo field, which moves from `None` to `Some(slot)` at most once, when
/// the node is first lowered.
#[derive(Clone, Copy, PartialEq, Eq, Structural, Debug)]
#[verifier::ext_equal]
pub struct Node {
    pub kind: Kind,
    pub memo: Option<usize>,
}

/// A handle to one operation node: an index into the arena of the graph
/// that created it. Handles are cheap to copy and several may alias the
/// same node.
#[derive(Clone, Copy, PartialEq, Eq, Structural, Debug)]
pub struct Scalar {
    pub index: usize,
}

/// Node `j` is locally well formed: its operands, if any, are earlier
/// arena entries.
pub open spec fn node_wf(nodes: Seq<Node>, j: int) -> bool {
    match nodes[j].kind {
        Kind::Constant(_) => true,
        Kind::Add(a, b) => a < j && b < j,
        Kind::Sub(a, b) => a < j && b < j,
        Kind::Mul(a, b) => a < j && b < j,
        Kind::Div(a, b) => a < j && b < j,
    }
}

/// Every node of the arena is locally well formed.
pub open spec fn graph_wf(nodes: Seq<Node>) -> bool {
    forall|j: int| 0 <= j < nodes.len() ==> node_wf(nodes, j)
}

/// Two arenas describe the same expressions: equal length and equal kinds
/// everywhere (memo state may differ).
pub open spec fn same_kinds(a: Seq<Node>, b: Seq<Node>) -> bool {
    &&& a.len() == b.len()
    &&& forall|j: int| 0 <= j < a.len() ==> a[j].kind == b[j].kind
}

/// No node of the arena has been lowered yet.
pub open spec fn unlowered(nodes: Seq<Node>) -> bool {
    forall|j: int| 0 <= j < nodes.len() ==> nodes[j].memo is None
}

/// The expression graph arena.
pub struct Graph {
    nodes: Vec<Node>,
}

impl View for Graph {
    type V = Seq<Node>;

    closed spec fn view(&self) -> Seq<Node> {
        self.nodes@
    }
}

impl Graph {
    /// The graph's internal invariant: operand edges only point backwards.
    pub open spec fn wf(&self) -> bool {
        graph_wf(self@)
    }

    /// An empty graph, holding no nodes.
    pub fn new() -> (g: Graph)
        ensures
            g@ == Seq::<Node>::empty(),
            g.wf(),
    {
        Graph { nodes: Vec::new() }
    }

    /// The number of nodes in the arena.
    pub fn node_count(&self) -> (n: usize)
        ensures
            n == self@.len(),
    {
        self.nodes.len()
    }

    /// Read the node a handle refers to.
    pub fn node(&self, s: Scalar) -> (n: Node)
        requires
            s.index < self@.len(),
        ensures
            n == self@[s.index as int],
    {
        self.nodes[s.index]
    }

    /// Append a freshly built node and hand back its handle.
    fn push_node(&mut self, kind: Kind) -> (s: Scalar)
        requires
            old(self).wf(),
            match kind {
                Kind::Constant(_) => true,
                Kind::Add(a, b) => a < old(self)@.len() && b < old(self)@.len(),
                Kind::Sub(a, b) => a < old(self)@.len() && b < old(self)@.len(),
                Kind::Mul(a, b) => a < old(self)@.len() && b < old(self)@.len(),
                Kind::Div(a, b) => a < old(self)@.len() && b < old(self)@.len(),
            },
        ensures
            final(self)@ == old(self)@.push(Node { kind, memo: None }),
            s.index == old(self)@.len(),
            final(self).wf(),
            unlowered(old(self)@) ==> unlowered(final(self)@),
    {
        let index = self.nodes.len();
        self.nodes.push(Node { kind, memo: None });
        proof {
            assert forall|j: int| 0 <= j < self@.len() implies node_wf(self@, j) by {
                if j < self@.len() - 1 {
                    assert(self@[j] == old(self)@[j]);
                    assert(node_wf(old(self)@, j));
                }
            }
        }
        Scalar { index }
    }

    /// Create a constant leaf; `value` is the bit pattern of the 32-bit
    /// floating-point constant.
    pub fn constant(&mut self, value: u32) -> (s: Scalar)
        requires
            old(self).wf(),
        ensures
            final(self)@ == old(self)@.push(Node { kind: Kind::Constant(value), memo: None }),
            s.index == old(self)@.len(),
            final(self).wf(),
            unlowered(old(self)@) ==> unlowered(final(self)@),
    {
        self.push_node(Kind::Constant(value))
    }

    /// Combine two handles under addition. The operands are shared, never
    /// copied: the new node refers to them by index.
    pub fn add(&mut self, a: Scalar, b: Scalar) -> (s: Scalar)
        requires
            old(self).wf(),
            a.index < old(self)@.len(),
            b.index < old(self)@.len(),
        ensures
            final(self)@ == old(self)@.push(Node { kind: Kind::Add(a.index, b.index), memo: None }),
            s.index == old(self)@.len(),
            final(self).wf(),
            unlowered(old(self)@) ==> unlowered(final(self)@),
    {
        self.push_node(Kind::Add(a.index, b.index))
    }

    /// Combine two handles under subtraction.
    pub fn sub(&mut self, a: Scalar, b: Scalar) -> (s: Scalar)
        requires
            old(self).wf(),
            a.index < old(self)@.len(),
            b.index < old(self)@.len(),
        ensures
            final(self)@ == old(self)@.push(Node { kind: Kind::Sub(a.index, b.index), memo: None }),
            s.index == old(self)@.len(),
            final(self).wf(),
            unlowered(old(self)@) ==> unlowered(final(self)@),
    {
        self.push_node(Kind::Sub(a.index, b.index))
    }

    /// Combine two handles under multiplication.
    pub fn mul(&mut self, a: Scalar, b: Scalar) -> (s: Scalar)
        requires
            old(self).wf(),
            a.index < old(self)@.len(),
            b.index < old(self)@.len(),
        ensures
            final(self)@ == old(self)@.push(Node { kind: Kind::Mul(a.index, b.index), memo: None }),
            s.index == old(self)@.len(),
            final(self).wf(),
            unlowered(old(self)@) ==> unlowered(final(self)@),
    {
        self.push_node(Kind::Mul(a.index, b.index))
    }

    /// Combine two handles under division.
    pub fn div(&mut self, a: Scalar, b: Scalar) -> (s: Scalar)
        requires
            old(self).wf(),
            a.index < old(self)@.len(),
            b.index < old(self)@.len(),
        ensures
            final(self)@ == old(self)@.push(Node { kind: Kind::Div(a.index, b.index), memo: None }),
            s.index == old(self)@.len(),
            final(self).wf(),
            unlowered(old(self)@) ==> unlowered(final(self)@),
    {
        self.push_node(Kind::Div(a.index, b.index))
    }
}

/// The monotonic slot allocator: hands out fresh, never-reused virtual
/// destination slot numbers during one lowering pass.
pub struct SlotAllocator {
    next: usize,
}

impl SlotAllocator {
    /// How many slots have been handed out so far; also the next slot.
    pub closed spec fn allocated(&self) -> int {
        self.next as int
    }

    /// A fresh allocator, starting at slot zero.
    pub fn new() -> (a: SlotAllocator)
        ensures
            a.allocated() == 0,
    {
        SlotAllocator { next: 0 }
    }

    /// Hand out the next slot number.
    pub fn fresh(&mut self) -> (s: usize)
        requires
            old(self).allocated() < usize::MAX,
        ensures
            s == old(self).allocated(),
            final(self).allocated() == old(self).allocated() + 1,
    {
        let s = self.next;
        self.next = self.next + 1;
        s
    }
}

/// The state of a lowering pass after visiting one node: the arena with
/// its memo fields as the visit left them, the whole program emitted so
/// far, and the slot holding the visited node's value.
pub struct Lowered {
    pub nodes: Seq<Node>,
    pub prog: Seq<Instruction>,
    pub ret: usize,
}

/// Emit one instruction for node `j`: allocate the next slot (slots count
/// up with the program), append the instruction, and record the slot in
/// the node's memo field.
pub open spec fn spec_emit(nodes: Seq<Node>, prog: Seq<Instruction>, j: int, op: Op) -> Lowered {
    let ret = prog.len() as usize;
    Lowered {
        nodes: nodes.update(j, Node { kind: nodes[j].kind, memo: Some(ret) }),
        prog: prog.push(Instruction { op, ret }),
        ret,
    }
}

/// The memoized lowering of node `j`, continuing the pass that has already
/// emitted `prog`. A node with its memo set contributes nothing — not even
/// a visit to its operands — and reports its recorded slot. A fresh
/// constant emits one load. A fresh binary node lowers its left operand
/// fully, then its right operand, then emits one instruction reading the
/// slots the two operands reported.
pub open spec fn spec_lower(nodes: Seq<Node>, prog: Seq<Instruction>, j: int) -> Lowered
    decreases j,
{
    if 0 <= j < nodes.len() && node_wf(nodes, j) {
        match nodes[j].memo {
            Some(s) => Lowered { nodes, prog, ret: s },
            None => match nodes[j].kind {
                Kind::Constant(v) => spec_emit(nodes, prog, j, Op::Constant(v)),
                Kind::Add(a, b) => {
                    let s1 = spec_lower(nodes, prog, a as int);
                    let s2 = spec_lower(s1.nodes, s1.prog, b as int);
                    spec_emit(s2.nodes, s2.prog, j, Op::Add(s1.ret, s2.ret))
                },
                Kind::Sub(a, b) => {
                    let s1 = spec_lower(nodes, prog, a as int);
                    let s2 = spec_lower(s1.nodes, s1.prog, b as int);
                    spec_emit(s2.nodes, s2.prog, j, Op::Sub(s1.ret, s2.ret))
                },
                Kind::Mul(a, b) => {
                    let s1 = spec_lower(nodes, prog, a as int);
                    let s2 = spec_lower(s1.nodes, s1.prog, b as int);
                    spec_emit(s2.nodes, s2.prog, j, Op::Mul(s1.ret, s2.ret))
                },
                Kind::Div(a, b) => {
                    let s1 = spec_lower(nodes, prog, a as int);
                    let s2 = spec_lower(s1.nodes, s1.prog, b as int);
                    spec_emit(s2.nodes, s2.prog, j, Op::Div(s1.ret, s2.ret))
                },
            },
        }
    } else {
        Lowered { nodes, prog, ret: 0 }
    }
}

/// How many nodes of the arena have been compiled (memo set).
pub open spec fn count_memoized(nodes: Seq<Node>) -> int
    decreases nodes.len(),
{
    if nodes.len() == 0 {
        0
    } else {
        count_memoized(nodes.drop_last()) + if nodes.last().memo is Some {
            1int
        } else {
            0int
        }
    }
}

proof fn lemma_count_bounds(nodes: Seq<Node>)
    ensures
        0 <= count_memoized(nodes) <= nodes.len(),
    decreases nodes.len(),
{
    if nodes.len() > 0 {
        lemma_count_bounds(nodes.drop_last());
    }
}

/// An arena with an uncompiled node has strictly fewer compiled nodes than
/// nodes.
proof fn lemma_count_missing(nodes: Seq<Node>, j: int)
    requires
        0 <= j < nodes.len(),
        nodes[j].memo is None,
    ensures
        count_memoized(nodes) < nodes.len(),
    decreases nodes.len(),
{
    if j == nodes.len() - 1 {
        lemma_count_bounds(nodes.drop_last());
    } else {
        lemma_count_missing(nodes.drop_last(), j);
    }
}

/// Setting one unset memo field raises the compiled count by one.
proof fn lemma_count_update(nodes: Seq<Node>, j: int, n2: Node)
    requires
        0 <= j < nodes.len(),
        nodes[j].memo is None,
        n2.memo is Some,
    ensures
        count_memoized(nodes.update(j, n2)) == count_memoized(nodes) + 1,
    decreases nodes.len(),
{
    let upd = nodes.update(j, n2);
    if j == nodes.len() - 1 {
        assert(upd.drop_last() =~= nodes.drop_last());
    } else {
        assert(upd.drop_last() =~= nodes.drop_last().update(j, n2));
        lemma_count_update(nodes.drop_last(), j, n2);
    }
}

/// Well-formedness reads only the nodes' kinds.
proof fn lemma_graph_wf_same_kinds(a: Seq<Node>, b: Seq<Node>)
    requires
        graph_wf(a),
        same_kinds(a, b),
    ensures
        graph_wf(b),
{
    assert forall|j: int| 0 <= j < b.len() implies node_wf(b, j) by {
        assert(node_wf(a, j));
        assert(b[j].kind == a[j].kind);
    }
}

/// The instruction `op` would emit for node `j` is faithful to the node:
/// the right constant payload, or the node's operation over the slots its
/// two operands were compiled to.
pub open spec fn op_matches_node(nodes: Seq<Node>, j: int, op: Op) -> bool {
    match nodes[j].kind {
        Kind::Constant(v) => op == Op::Constant(v),
        Kind::Add(a, b) => nodes[a as int].memo matches Some(sa)
            && nodes[b as int].memo matches Some(sb) && op == Op::Add(sa, sb),
        Kind::Sub(a, b) => nodes[a as int].memo matches Some(sa)
            && nodes[b as int].memo matches Some(sb) && op == Op::Sub(sa, sb),
        Kind::Mul(a, b) => nodes[a as int].memo matches Some(sa)
            && nodes[b as int].memo matches Some(sb) && op == Op::Mul(sa, sb),
        Kind::Div(a, b) => nodes[a as int].memo matches Some(sa)
            && nodes[b as int].memo matches Some(sb) && op == Op::Div(sa, sb),
    }
}

/// Whether node kind `k` has the node at index `s` as an operand.
pub open spec fn uses_operand(k: Kind, s: int) -> bool {
    match k {
        Kind::Constant(_) => false,
        Kind::Add(a, b) => a == s || b == s,
        Kind::Sub(a, b) => a == s || b == s,
        Kind::Mul(a, b) => a == s || b == s,
        Kind::Div(a, b) => a == s || b == s,
    }
}

/// A compiled node's slot holds, in the store the program builds, exactly
/// the node's direct evaluation.
pub open spec fn memo_ok_at(nodes: Seq<Node>, prog: Seq<Instruction>, j: int) -> bool {
    nodes[j].memo matches Some(s) ==> {
        &&& (s as int) < prog.len()
        &&& store_of(prog).dom().contains(s as int)
        &&& store_of(prog)[s as int] == node_eval(nodes, j)
    }
}

/// A compiled node's instruction is the one at its slot, and is faithful
/// to the node.
pub open spec fn node_instr_ok_at(nodes: Seq<Node>, prog: Seq<Instruction>, j: int) -> bool {
    nodes[j].memo matches Some(s) ==> op_matches_node(nodes, j, prog[s as int].op)
}

/// Distinct nodes are compiled to distinct slots.
pub open spec fn memo_injective(nodes: Seq<Node>) -> bool {
    forall|j1: int, j2: int|
        0 <= j1 < nodes.len() && 0 <= j2 < nodes.len() && nodes[j1].memo is Some
            && nodes[j1].memo == nodes[j2].memo ==> j1 == j2
}

/// Everything a lowering pass keeps true between node visits: the graph
/// and the program emitted so far are well formed, the program holds one
/// instruction per compiled node, and every compiled node's slot holds its
/// evaluation and its faithful instruction, each slot naming one node.
pub open spec fn lower_inv(nodes: Seq<Node>, prog: Seq<Instruction>) -> bool {
    &&& graph_wf(nodes)
    &&& nodes.len() <= usize::MAX
    &&& prog_wf(prog)
    &&& prog.len() == count_memoized(nodes)
    &&& forall|j: int| 0 <= j < nodes.len() ==> memo_ok_at(nodes, prog, j)
    &&& forall|j: int| 0 <= j < nodes.len() ==> node_instr_ok_at(nodes, prog, j)
    &&& memo_injective(nodes)
}

/// An arena with no node compiled has a compiled count of zero.
proof fn lemma_count_none(nodes: Seq<Node>)
    requires
        unlowered(nodes),
    ensures
        count_memoized(nodes) == 0,
    decreases nodes.len(),
{
    if nodes.len() > 0 {
        lemma_count_none(nodes.drop_last());
    }
}

/// Emitting a faithful instruction for an uncompiled node preserves the
/// lowering invariant; the new instruction's slot is the next one, and no
/// other node is touched.
proof fn lemma_emit(nodes: Seq<Node>, prog: Seq<Instruction>, j: int, op: Op)
    requires
        lower_inv(nodes, prog),
        0 <= j < nodes.len(),
        nodes[j].memo is None,
        op_matches_node(nodes, j, op),
    ensures
        ({
            let s = spec_emit(nodes, prog, j, op);
            &&& lower_inv(s.nodes, s.prog)
            &&& s.ret as int == prog.len()
            &&& s.prog == prog.push(Instruction { op, ret: s.ret })
            &&& s.nodes.len() == nodes.len()
            &&& same_kinds(nodes, s.nodes)
            &&& s.nodes[j].memo == Some(s.ret)
            &&& forall|m: int| 0 <= m < nodes.len() && m != j ==> s.nodes[m] == nodes[m]
        }),
{
    let s = spec_emit(nodes, prog, j, op);
    lemma_count_missing(nodes, j);
    assert(prog.len() < nodes.len() <= usize::MAX);
    assert(s.ret as int == prog.len());
    let newi = Instruction { op, ret: s.ret };
    assert(same_kinds(nodes, s.nodes));
    lemma_graph_wf_same_kinds(nodes, s.nodes);
    lemma_count_update(nodes, j, Node { kind: nodes[j].kind, memo: Some(s.ret) });
    // The new instruction reads only slots of already-compiled operands,
    // which lie below its own slot.
    assert forall|t: int| op_uses_slot(op, t) implies 0 <= t < prog.len() by {
        match nodes[j].kind {
            Kind::Constant(_) => {},
            Kind::Add(a, b) => {
                assert(memo_ok_at(nodes, prog, a as int));
                assert(memo_ok_at(nodes, prog, b as int));
            },
            Kind::Sub(a, b) => {
                assert(memo_ok_at(nodes, prog, a as int));
                assert(memo_ok_at(nodes, prog, b as int));
            },
            Kind::Mul(a, b) => {
                assert(memo_ok_at(nodes, prog, a as int));
                assert(memo_ok_at(nodes, prog, b as int));
            },
            Kind::Div(a, b) => {
                assert(memo_ok_at(nodes, prog, a as int));
                assert(memo_ok_at(nodes, prog, b as int));
            },
        }
    }
    assert forall|k: int| 0 <= k < s.prog.len() implies instr_wf(s.prog, k) by {
        if k < prog.len() {
            assert(instr_wf(prog, k));
            assert(s.prog[k] == prog[k]);
        }
    }
    // The store the extended program builds: the old store, with the new
    // slot holding the new instruction's value.
    assert(s.prog.drop_last() =~= prog);
    let store1 = store_of(s.prog);
    assert(store1 == store_of(prog).insert(s.ret as int, op_value(store_of(prog), op)));
    // The new slot holds exactly node j's evaluation.
    assert(node_wf(s.nodes, j));
    assert(store1[s.ret as int] == node_eval(s.nodes, j)) by {
        match nodes[j].kind {
            Kind::Constant(_) => {},
            Kind::Add(a, b) => {
                assert(memo_ok_at(nodes, prog, a as int));
                assert(memo_ok_at(nodes, prog, b as int));
                lemma_node_eval_same_kinds(nodes, s.nodes, a as int);
                lemma_node_eval_same_kinds(nodes, s.nodes, b as int);
            },
            Kind::Sub(a, b) => {
                assert(memo_ok_at(nodes, prog, a as int));
                assert(memo_ok_at(nodes, prog, b as int));
                lemma_node_eval_same_kinds(nodes, s.nodes, a as int);
                lemma_node_eval_same_kinds(nodes, s.nodes, b as int);
            },
            Kind::Mul(a, b) => {
                assert(memo_ok_at(nodes, prog, a as int));
                assert(memo_ok_at(nodes, prog, b as int));
                lemma_node_eval_same_kinds(nodes, s.nodes, a as int);
                lemma_node_eval_same_kinds(nodes, s.nodes, b as int);
            },
            Kind::Div(a, b) => {
                assert(memo_ok_at(nodes, prog, a as int));
                assert(memo_ok_at(nodes, prog, b as int));
                lemma_node_eval_same_kinds(nodes, s.nodes, a as int);
                lemma_node_eval_same_kinds(nodes, s.nodes, b as int);
            },
        }
    }
    assert forall|m: int| 0 <= m < s.nodes.len() implies memo_ok_at(s.nodes, s.prog, m) by {
        if m != j && s.nodes[m].memo is Some {
            let sm = s.nodes[m].memo->0 as int;
            assert(memo_ok_at(nodes, prog, m));
            lemma_store_prefix(prog, seq![newi], sm);
            assert(prog + seq![newi] =~= s.prog);
            lemma_node_eval_same_kinds(nodes, s.nodes, m);
        }
    }
    assert forall|m: int| 0 <= m < s.nodes.len() implies node_instr_ok_at(s.nodes, s.prog, m) by {
        if s.nodes[m].memo is Some {
            if m == j {
                assert(s.prog[s.ret as int].op == op);
            } else {
                assert(node_instr_ok_at(nodes, prog, m));
                let sm = s.nodes[m].memo->0 as int;
                assert(memo_ok_at(nodes, prog, m));
                assert(s.prog[sm] == prog[sm]);
            }
        }
    }
    assert(memo_injective(s.nodes)) by {
        assert forall|m: int|
            0 <= m < s.nodes.len() && m != j && s.nodes[m].memo is Some implies s.nodes[m].memo->0
            != s.ret by {
            assert(memo_ok_at(nodes, prog, m));
        }
    }
}

/// The operand indices of a binary node kind.
pub open spec fn kind_operands(k: Kind) -> Option<(usize, usize)> {
    match k {
        Kind::Constant(_) => None,
        Kind::Add(a, b) => Some((a, b)),
        Kind::Sub(a, b) => Some((a, b)),
        Kind::Mul(a, b) => Some((a, b)),
        Kind::Div(a, b) => Some((a, b)),
    }
}

/// The instruction operation for a binary node kind over the slots its two
/// operands were compiled to.
pub open spec fn binary_op(k: Kind, sa: usize, sb: usize) -> Op {
    match k {
        Kind::Constant(v) => Op::Constant(v),
        Kind::Add(_, _) => Op::Add(sa, sb),
        Kind::Sub(_, _) => Op::Sub(sa, sb),
        Kind::Mul(_, _) => Op::Mul(sa, sb),
        Kind::Div(_, _) => Op::Div(sa, sb),
    }
}

/// The bundle of facts one lowering step guarantees: the invariant again,
/// the emitted-so-far program only extended, compiled nodes untouched,
/// nodes beyond `j` untouched, node `j` now compiled to the reported slot
/// — freshly, as the last instruction, unless its memo was already set, in
/// which case nothing at all changed.
pub open spec fn lower_step_ok(nodes: Seq<Node>, prog: Seq<Instruction>, j: int) -> bool {
    let s = spec_lower(nodes, prog, j);
    &&& lower_inv(s.nodes, s.prog)
    &&& s.nodes.len() == nodes.len()
    &&& same_kinds(nodes, s.nodes)
    &&& s.prog.len() >= prog.len()
    &&& forall|k: int| 0 <= k < prog.len() ==> s.prog[k] == prog[k]
    &&& forall|m: int|
        0 <= m < nodes.len() && nodes[m].memo is Some ==> s.nodes[m].memo == nodes[m].memo
    &&& forall|m: int| j < m < nodes.len() ==> s.nodes[m] == nodes[m]
    &&& s.nodes[j].memo == Some(s.ret)
    &&& (nodes[j].memo matches Some(r0) ==> s.prog == prog && s.nodes == nodes && s.ret == r0)
    &&& (nodes[j].memo is None ==> s.prog.len() > prog.len() && s.ret as int == s.prog.len() - 1)
}

/// Lowering one node of a well-formed pass keeps the pass well formed and
/// reports a slot holding the node's evaluation (via the invariant).
pub proof fn lemma_spec_lower(nodes: Seq<Node>, prog: Seq<Instruction>, j: int)
    requires
        lower_inv(nodes, prog),
        0 <= j < nodes.len(),
    ensures
        lower_step_ok(nodes, prog, j),
    decreases j, 1int,
{
    assert(node_wf(nodes, j));
    match nodes[j].memo {
        Some(_) => {},
        None => match nodes[j].kind {
            Kind::Constant(v) => {
                lemma_emit(nodes, prog, j, Op::Constant(v));
            },
            Kind::Add(a, b) => {
                lemma_spec_lower_binary(nodes, prog, j, a, b);
            },
            Kind::Sub(a, b) => {
                lemma_spec_lower_binary(nodes, prog, j, a, b);
            },
            Kind::Mul(a, b) => {
                lemma_spec_lower_binary(nodes, prog, j, a, b);
            },
            Kind::Div(a, b) => {
                lemma_spec_lower_binary(nodes, prog, j, a, b);
            },
        },
    }
}

/// The binary arm of `lemma_spec_lower`: the left operand's whole
/// sub-expression is lowered first, then the right operand's, then one
/// instruction for the node itself.
proof fn lemma_spec_lower_binary(nodes: Seq<Node>, prog: Seq<Instruction>, j: int, a: usize, b: usize)
    requires
        lower_inv(nodes, prog),
        0 <= j < nodes.len(),
        node_wf(nodes, j),
        nodes[j].memo is None,
        kind_operands(nodes[j].kind) == Some((a, b)),
    ensures
        lower_step_ok(nodes, prog, j),
    decreases j, 0int,
{
    let k = nodes[j].kind;
    assert(a < j && b < j);
    let s1 = spec_lower(nodes, prog, a as int);
    lemma_spec_lower(nodes, prog, a as int);
    let s2 = spec_lower(s1.nodes, s1.prog, b as int);
    lemma_spec_lower(s1.nodes, s1.prog, b as int);
    assert(s2.nodes[a as int].memo == Some(s1.ret));
    assert(s2.nodes[b as int].memo == Some(s2.ret));
    assert(s1.nodes[j] == nodes[j]);
    assert(s2.nodes[j] == nodes[j]);
    assert(s2.nodes[j].kind == k);
    let op = binary_op(k, s1.ret, s2.ret);
    assert(op_matches_node(s2.nodes, j, op));
    lemma_emit(s2.nodes, s2.prog, j, op);
    let s = spec_emit(s2.nodes, s2.prog, j, op);
    assert(spec_lower(nodes, prog, j) == s);
    assert(same_kinds(nodes, s.nodes));
    assert forall|m: int|
        0 <= m < nodes.len() && nodes[m].memo is Some implies s.nodes[m].memo == nodes[m].memo by {
        assert(s1.nodes[m].memo == nodes[m].memo);
        assert(s2.nodes[m].memo == nodes[m].memo);
        assert(m != j);
    }
    assert forall|m: int| j < m < nodes.len() implies s.nodes[m] == nodes[m] by {
        assert(s1.nodes[m] == nodes[m]);
        assert(s2.nodes[m] == nodes[m]);
    }
    assert(s.prog.len() > prog.len());
}

/// What lowering one node reports to its parent: either the node had
/// already been compiled earlier in the same pass (no new instructions;
/// reuse the recorded slot), or it was compiled just now, together with
/// the newly emitted instructions that produce the returned slot.
pub enum CompileResult {
    AlreadyCompiled(usize),
    Compiled(Vec<Instruction>, usize),
}

impl CompileResult {
    /// The slot holding the node's value, in either case.
    pub fn get_ret(&self) -> (r: usize)
        ensures
            match self {
                CompileResult::AlreadyCompiled(ret) => r == ret,
                CompileResult::Compiled(_, ret) => r == ret,
            },
    {
        match self {
            CompileResult::AlreadyCompiled(ret) => *ret,
            CompileResult::Compiled(_, ret) => *ret,
        }
    }

    /// The newly emitted instructions: none for an already-compiled node,
    /// whose instructions were collected at its first compilation point.
    pub fn get_instructions(&self) -> (r: Option<Vec<Instruction>>)
        ensures
            match self {
                CompileResult::AlreadyCompiled(_) => r is None,
                CompileResult::Compiled(instructions, _) => {
                    r matches Some(v) && v@ == instructions@
                },
            },
    {
        match self {
            CompileResult::AlreadyCompiled(_) => None,
            CompileResult::Compiled(instructions, _) => Some(instructions.clone()),
        }
    }
}

impl Graph {
    /// Lower node `j` as part of the pass that has already emitted `prog`:
    /// a memoized node answers from its memo without visiting its operands;
    /// a fresh node is compiled, its memo set, and the newly emitted
    /// instructions returned. Behaves exactly as `spec_lower` says.
    fn compile_node(
        &mut self,
        j: usize,
        alloc: &mut SlotAllocator,
        Ghost(prog): Ghost<Seq<Instruction>>,
    ) -> (r: CompileResult)
        requires
            lower_inv(old(self)@, prog),
            j < old(self)@.len(),
            old(alloc).allocated() == prog.len(),
        ensures
            ({
                let s = spec_lower(old(self)@, prog, j as int);
                &&& final(self)@ == s.nodes
                &&& final(alloc).allocated() == s.prog.len()
                &&& match r {
                    CompileResult::AlreadyCompiled(ret) => {
                        &&& ret == s.ret
                        &&& s.prog == prog
                        &&& old(self)@[j as int].memo == Some(ret)
                    },
                    CompileResult::Compiled(instrs, ret) => {
                        &&& ret == s.ret
                        &&& s.prog == prog + instrs@
                        &&& instrs@.len() > 0
                        &&& old(self)@[j as int].memo is None
                    },
                }
            }),
        decreases j, 1int,
    {
        proof {
            assert(node_wf(old(self)@, j as int));
        }
        let node = self.nodes[j];
        match node.memo {
            Some(ret) => {
                proof {
                    assert(prog + Seq::<Instruction>::empty() =~= prog);
                }
                CompileResult::AlreadyCompiled(ret)
            },
            None => match node.kind {
                Kind::Constant(v) => {
                    proof {
                        lemma_count_missing(self@, j as int);
                    }
                    let ret = alloc.fresh();
                    self.nodes[j] = Node { kind: Kind::Constant(v), memo: Some(ret) };
                    let mut instrs: Vec<Instruction> = Vec::new();
                    instrs.push(instruction::constant(v, ret));
                    proof {
                        let s = spec_lower(old(self)@, prog, j as int);
                        assert(s == spec_emit(old(self)@, prog, j as int, Op::Constant(v)));
                        assert(self@ =~= s.nodes);
                        assert(s.prog =~= prog + instrs@);
                    }
                    CompileResult::Compiled(instrs, ret)
                },
                Kind::Add(a, b) => self.compile_binary(j, a, b, alloc, Ghost(prog)),
                Kind::Sub(a, b) => self.compile_binary(j, a, b, alloc, Ghost(prog)),
                Kind::Mul(a, b) => self.compile_binary(j, a, b, alloc, Ghost(prog)),
                Kind::Div(a, b) => self.compile_binary(j, a, b, alloc, Ghost(prog)),
            },
        }
    }

    /// The binary case of `compile_node`: lower the left operand, then the
    /// right, keep only the instructions of operands compiled just now (a
    /// memoized operand contributes none), and emit one instruction over
    /// the slots the two operands reported.
    fn compile_binary(
        &mut self,
        j: usize,
        a: usize,
        b: usize,
        alloc: &mut SlotAllocator,
        Ghost(prog): Ghost<Seq<Instruction>>,
    ) -> (r: CompileResult)
        requires
            lower_inv(old(self)@, prog),
            j < old(self)@.len(),
            node_wf(old(self)@, j as int),
            old(self)@[j as int].memo is None,
            kind_operands(old(self)@[j as int].kind) == Some((a, b)),
            old(alloc).allocated() == prog.len(),
        ensures
            ({
                let s = spec_lower(old(self)@, prog, j as int);
                &&& final(self)@ == s.nodes
                &&& final(alloc).allocated() == s.prog.len()
                &&& match r {
                    CompileResult::AlreadyCompiled(ret) => false,
                    CompileResult::Compiled(instrs, ret) => {
                        &&& ret == s.ret
                        &&& s.prog == prog + instrs@
                        &&& instrs@.len() > 0
                    },
                }
            }),
        decreases j, 0int,
    {
        let ghost nodes0 = self@;
        let kind = self.nodes[j].kind;
        proof {
            assert(a < j && b < j);
        }
        let ra = self.compile_node(a, alloc, Ghost(prog));
        let ghost s1 = spec_lower(nodes0, prog, a as int);
        proof {
            lemma_spec_lower(nodes0, prog, a as int);
        }
        let rb = self.compile_node(b, alloc, Ghost(s1.prog));
        let ghost s2 = spec_lower(s1.nodes, s1.prog, b as int);
        proof {
            lemma_spec_lower(s1.nodes, s1.prog, b as int);
            assert(s2.nodes[j as int] == nodes0[j as int]);
            lemma_count_missing(s2.nodes, j as int);
        }
        let ra_ret = ra.get_ret();
        let rb_ret = rb.get_ret();
        let mut instrs: Vec<Instruction> = Vec::new();
        match ra {
            CompileResult::Compiled(mut v, _) => {
                instrs.append(&mut v);
            },
            CompileResult::AlreadyCompiled(_) => {},
        }
        match rb {
            CompileResult::Compiled(mut v, _) => {
                instrs.append(&mut v);
            },
            CompileResult::AlreadyCompiled(_) => {},
        }
        proof {
            assert(prog + instrs@ =~= s2.prog);
        }
        let ret = alloc.fresh();
        self.nodes[j] = Node { kind, memo: Some(ret) };
        let instr = match kind {
            Kind::Constant(v) => instruction::constant(v, ret),
            Kind::Add(_, _) => instruction::add(ra_ret, rb_ret, ret),
            Kind::Sub(_, _) => instruction::sub(ra_ret, rb_ret, ret),
            Kind::Mul(_, _) => instruction::mul(ra_ret, rb_ret, ret),
            Kind::Div(_, _) => instruction::div(ra_ret, rb_ret, ret),
        };
        instrs.push(instr);
        proof {
            let op = binary_op(kind, s1.ret, s2.ret);
            let s = spec_emit(s2.nodes, s2.prog, j as int, op);
            assert(spec_lower(nodes0, prog, j as int) == s);
            assert(instr == (Instruction { op, ret }));
            assert(self@ =~= s.nodes);
            assert(s.prog =~= prog + instrs@);
        }
        CompileResult::Compiled(instrs, ret)
    }

    /// Lower the whole expression under `root` to a flat program.
    ///
    /// The returned instructions, executed in order against a slot-indexed
    /// store, leave at the last slot — the reported result slot — exactly
    /// the term `root` evaluates to directly. Each node reachable from
    /// `root` is compiled exactly once, however many parents share it, so
    /// the program's length is the number of distinct compiled nodes, and
    /// its destination slots are exactly `0, 1, ...` in emission order.
    ///
    /// One lowering pass owns its memo state from scratch: the graph must
    /// not have been lowered before, and afterwards its memo fields hold
    /// this pass's slots.
    pub fn compile(&mut self, root: Scalar) -> (r: Vec<Instruction>)
        requires
            old(self).wf(),
            unlowered(old(self)@),
            root.index < old(self)@.len(),
        ensures
            ({
                let s = spec_lower(old(self)@, Seq::<Instruction>::empty(), root.index as int);
                &&& r@ == s.prog
                &&& final(self)@ == s.nodes
            }),
            prog_wf(r@),
            r@.len() > 0,
            store_of(r@).dom().contains(r@.len() - 1),
            store_of(r@)[r@.len() - 1] == node_eval(old(self)@, root.index as int),
            r@.len() == count_memoized(final(self)@),
            same_kinds(old(self)@, final(self)@),
            lower_inv(final(self)@, r@),
            final(self)@[root.index as int].memo == Some((r@.len() - 1) as usize),
    {
        // Reading the arena's length as a machine word bounds it.
        let node_total = self.nodes.len();
        let ghost prog0 = Seq::<Instruction>::empty();
        proof {
            assert(self@.len() == node_total <= usize::MAX);
            lemma_count_none(self@);
            assert(lower_inv(self@, prog0));
        }
        let mut alloc = SlotAllocator::new();
        let result = self.compile_node(root.index, &mut alloc, Ghost(prog0));
        proof {
            lemma_spec_lower(old(self)@, prog0, root.index as int);
            let s = spec_lower(old(self)@, prog0, root.index as int);
            assert(memo_ok_at(s.nodes, s.prog, root.index as int));
            lemma_node_eval_same_kinds(s.nodes, old(self)@, root.index as int);
        }
        match result {
            CompileResult::Compiled(instrs, _) => {
                proof {
                    assert(prog0 + instrs@ =~= instrs@);
                }
                instrs
            },
            CompileResult::AlreadyCompiled(_) => {
                // A root reporting "already compiled" would mean it had been
                // visited before its own pass began; the fresh-memo
                // precondition rules that out.
                proof {
                    assert(false);
                }
                vstd::pervasive::unreached()
            },
        }
    }
}

} // verus!
