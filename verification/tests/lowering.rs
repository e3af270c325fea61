use rust_lazy::instruction::{Instruction, Op};
use rust_lazy::operation::Graph;

/// Execute a lowered program in order against a slot-indexed store and
/// return the store, checking as it runs that destination slots are
/// exactly 0, 1, ... in emission order.
fn run_program(prog: &[Instruction]) -> Vec<f32> {
    let mut store: Vec<f32> = Vec::new();
    for i in prog {
        let v = match i.op {
            Op::Constant(bits) => f32::from_bits(bits),
            Op::Add(a, b) => store[a] + store[b],
            Op::Sub(a, b) => store[a] - store[b],
            Op::Mul(a, b) => store[a] * store[b],
            Op::Div(a, b) => store[a] / store[b],
        };
        assert_eq!(i.ret, store.len());
        store.push(v);
    }
    store
}

#[test]
fn add_of_two_constants_lowers_and_executes() {
    let mut g = Graph::new();
    let c1 = g.constant(1.0f32.to_bits());
    let c2 = g.constant(2.0f32.to_bits());
    let sum = g.add(c1, c2);
    let prog = g.compile(sum);
    assert_eq!(
        prog,
        vec![
            Instruction { op: Op::Constant(1.0f32.to_bits()), ret: 0 },
            Instruction { op: Op::Constant(2.0f32.to_bits()), ret: 1 },
            Instruction { op: Op::Add(0, 1), ret: 2 },
        ]
    );
    let store = run_program(&prog);
    assert_eq!(store[prog.len() - 1], 3.0f32);
}

#[test]
fn constant_lowers_to_a_single_load() {
    let mut g = Graph::new();
    let c = g.constant(2.5f32.to_bits());
    let prog = g.compile(c);
    assert_eq!(prog, vec![Instruction { op: Op::Constant(2.5f32.to_bits()), ret: 0 }]);
    let store = run_program(&prog);
    assert_eq!(store[0], 2.5f32);
}

#[test]
fn div_of_constants_executes() {
    let mut g = Graph::new();
    let c6 = g.constant(6.0f32.to_bits());
    let c3 = g.constant(3.0f32.to_bits());
    let q = g.div(c6, c3);
    let prog = g.compile(q);
    let store = run_program(&prog);
    assert_eq!(store[prog.len() - 1], 2.0f32);
}

#[test]
fn sub_of_constants_lowers_and_executes() {
    let mut g = Graph::new();
    let c1 = g.constant(1.0f32.to_bits());
    let c0 = g.constant(0.0f32.to_bits());
    let d = g.sub(c1, c0);
    let prog = g.compile(d);
    assert_eq!(prog[2], Instruction { op: Op::Sub(0, 1), ret: 2 });
    let store = run_program(&prog);
    assert_eq!(store[prog.len() - 1], 1.0f32);
}

#[test]
fn mul_of_constants_executes() {
    let mut g = Graph::new();
    let c4 = g.constant(4.0f32.to_bits());
    let c5 = g.constant(5.0f32.to_bits());
    let p = g.mul(c4, c5);
    let prog = g.compile(p);
    assert_eq!(prog[2], Instruction { op: Op::Mul(0, 1), ret: 2 });
    let store = run_program(&prog);
    assert_eq!(store[prog.len() - 1], 20.0f32);
}

#[test]
fn division_by_zero_yields_infinity() {
    let mut g = Graph::new();
    let c1 = g.constant(1.0f32.to_bits());
    let c0 = g.constant(0.0f32.to_bits());
    let q = g.div(c1, c0);
    let prog = g.compile(q);
    let store = run_program(&prog);
    assert_eq!(store[prog.len() - 1], f32::INFINITY);
}

#[test]
fn shared_operand_is_compiled_once() {
    let mut g = Graph::new();
    let x = g.constant(5.0f32.to_bits());
    let y = g.add(x, x);
    let prog = g.compile(y);
    // One constant load and one addition reading the same slot twice —
    // two instructions, not three.
    assert_eq!(
        prog,
        vec![
            Instruction { op: Op::Constant(5.0f32.to_bits()), ret: 0 },
            Instruction { op: Op::Add(0, 0), ret: 1 },
        ]
    );
    let store = run_program(&prog);
    assert_eq!(store[prog.len() - 1], 10.0f32);
}

#[test]
fn lowering_is_deterministic_across_fresh_copies() {
    let build = |g: &mut Graph| {
        let s1 = g.constant(1.0f32.to_bits());
        let s2 = g.constant(2.0f32.to_bits());
        let s3 = g.constant(3.0f32.to_bits());
        let a = g.add(s1, s2);
        let m = g.mul(a, s3);
        g.div(m, a)
    };
    let mut g1 = Graph::new();
    let root1 = build(&mut g1);
    let mut g2 = Graph::new();
    let root2 = build(&mut g2);
    let prog1 = g1.compile(root1);
    let prog2 = g2.compile(root2);
    assert_eq!(prog1, prog2);
}

#[test]
fn destination_slots_are_dense_on_a_dag() {
    // The shared sub-expressions make the graph a DAG, not a tree.
    let mut g = Graph::new();
    let s1 = g.constant(1.0f32.to_bits());
    let s2 = g.constant(2.0f32.to_bits());
    let s3 = g.constant(3.0f32.to_bits());
    let s4 = g.constant(4.0f32.to_bits());
    let s5 = g.constant(5.0f32.to_bits());
    let add = g.add(s1, s2);
    let sub = g.sub(s3, s4);
    let mul = g.mul(s5, add);
    let mulop = g.mul(add, sub);
    let divop = g.div(add, mul);
    let res = g.add(mulop, divop);
    let prog = g.compile(res);
    // Every node is reachable from the root, so each of the 11 nodes is
    // compiled exactly once.
    assert_eq!(prog.len(), 11);
    for (k, i) in prog.iter().enumerate() {
        assert_eq!(i.ret, k);
    }
}

#[test]
fn dag_program_matches_direct_evaluation() {
    let mut g = Graph::new();
    let s1 = g.constant(1.0f32.to_bits());
    let s2 = g.constant(2.0f32.to_bits());
    let s3 = g.constant(3.0f32.to_bits());
    let s4 = g.constant(4.0f32.to_bits());
    let s5 = g.constant(5.0f32.to_bits());
    let add = g.add(s1, s2);
    let sub = g.sub(s3, s4);
    let mul = g.mul(s5, add);
    let mulop = g.mul(add, sub);
    let divop = g.div(add, mul);
    let res = g.add(mulop, divop);
    let prog = g.compile(res);
    let store = run_program(&prog);
    // Direct floating-point evaluation of the same expression.
    let add_v = 1.0f32 + 2.0f32;
    let sub_v = 3.0f32 - 4.0f32;
    let mul_v = 5.0f32 * add_v;
    let expected = add_v * sub_v + add_v / mul_v;
    assert_eq!(store[prog.len() - 1], expected);
}

#[test]
fn shared_operand_slot_is_referenced_by_both_parents() {
    let mut g = Graph::new();
    let shared = g.constant(2.0f32.to_bits());
    let c3 = g.constant(3.0f32.to_bits());
    let p1 = g.add(shared, c3);
    let p2 = g.mul(shared, c3);
    let root = g.sub(p1, p2);
    let prog = g.compile(root);
    // shared is loaded once, at slot 0, and both parents read slot 0.
    assert_eq!(prog[0], Instruction { op: Op::Constant(2.0f32.to_bits()), ret: 0 });
    assert_eq!(prog[2], Instruction { op: Op::Add(0, 1), ret: 2 });
    assert_eq!(prog[3], Instruction { op: Op::Mul(0, 1), ret: 3 });
    assert_eq!(prog.len(), 5);
}

#[test]
fn left_operand_lowers_before_right() {
    let mut g = Graph::new();
    let left = g.constant(8.0f32.to_bits());
    let right = g.constant(9.0f32.to_bits());
    let root = g.sub(left, right);
    let prog = g.compile(root);
    assert_eq!(prog[0].op, Op::Constant(8.0f32.to_bits()));
    assert_eq!(prog[1].op, Op::Constant(9.0f32.to_bits()));
}
