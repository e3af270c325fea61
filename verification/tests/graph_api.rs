use rust_lazy::instruction;
use rust_lazy::instruction::{Instruction, Op};
use rust_lazy::operation::{CompileResult, Graph, Kind};

#[test]
fn instruction_constructors_build_expected_values() {
    assert_eq!(
        instruction::constant(7, 0),
        Instruction { op: Op::Constant(7), ret: 0 }
    );
    assert_eq!(instruction::add(0, 1, 2), Instruction { op: Op::Add(0, 1), ret: 2 });
    assert_eq!(instruction::sub(3, 4, 5), Instruction { op: Op::Sub(3, 4), ret: 5 });
    assert_eq!(instruction::mul(1, 1, 2), Instruction { op: Op::Mul(1, 1), ret: 2 });
    assert_eq!(instruction::div(2, 0, 3), Instruction { op: Op::Div(2, 0), ret: 3 });
}

#[test]
fn compile_result_get_ret_reports_the_slot() {
    let already = CompileResult::AlreadyCompiled(4);
    assert_eq!(already.get_ret(), 4);
    let compiled = CompileResult::Compiled(vec![instruction::constant(1, 7)], 7);
    assert_eq!(compiled.get_ret(), 7);
}

#[test]
fn compile_result_get_instructions_only_for_fresh_compilation() {
    let already = CompileResult::AlreadyCompiled(4);
    assert!(already.get_instructions().is_none());
    let compiled = CompileResult::Compiled(vec![instruction::constant(1, 0)], 0);
    assert_eq!(
        compiled.get_instructions(),
        Some(vec![Instruction { op: Op::Constant(1), ret: 0 }])
    );
}

#[test]
fn graph_builders_record_kinds_and_operands() {
    let mut g = Graph::new();
    assert_eq!(g.node_count(), 0);
    let a = g.constant(6.5f32.to_bits());
    let b = g.constant(0.25f32.to_bits());
    let s = g.mul(a, b);
    assert_eq!(g.node_count(), 3);
    assert_eq!(g.node(a).kind, Kind::Constant(6.5f32.to_bits()));
    assert_eq!(g.node(b).kind, Kind::Constant(0.25f32.to_bits()));
    assert_eq!(g.node(s).kind, Kind::Mul(a.index, b.index));
    assert_eq!(g.node(s).memo, None);
}

#[test]
fn compile_sets_memo_fields_once() {
    let mut g = Graph::new();
    let a = g.constant(1.0f32.to_bits());
    let s = g.add(a, a);
    let prog = g.compile(s);
    assert_eq!(g.node(a).memo, Some(0));
    assert_eq!(g.node(s).memo, Some(1));
    assert_eq!(prog.len(), 2);
}
