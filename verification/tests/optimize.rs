use chasm_amine::amine::{
    Instruction as AI, NoOpOpcode as ANOO, RawRegOp, RegOp, Register, SingleOpOpcode as ASOO,
    TwoOpOpcode as ATOO,
};
use chasm_amine::chasm::{Instruction as CI, NoOpOpcode, Operand, TwoOpOpcode};
use chasm_amine::optimize_amine::minimize_amine;
use chasm_amine::optimize_chasm::minimize;

fn reg(r: Register) -> RegOp {
    RegOp::Direct(RawRegOp::Register(r))
}

fn val(v: u16) -> RegOp {
    RegOp::Direct(RawRegOp::Value(v))
}

fn add(r: Register, v: u16) -> AI {
    AI::TwoOp(ATOO::Add, reg(r), val(v))
}

fn push(r: Register) -> AI {
    AI::SingleOp(ASOO::Push, reg(r))
}

fn pop(r: Register) -> AI {
    AI::SingleOp(ASOO::Pop, reg(r))
}

fn var(s: &str) -> Operand {
    Operand::Variable(s.to_string())
}

#[test]
fn empty_code_stays_empty() {
    assert_eq!(minimize_amine(vec![]), vec![]);
}

#[test]
fn additions_to_the_same_operand_are_summed() {
    let code = vec![add(Register::R0, 1), add(Register::R0, 2), add(Register::R0, 3)];
    assert_eq!(minimize_amine(code), vec![add(Register::R0, 6)]);
}

#[test]
fn additions_to_different_operands_stay() {
    let code = vec![add(Register::R0, 1), add(Register::R1, 2), add(Register::R0, 3)];
    assert_eq!(minimize_amine(code), vec![add(Register::R0, 1), add(Register::R1, 2), add(Register::R0, 3)]);
}

#[test]
fn additions_of_registers_stay() {
    let code = vec![
        AI::TwoOp(ATOO::Add, reg(Register::R0), reg(Register::R1)),
        AI::TwoOp(ATOO::Add, reg(Register::R0), reg(Register::R1)),
    ];
    assert_eq!(minimize_amine(code), vec![
        AI::TwoOp(ATOO::Add, reg(Register::R0), reg(Register::R1)),
        AI::TwoOp(ATOO::Add, reg(Register::R0), reg(Register::R1)),
    ]);
}

#[test]
fn sum_up_to_the_largest_16_bit_value() {
    let code = vec![add(Register::RS, 65000), add(Register::RS, 535)];
    assert_eq!(minimize_amine(code), vec![add(Register::RS, 65535)]);
}

#[test]
fn pushes_are_paired_in_order() {
    let code = vec![push(Register::R2), push(Register::R3), push(Register::R4)];
    assert_eq!(minimize_amine(code), vec![
        AI::TwoOp(ATOO::PushT, reg(Register::R2), reg(Register::R3)),
        push(Register::R4),
    ]);
}

#[test]
fn pops_are_paired_in_reverse() {
    let code = vec![pop(Register::R5), pop(Register::R4), AI::NoOp(ANOO::Ret)];
    assert_eq!(minimize_amine(code), vec![
        AI::TwoOp(ATOO::PopT, reg(Register::R4), reg(Register::R5)),
        AI::NoOp(ANOO::Ret),
    ]);
}

#[test]
fn push_then_pop_is_not_paired() {
    let code = vec![push(Register::R2), pop(Register::R2)];
    assert_eq!(minimize_amine(code), vec![push(Register::R2), pop(Register::R2)]);
}

#[test]
fn peephole_is_idempotent_on_an_example() {
    let code = || {
        vec![
            AI::Label("f".to_string()),
            add(Register::RS, 2),
            add(Register::RS, 3),
            push(Register::R2),
            push(Register::R3),
            push(Register::R4),
            pop(Register::R4),
            pop(Register::R3),
            pop(Register::R2),
            AI::Blank,
        ]
    };
    let once = minimize_amine(code());
    assert_eq!(once, vec![
        AI::Label("f".to_string()),
        add(Register::RS, 5),
        AI::TwoOp(ATOO::PushT, reg(Register::R2), reg(Register::R3)),
        push(Register::R4),
        AI::TwoOp(ATOO::PopT, reg(Register::R3), reg(Register::R4)),
        pop(Register::R2),
        AI::Blank,
    ]);
    let twice = minimize_amine(minimize_amine(code()));
    assert_eq!(twice, once);
    assert!(once.len() <= code().len());
}

#[test]
fn adding_or_shifting_by_zero_is_dropped() {
    for o in [TwoOpOpcode::Add, TwoOpOpcode::Sub, TwoOpOpcode::Shl, TwoOpOpcode::Shr] {
        assert_eq!(minimize(CI::TwoOp(o, var("x"), Operand::Constant(0))), None);
    }
    assert_eq!(
        minimize(CI::TwoOp(TwoOpOpcode::Mul, var("x"), Operand::Constant(0))),
        Some(CI::TwoOp(TwoOpOpcode::Mul, var("x"), Operand::Constant(0)))
    );
    assert_eq!(
        minimize(CI::TwoOp(TwoOpOpcode::Add, var("x"), Operand::Constant(1))),
        Some(CI::TwoOp(TwoOpOpcode::Add, var("x"), Operand::Constant(1)))
    );
}

#[test]
fn moving_a_variable_to_itself_is_dropped() {
    assert_eq!(minimize(CI::TwoOp(TwoOpOpcode::Mov, var("x"), var("x"))), None);
    assert_eq!(minimize(CI::TwoOp(TwoOpOpcode::Sub, var("x"), var("x"))), None);
    assert_eq!(
        minimize(CI::TwoOp(TwoOpOpcode::Add, var("x"), var("x"))),
        Some(CI::TwoOp(TwoOpOpcode::Add, var("x"), var("x")))
    );
    assert_eq!(
        minimize(CI::TwoOp(TwoOpOpcode::Mov, var("x"), var("y"))),
        Some(CI::TwoOp(TwoOpOpcode::Mov, var("x"), var("y")))
    );
}

#[test]
fn scopes_become_alloc_scopes_with_simplified_bodies() {
    let inner = vec![
        CI::TwoOp(TwoOpOpcode::Shl, var("x"), Operand::Constant(0)),
        CI::Result("r".to_string(), 2, vec![CI::TwoOp(TwoOpOpcode::Mov, var("r"), var("r"))]),
        CI::NoOp(NoOpOpcode::Ret),
    ];
    let out = minimize(CI::Param("x".to_string(), 4, inner));
    let expected = CI::Alloc(
        "x".to_string(),
        4,
        vec![CI::Alloc("r".to_string(), 2, vec![]), CI::NoOp(NoOpOpcode::Ret)],
    );
    assert_eq!(out, Some(expected));
    // simplifying again changes nothing
    let again = minimize(minimize(CI::Param("x".to_string(), 4, vec![CI::NoOp(NoOpOpcode::Nop)])).unwrap());
    assert_eq!(again, Some(CI::Alloc("x".to_string(), 4, vec![CI::NoOp(NoOpOpcode::Nop)])));
}
