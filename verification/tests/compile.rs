use chasm_amine::amine::{
    Instruction as AI, NoOpOpcode as ANOO, RawRegOp, RegOp, Register, SingleOpOpcode as ASOO,
    TwoOpOpcode as ATOO,
};
use chasm_amine::chasm::{
    Instruction as CI, NoOpOpcode, Operand, Section, SingleOpOpcode, TwoOpOpcode,
};
use chasm_amine::compile_chasm_to_amine;

fn reg(r: Register) -> RegOp {
    RegOp::Direct(RawRegOp::Register(r))
}

fn val(v: u16) -> RegOp {
    RegOp::Direct(RawRegOp::Value(v))
}

fn at(v: u16) -> RegOp {
    RegOp::Indirect(RawRegOp::Value(v))
}

fn sym(s: &str) -> RegOp {
    RegOp::Direct(RawRegOp::Const(s.to_string()))
}

fn var(s: &str) -> Operand {
    Operand::Variable(s.to_string())
}

fn header() -> Vec<AI> {
    vec![
        AI::TwoOp(ATOO::Mov, reg(Register::RS), sym("§STACK")),
        AI::SingleOp(ASOO::Call, sym("main")),
        AI::NoOp(ANOO::Exit),
    ]
}

fn program(sections: Vec<Vec<AI>>) -> Vec<AI> {
    let mut r = header();
    for s in sections {
        r.extend(s);
    }
    r.push(AI::Label("§STACK".to_string()));
    r
}

fn section(name: &str, params: &[&str], body: Vec<CI>) -> Section {
    Section {
        name: name.to_string(),
        signature: Some(params.iter().map(|p| p.to_string()).collect()),
        body,
    }
}

#[test]
fn empty_program_is_header_and_stack_label() {
    assert_eq!(compile_chasm_to_amine(&[]), program(vec![]));
}

#[test]
fn return_only_section() {
    let s = section("main", &[], vec![CI::NoOp(NoOpOpcode::Ret)]);
    let expected = vec![
        AI::Label("main".to_string()),
        AI::TwoOp(ATOO::Add, reg(Register::RS), val(0)),
        AI::NoOp(ANOO::Ret),
        AI::Blank,
    ];
    assert_eq!(compile_chasm_to_amine(&[s]), program(vec![expected]));
}

#[test]
fn parameters_live_below_the_frame_and_no_ops_vanish() {
    let body = vec![CI::Alloc(
        "x".to_string(),
        1,
        vec![
            CI::TwoOp(TwoOpOpcode::Mov, var("x"), var("a")),
            CI::TwoOp(TwoOpOpcode::Add, var("x"), Operand::Constant(0)),
            CI::TwoOp(TwoOpOpcode::Mov, var("x"), var("x")),
            CI::TwoOp(TwoOpOpcode::Sub, var("x"), var("b")),
            CI::NoOp(NoOpOpcode::Ret),
        ],
    )];
    let s = section("f", &["a", "b"], body);
    // a = -4, b = -3 as 16-bit two's complement; x is the first volatile register
    let expected = vec![
        AI::Label("f".to_string()),
        AI::TwoOp(ATOO::Add, reg(Register::RS), val(0)),
        AI::TwoOp(ATOO::Mov, reg(Register::R0), at(65532)),
        AI::TwoOp(ATOO::Sub, reg(Register::R0), at(65533)),
        AI::NoOp(ANOO::Ret),
        AI::Blank,
    ];
    assert_eq!(compile_chasm_to_amine(&[s]), program(vec![expected]));
}

#[test]
fn variable_across_call_gets_saved_register() {
    let body = vec![CI::Alloc(
        "y".to_string(),
        1,
        vec![
            CI::SingleOp(SingleOpOpcode::Call, var("g")),
            CI::TwoOp(TwoOpOpcode::Mov, var("y"), Operand::Constant(5)),
            CI::NoOp(NoOpOpcode::Ret),
        ],
    )];
    let s = section("main", &[], body);
    let expected = vec![
        AI::Label("main".to_string()),
        AI::TwoOp(ATOO::Add, reg(Register::RS), val(0)),
        AI::SingleOp(ASOO::Push, reg(Register::R2)),
        AI::SingleOp(ASOO::Call, sym("g")),
        AI::TwoOp(ATOO::Mov, reg(Register::R2), val(5)),
        AI::SingleOp(ASOO::Pop, reg(Register::R2)),
        AI::NoOp(ANOO::Ret),
        AI::Blank,
    ];
    assert_eq!(compile_chasm_to_amine(&[s]), program(vec![expected]));
}

#[test]
fn saved_registers_are_pushed_and_popped_in_pairs() {
    let body = vec![CI::Alloc(
        "u".to_string(),
        1,
        vec![CI::Alloc(
            "v".to_string(),
            1,
            vec![
                CI::SingleOp(SingleOpOpcode::Call, var("g")),
                CI::TwoOp(TwoOpOpcode::Add, var("u"), var("v")),
                CI::NoOp(NoOpOpcode::Ret),
            ],
        )],
    )];
    let s = section("main", &[], body);
    // frame: no results or stack variables to reserve; two saved registers (R2, R3)
    let expected = vec![
        AI::Label("main".to_string()),
        AI::TwoOp(ATOO::Add, reg(Register::RS), val(0)),
        AI::TwoOp(ATOO::PushT, reg(Register::R2), reg(Register::R3)),
        AI::SingleOp(ASOO::Call, sym("g")),
        AI::TwoOp(ATOO::Add, reg(Register::R2), reg(Register::R3)),
        AI::TwoOp(ATOO::PopT, reg(Register::R2), reg(Register::R3)),
        AI::NoOp(ANOO::Ret),
        AI::Blank,
    ];
    assert_eq!(compile_chasm_to_amine(&[s]), program(vec![expected]));
}

#[test]
fn referenced_variable_lives_on_the_stack() {
    let body = vec![CI::Alloc(
        "z".to_string(),
        2,
        vec![CI::Alloc(
            "p".to_string(),
            1,
            vec![CI::Reference(var("p"), "z".to_string()), CI::NoOp(NoOpOpcode::Ret)],
        )],
    )];
    let s = section("main", &[], body);
    let expected = vec![
        AI::Label("main".to_string()),
        AI::TwoOp(ATOO::Add, reg(Register::RS), val(1)),
        AI::TwoOp(ATOO::Mov, reg(Register::R0), reg(Register::RB)),
        AI::TwoOp(ATOO::Add, reg(Register::R0), val(0)),
        AI::NoOp(ANOO::Ret),
        AI::Blank,
    ];
    assert_eq!(compile_chasm_to_amine(&[s]), program(vec![expected]));
}

#[test]
fn receive_reads_above_the_stack_pointer() {
    let body = vec![CI::Alloc(
        "m".to_string(),
        1,
        vec![CI::Receive(var("m"), 3), CI::NoOp(NoOpOpcode::Send)],
    )];
    let s = section("main", &[], body);
    let expected = vec![
        AI::Label("main".to_string()),
        AI::TwoOp(ATOO::Add, reg(Register::RS), val(0)),
        AI::TwoOp(ATOO::Mov, reg(Register::R0), reg(Register::RS)),
        AI::TwoOp(ATOO::Lookup, reg(Register::R0), val(5)),
        AI::NoOp(ANOO::Send),
        AI::Blank,
    ];
    assert_eq!(compile_chasm_to_amine(&[s]), program(vec![expected]));
}

#[test]
fn labels_jumps_and_opcodes_translate() {
    let body = vec![
        CI::Sublabel("loop".to_string()),
        CI::NoOp(NoOpOpcode::Nop),
        CI::SingleOp(SingleOpOpcode::Dbg, Operand::Constant(7)),
        CI::TwoOp(TwoOpOpcode::Jrnzdec, var("n"), var("loop")),
        CI::TwoOp(TwoOpOpcode::Ftou, var("n"), Operand::Constant(1)),
        CI::SingleOp(SingleOpOpcode::Jmp, var("loop")),
    ];
    let s = section("main", &[], body);
    let expected = vec![
        AI::Label("main".to_string()),
        AI::TwoOp(ATOO::Add, reg(Register::RS), val(0)),
        AI::Sublabel("loop".to_string()),
        AI::NoOp(ANOO::Nop),
        AI::SingleOp(ASOO::Dbg, val(7)),
        AI::TwoOp(ATOO::JrnzDec, sym("n"), sym("loop")),
        AI::TwoOp(ATOO::Ftou, sym("n"), val(1)),
        AI::SingleOp(ASOO::Jmp, sym("loop")),
        AI::Blank,
    ];
    assert_eq!(compile_chasm_to_amine(&[s]), program(vec![expected]));
}

#[test]
fn result_and_param_scopes_become_plain_variables() {
    let body = vec![CI::Result(
        "r".to_string(),
        1,
        vec![CI::Param(
            "q".to_string(),
            1,
            vec![CI::TwoOp(TwoOpOpcode::Mov, var("q"), var("r")), CI::NoOp(NoOpOpcode::Ret)],
        )],
    )];
    let s = section("main", &[], body);
    // both scopes are simplified to Alloc scopes, and the compiler binds the
    // allocations made for the unsimplified code: r is the outer result 0,
    // so the frame reserves one result slot; q is an inner parameter
    // numbered by the results open around it (1), at offset 1 + 1 (frame)
    // + 0 (parameter depth)
    let expected = vec![
        AI::Label("main".to_string()),
        AI::TwoOp(ATOO::Add, reg(Register::RS), val(1)),
        AI::TwoOp(ATOO::Mov, at(2), at(0)),
        AI::NoOp(ANOO::Ret),
        AI::Blank,
    ];
    assert_eq!(compile_chasm_to_amine(&[s]), program(vec![expected]));
}

#[test]
fn sections_compile_independently() {
    let a = || section("main", &[], vec![CI::NoOp(NoOpOpcode::Ret)]);
    let b = || section("g", &["k"], vec![CI::TwoOp(TwoOpOpcode::Mov, var("k"), Operand::Constant(1))]);
    let both = compile_chasm_to_amine(&[a(), b()]);
    let only_a = compile_chasm_to_amine(&[a()]);
    let only_b = compile_chasm_to_amine(&[b()]);
    let mut expected = header();
    expected.extend_from_slice(&only_a[3..only_a.len() - 1]);
    expected.extend_from_slice(&only_b[3..only_b.len() - 1]);
    expected.push(AI::Label("§STACK".to_string()));
    assert_eq!(both, expected);
    assert_eq!(
        &only_b[3..only_b.len() - 1],
        &[
            AI::Label("g".to_string()),
            AI::TwoOp(ATOO::Add, reg(Register::RS), val(0)),
            AI::TwoOp(ATOO::Mov, at(65533), val(1)),
            AI::Blank,
        ]
    );
}

#[test]
fn many_nested_variables_spill_to_saved_registers_then_stack() {
    // nine nested scopes without calls: two volatile registers, six saved
    // registers, then one stack slot
    let names = ["a", "b", "c", "d", "e", "f", "g", "h", "i"];
    let mut body = vec![CI::TwoOp(TwoOpOpcode::Mov, var("i"), var("a")), CI::NoOp(NoOpOpcode::Ret)];
    for n in names.iter().rev() {
        body = vec![CI::Alloc(n.to_string(), 1, body)];
    }
    let out = compile_chasm_to_amine(&[section("main", &[], body)]);
    let expected = vec![
        AI::Label("main".to_string()),
        AI::TwoOp(ATOO::Add, reg(Register::RS), val(1)),
        AI::TwoOp(ATOO::PushT, reg(Register::R2), reg(Register::R3)),
        AI::TwoOp(ATOO::PushT, reg(Register::R4), reg(Register::R5)),
        AI::TwoOp(ATOO::PushT, reg(Register::R6), reg(Register::R7)),
        AI::TwoOp(ATOO::Mov, at(0), reg(Register::R0)),
        AI::TwoOp(ATOO::PopT, reg(Register::R6), reg(Register::R7)),
        AI::TwoOp(ATOO::PopT, reg(Register::R4), reg(Register::R5)),
        AI::TwoOp(ATOO::PopT, reg(Register::R2), reg(Register::R3)),
        AI::NoOp(ANOO::Ret),
        AI::Blank,
    ];
    assert_eq!(out, program(vec![expected]));
}
