use chasm_amine::allocation::{determine_allocations, find_offsets, AbstractAddress, Allocation, MemoryConfig};
use chasm_amine::amine::{RawRegOp, RegOp, Register};
use chasm_amine::chasm::{Instruction as CI, NoOpOpcode, Operand, SingleOpOpcode};
use chasm_amine::vars::{idx_to_reg, Vars};

fn allocation(name: &str, address: AbstractAddress) -> Allocation {
    Allocation { name: name.to_string(), address }
}

fn addresses(code: &[CI]) -> Vec<(String, AbstractAddress)> {
    let mut cfg = MemoryConfig::default();
    let mut vars = Vec::new();
    determine_allocations(code, &mut cfg, &mut vars);
    assert_eq!(cfg, MemoryConfig::default());
    vars.into_iter().map(|a| (a.name, a.address)).collect()
}

#[test]
fn find_offsets_of_no_allocations() {
    assert_eq!(find_offsets(&[]), (0, (0, 0, 0)));
}

#[test]
fn find_offsets_counts_each_kind() {
    let allocations = [
        allocation("a", AbstractAddress::RegVar(0)),
        allocation("b", AbstractAddress::StackVar(2)),
        allocation("c", AbstractAddress::RegVar(3)),
        allocation("d", AbstractAddress::Volatile(1)),
        allocation("e", AbstractAddress::InnerParam(9)),
        allocation("f", AbstractAddress::OuterResult(4)),
    ];
    assert_eq!(find_offsets(&allocations), (4, (5, 8, 12)));
}

#[test]
fn find_offsets_puts_results_first() {
    let allocations = [
        allocation("r", AbstractAddress::OuterResult(1)),
        allocation("s", AbstractAddress::StackVar(0)),
        allocation("t", AbstractAddress::RegVar(0)),
        allocation("o", AbstractAddress::OuterParam(7)),
    ];
    let (regs, (n, m, k)) = find_offsets(&allocations);
    assert_eq!((regs, (n, m, k)), (1, (2, 3, 4)));
    assert!(n <= m && m <= k && k - m == regs);
}

#[test]
fn stack_variables_start_after_the_results() {
    let allocations = [
        allocation("r0", AbstractAddress::OuterResult(0)),
        allocation("r1", AbstractAddress::OuterResult(1)),
        allocation("x", AbstractAddress::StackVar(0)),
    ];
    assert_eq!(find_offsets(&allocations), (0, (2, 3, 3)));
}

#[test]
fn frame_ignores_order_names_and_slotless_allocations() {
    let a = [
        allocation("r", AbstractAddress::OuterResult(2)),
        allocation("s", AbstractAddress::StackVar(1)),
        allocation("t", AbstractAddress::RegVar(4)),
    ];
    let b = [
        allocation("t2", AbstractAddress::RegVar(4)),
        allocation("v", AbstractAddress::Volatile(1)),
        allocation("r2", AbstractAddress::OuterResult(2)),
        allocation("p", AbstractAddress::InnerParam(3)),
        allocation("s2", AbstractAddress::StackVar(1)),
    ];
    assert_eq!(find_offsets(&a), find_offsets(&b));
    assert_eq!(find_offsets(&a), (5, (3, 5, 10)));
}

#[test]
fn frame_of_concatenation_is_the_larger_frame() {
    let a = [allocation("r", AbstractAddress::OuterResult(2)), allocation("g", AbstractAddress::RegVar(0))];
    let b = [allocation("s", AbstractAddress::StackVar(3)), allocation("h", AbstractAddress::RegVar(2))];
    let both = [
        allocation("r", AbstractAddress::OuterResult(2)),
        allocation("g", AbstractAddress::RegVar(0)),
        allocation("s", AbstractAddress::StackVar(3)),
        allocation("h", AbstractAddress::RegVar(2)),
    ];
    assert_eq!(find_offsets(&a), (1, (3, 3, 4)));
    assert_eq!(find_offsets(&b), (3, (0, 4, 7)));
    assert_eq!(find_offsets(&both), (3, (3, 7, 10)));
}

#[test]
fn allocations_follow_scope_order_and_nesting() {
    let code = vec![
        CI::Alloc(
            "a".to_string(),
            1,
            vec![CI::Alloc("b".to_string(), 1, vec![CI::Alloc("c".to_string(), 1, vec![])])],
        ),
        CI::Alloc("d".to_string(), 1, vec![CI::NoOp(NoOpOpcode::Ret)]),
    ];
    assert_eq!(addresses(&code), vec![
        ("a".to_string(), AbstractAddress::Volatile(0)),
        ("b".to_string(), AbstractAddress::Volatile(1)),
        ("c".to_string(), AbstractAddress::RegVar(0)),
        ("d".to_string(), AbstractAddress::Volatile(0)),
    ]);
}

#[test]
fn calls_and_references_decide_storage() {
    let code = vec![
        CI::Alloc(
            "x".to_string(),
            1,
            vec![CI::Alloc(
                "y".to_string(),
                1,
                vec![CI::Reference(Operand::Variable("y".to_string()), "x".to_string())],
            )],
        ),
        CI::Alloc(
            "z".to_string(),
            1,
            vec![CI::SingleOp(SingleOpOpcode::Call, Operand::Variable("f".to_string()))],
        ),
        CI::Result("r".to_string(), 1, vec![CI::Param("p".to_string(), 1, vec![])]),
    ];
    assert_eq!(addresses(&code), vec![
        ("x".to_string(), AbstractAddress::StackVar(0)),
        ("y".to_string(), AbstractAddress::Volatile(0)),
        ("z".to_string(), AbstractAddress::RegVar(0)),
        ("r".to_string(), AbstractAddress::OuterResult(0)),
        ("p".to_string(), AbstractAddress::InnerParam(1)),
    ]);
}

#[test]
fn registers_by_number() {
    assert_eq!(idx_to_reg(0), Some(Register::R0));
    assert_eq!(idx_to_reg(7), Some(Register::R7));
    assert_eq!(idx_to_reg(8), None);
}

#[test]
fn scopes_bind_and_unbind_names() {
    let mut vars = Vars::new(vec!["a".to_string(), "b".to_string(), "a".to_string()], vec![]);
    // parameters sit below the frame; a later parameter of the same name wins
    assert_eq!(vars.lookup("a"), RegOp::Indirect(RawRegOp::Value(65533)));
    assert_eq!(vars.lookup("b"), RegOp::Indirect(RawRegOp::Value(65532)));
    assert_eq!(vars.lookup("c"), RegOp::Direct(RawRegOp::Const("c".to_string())));
    vars.push_scope();
    vars.push_var(&allocation("a", AbstractAddress::RegVar(1)), (0, 0, 0));
    vars.push_var(&allocation("s", AbstractAddress::StackVar(2)), (3, 4, 5));
    vars.push_var(&allocation("o", AbstractAddress::OuterParam(0)), (0, 0, 0));
    assert_eq!(vars.lookup("a"), RegOp::Direct(RawRegOp::Register(Register::R3)));
    assert_eq!(vars.lookup("s"), RegOp::Indirect(RawRegOp::Value(5)));
    assert_eq!(vars.lookup("b"), RegOp::Indirect(RawRegOp::Value(65532)));
    assert_eq!(vars.lookup("o"), RegOp::Direct(RawRegOp::Const("o".to_string())));
    assert_eq!(
        vars.lookup_operand(&Operand::Constant(9)),
        RegOp::Direct(RawRegOp::Value(9))
    );
    vars.pop_scope();
    assert_eq!(vars.lookup("a"), RegOp::Indirect(RawRegOp::Value(65533)));
    assert_eq!(vars.lookup("s"), RegOp::Direct(RawRegOp::Const("s".to_string())));
}

#[test]
fn closing_a_scope_undoes_all_its_bindings() {
    let mut vars = Vars::new(vec!["p".to_string(), "q".to_string()], vec![]);
    let names = ["p", "q", "x", "y", "z"];
    let before: Vec<RegOp> = names.iter().map(|n| vars.lookup(n)).collect();
    vars.push_scope();
    vars.push_var(&allocation("p", AbstractAddress::Volatile(0)), (0, 0, 0));
    vars.push_var(&allocation("x", AbstractAddress::RegVar(0)), (0, 0, 0));
    vars.push_var(&allocation("y", AbstractAddress::StackVar(1)), (2, 2, 2));
    vars.push_var(&allocation("x", AbstractAddress::OuterResult(3)), (0, 0, 0));
    assert_eq!(vars.lookup("x"), RegOp::Indirect(RawRegOp::Value(3)));
    assert_eq!(vars.lookup("p"), RegOp::Direct(RawRegOp::Register(Register::R0)));
    vars.pop_scope();
    let after: Vec<RegOp> = names.iter().map(|n| vars.lookup(n)).collect();
    assert_eq!(after, before);
}
