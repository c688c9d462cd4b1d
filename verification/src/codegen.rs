//! Translation of the sections of a Chasm program into Amine code.
use vstd::prelude::*;
use crate::amine::{
    Instruction, InstV, OpV, RawOpV, RawRegOp, RegOp, Register, SingleOpOpcode as ASOO,
    TwoOpOpcode as ATOO, NoOpOpcode as ANOO, view_all, reg_operand, value_operand, prepend_all,
    copy_all,
};
use crate::chasm::{
    self, Operand, NoOpOpcode, SingleOpOpcode, TwoOpOpcode, view_body, view_inst,
    lemma_view_body, scope_count, scope_count_at,
};
use crate::allocation::{
    AllocV, Allocation, MemoryConfig, view_allocs, allocations_of, empty_config, frame_offsets,
    nesting, determine_allocations, find_offsets, lemma_allocations_within,
    lemma_frame_counts_within, law_one_allocation_per_scope,
};
use crate::optimize_chasm::{minimize, minimized, minimized_body, law_minimize_keeps_scopes};
use crate::optimize_amine::{minimize_amine, peephole};
use crate::vars::{
    Env, Vars, reg_of, idx_to_reg, lookup_name, lookup_operand_in, binding_fits, scopes_with,
    param_bindings,
};

verus! {

broadcast use vstd::std_specs::vec::group_vec_axioms;

/// The Amine opcode for a Chasm opcode with two operands.
pub open spec fn two_op_code(o: TwoOpOpcode) -> ATOO {
    match o {
        TwoOpOpcode::Mov => ATOO::Mov,
        TwoOpOpcode::Read => ATOO::Read,
        TwoOpOpcode::Write => ATOO::Write,
        TwoOpOpcode::Copy => ATOO::Copy,
        TwoOpOpcode::Add => ATOO::Add,
        TwoOpOpcode::Sub => ATOO::Sub,
        TwoOpOpcode::Mul => ATOO::Mul,
        TwoOpOpcode::Div => ATOO::Div,
        TwoOpOpcode::Jrnzdec => ATOO::JrnzDec,
        TwoOpOpcode::Lookup => ATOO::Lookup,
        TwoOpOpcode::Fadd => ATOO::Fadd,
        TwoOpOpcode::Fsub => ATOO::Fsub,
        TwoOpOpcode::Fmul => ATOO::Fmul,
        TwoOpOpcode::Fdiv => ATOO::Fdiv,
        TwoOpOpcode::Imul => ATOO::Imul,
        TwoOpOpcode::Idiv => ATOO::Idiv,
        TwoOpOpcode::Shr => ATOO::Shr,
        TwoOpOpcode::Shl => ATOO::Shl,
        TwoOpOpcode::Itof => ATOO::Itof,
        TwoOpOpcode::Utof => ATOO::Utof,
        TwoOpOpcode::Ftoi => ATOO::Ftoi,
        TwoOpOpcode::Ftou => ATOO::Ftou,
        TwoOpOpcode::Ctx => ATOO::Ctx,
    }
}

/// The Amine opcode for a Chasm opcode with one operand.
pub open spec fn single_op_code(o: SingleOpOpcode) -> ASOO {
    match o {
        SingleOpOpcode::Call => ASOO::Call,
        SingleOpOpcode::Jmp => ASOO::Jmp,
        SingleOpOpcode::Dbg => ASOO::Dbg,
    }
}

/// The saved register `R(i + 2)`, for `i < 6`.
pub open spec fn saved_reg(i: int) -> OpV {
    reg_operand(reg_of(i + 2).unwrap())
}

/// The entry code of a section with frame layout `offsets`: reserve the frame
/// on the stack, then push the saved registers in order.
pub open spec fn prologue_of(offsets: (usize, (usize, usize, usize))) -> Seq<InstV> {
    seq![
        InstV::TwoOp(ATOO::Add, reg_operand(Register::RS), value_operand(offsets.1.1 as u16)),
    ] + Seq::new(offsets.0 as nat, |i: int| InstV::SingleOp(ASOO::Push, saved_reg(i)))
}

/// The code run before each return: pop the saved registers in reverse order.
pub open spec fn epilogue_of(offsets: (usize, (usize, usize, usize))) -> Seq<InstV> {
    Seq::new(
        offsets.0 as nat,
        |i: int| InstV::SingleOp(ASOO::Pop, saved_reg(offsets.0 - 1 - i)),
    )
}

/// `a` and `b` joined, when both exist.
pub open spec fn join_opt(a: Option<Seq<InstV>>, b: Option<Seq<InstV>>) -> Option<Seq<InstV>> {
    match (a, b) {
        (Some(x), Some(y)) => Some(x + y),
        _ => None,
    }
}

/// The code for `code` in scopes `env`, where the scopes opened in `code`
/// take their storage from `allocs`, starting at position `pos`, and
/// `offsets` is the frame layout. `None` when compiling it fails.
pub open spec fn compiled_body(
    code: Seq<chasm::InstV>,
    env: Env,
    allocs: Seq<AllocV>,
    pos: int,
    offsets: (usize, usize, usize),
) -> Option<Seq<InstV>>
    decreases code, 0nat,
{
    if code.len() == 0 {
        Some(Seq::empty())
    } else {
        join_opt(
            compiled_inst(code[0], env, allocs, pos, offsets),
            compiled_body(code.drop_first(), env, allocs, pos + scope_count_at(code[0]), offsets),
        )
    }
}

/// The code for a scope with body `body` whose variable takes the
/// allocation at `pos`. It binds the variable in a new scope and compiles
/// the body; a parameter scope also moves the stack pointer up around it.
/// `None` when there is no allocation left, the binding does not fit, or the
/// body fails.
pub open spec fn compiled_scope(
    is_param: bool,
    body: Seq<chasm::InstV>,
    env: Env,
    allocs: Seq<AllocV>,
    pos: int,
    offsets: (usize, usize, usize),
) -> Option<Seq<InstV>>
    decreases body, 1nat,
{
    if pos < 0 || pos >= allocs.len() {
        None
    } else if !binding_fits(allocs[pos].address, offsets, env.param_depth) {
        None
    } else if is_param && env.param_depth + 1 > usize::MAX {
        None
    } else {
        let a = allocs[pos];
        let inner = Env {
            scopes: scopes_with(
                env.scopes.push(Map::empty()),
                a.name,
                a.address,
                offsets,
                env.param_depth,
            ),
            param_depth: if is_param {
                env.param_depth + 1
            } else {
                env.param_depth
            },
            epilogue: env.epilogue,
        };
        let rs = reg_operand(Register::RS);
        let enter: Seq<InstV> = if is_param {
            seq![InstV::SingleOp(ASOO::Inc, rs)]
        } else {
            Seq::empty()
        };
        let leave: Seq<InstV> = if is_param {
            seq![InstV::SingleOp(ASOO::Dec, rs)]
        } else {
            Seq::empty()
        };
        match compiled_body(body, inner, allocs, pos + 1, offsets) {
            Some(b) => Some(enter + b + leave),
            None => None,
        }
    }
}

/// The code for one instruction; see [`compiled_body`]. `None` when taking
/// the address of a name that is not stored in memory, or receiving into
/// a slot whose offset does not fit in 16 bits.
pub open spec fn compiled_inst(
    i: chasm::InstV,
    env: Env,
    allocs: Seq<AllocV>,
    pos: int,
    offsets: (usize, usize, usize),
) -> Option<Seq<InstV>>
    decreases i, 2nat,
{
    match i {
        chasm::InstV::Sublabel(l) => Some(seq![InstV::Sublabel(l)]),
        chasm::InstV::Alloc(_, _, b) => compiled_scope(false, b, env, allocs, pos, offsets),
        chasm::InstV::Param(_, _, b) => compiled_scope(true, b, env, allocs, pos, offsets),
        chasm::InstV::Result(_, _, b) => compiled_scope(false, b, env, allocs, pos, offsets),
        chasm::InstV::Reference(dst, src) => match lookup_name(env.scopes, src) {
            OpV::Indirect(RawOpV::Value(base)) => {
                let d = lookup_operand_in(env.scopes, dst);
                Some(
                    seq![
                        InstV::TwoOp(ATOO::Mov, d, reg_operand(Register::RB)),
                        InstV::TwoOp(ATOO::Add, d, value_operand(base)),
                    ],
                )
            },
            _ => None,
        },
        chasm::InstV::Receive(dst, idx) => {
            let slot = (idx as u16) + 2;
            if slot > u16::MAX {
                None
            } else {
                let d = lookup_operand_in(env.scopes, dst);
                Some(
                    seq![
                        InstV::TwoOp(ATOO::Mov, d, reg_operand(Register::RS)),
                        InstV::TwoOp(ATOO::Lookup, d, value_operand(slot as u16)),
                    ],
                )
            }
        },
        chasm::InstV::TwoOp(o, a, b) => Some(
            seq![
                InstV::TwoOp(
                    two_op_code(o),
                    lookup_operand_in(env.scopes, a),
                    lookup_operand_in(env.scopes, b),
                ),
            ],
        ),
        chasm::InstV::SingleOp(o, a) => Some(
            seq![InstV::SingleOp(single_op_code(o), lookup_operand_in(env.scopes, a))],
        ),
        chasm::InstV::NoOp(o) => match o {
            NoOpOpcode::Nop => Some(seq![InstV::NoOp(ANOO::Nop)]),
            NoOpOpcode::Ret => Some(env.epilogue + seq![InstV::NoOp(ANOO::Ret)]),
            NoOpOpcode::Send => Some(seq![InstV::NoOp(ANOO::Send)]),
        },
    }
}

/// Whether the code for `TwoOp(o, a, b)` in scopes `env` is the one Amine
/// instruction with opcode `p` on the operands that `a` and `b` stand for.
pub open spec fn two_op_compiles_to(
    o: TwoOpOpcode,
    p: ATOO,
    a: chasm::OperandV,
    b: chasm::OperandV,
    env: Env,
    allocs: Seq<AllocV>,
    pos: int,
    offsets: (usize, usize, usize),
) -> bool {
    compiled_inst(chasm::InstV::TwoOp(o, a, b), env, allocs, pos, offsets) == Some(
        seq![InstV::TwoOp(p, lookup_operand_in(env.scopes, a), lookup_operand_in(env.scopes, b))],
    )
}

/// Whether the code for `SingleOp(o, a)` in scopes `env` is the one Amine
/// instruction with opcode `p` on the operand that `a` stands for.
pub open spec fn single_op_compiles_to(
    o: SingleOpOpcode,
    p: ASOO,
    a: chasm::OperandV,
    env: Env,
    allocs: Seq<AllocV>,
    pos: int,
    offsets: (usize, usize, usize),
) -> bool {
    compiled_inst(chasm::InstV::SingleOp(o, a), env, allocs, pos, offsets) == Some(
        seq![InstV::SingleOp(p, lookup_operand_in(env.scopes, a))],
    )
}

/// Each Chasm opcode becomes the Amine opcode of the same name, on the
/// operands that the Chasm operands stand for; `nop` and `send` become
/// themselves, and `ret` becomes the epilogue followed by `ret`.
pub proof fn law_opcodes_keep_their_names(
    a: chasm::OperandV,
    b: chasm::OperandV,
    env: Env,
    allocs: Seq<AllocV>,
    pos: int,
    offsets: (usize, usize, usize),
)
    ensures
        two_op_compiles_to(TwoOpOpcode::Mov, ATOO::Mov, a, b, env, allocs, pos, offsets),
        two_op_compiles_to(TwoOpOpcode::Read, ATOO::Read, a, b, env, allocs, pos, offsets),
        two_op_compiles_to(TwoOpOpcode::Write, ATOO::Write, a, b, env, allocs, pos, offsets),
        two_op_compiles_to(TwoOpOpcode::Copy, ATOO::Copy, a, b, env, allocs, pos, offsets),
        two_op_compiles_to(TwoOpOpcode::Add, ATOO::Add, a, b, env, allocs, pos, offsets),
        two_op_compiles_to(TwoOpOpcode::Sub, ATOO::Sub, a, b, env, allocs, pos, offsets),
        two_op_compiles_to(TwoOpOpcode::Mul, ATOO::Mul, a, b, env, allocs, pos, offsets),
        two_op_compiles_to(TwoOpOpcode::Div, ATOO::Div, a, b, env, allocs, pos, offsets),
        two_op_compiles_to(TwoOpOpcode::Jrnzdec, ATOO::JrnzDec, a, b, env, allocs, pos, offsets),
        two_op_compiles_to(TwoOpOpcode::Lookup, ATOO::Lookup, a, b, env, allocs, pos, offsets),
        two_op_compiles_to(TwoOpOpcode::Fadd, ATOO::Fadd, a, b, env, allocs, pos, offsets),
        two_op_compiles_to(TwoOpOpcode::Fsub, ATOO::Fsub, a, b, env, allocs, pos, offsets),
        two_op_compiles_to(TwoOpOpcode::Fmul, ATOO::Fmul, a, b, env, allocs, pos, offsets),
        two_op_compiles_to(TwoOpOpcode::Fdiv, ATOO::Fdiv, a, b, env, allocs, pos, offsets),
        two_op_compiles_to(TwoOpOpcode::Imul, ATOO::Imul, a, b, env, allocs, pos, offsets),
        two_op_compiles_to(TwoOpOpcode::Idiv, ATOO::Idiv, a, b, env, allocs, pos, offsets),
        two_op_compiles_to(TwoOpOpcode::Shr, ATOO::Shr, a, b, env, allocs, pos, offsets),
        two_op_compiles_to(TwoOpOpcode::Shl, ATOO::Shl, a, b, env, allocs, pos, offsets),
        two_op_compiles_to(TwoOpOpcode::Itof, ATOO::Itof, a, b, env, allocs, pos, offsets),
        two_op_compiles_to(TwoOpOpcode::Utof, ATOO::Utof, a, b, env, allocs, pos, offsets),
        two_op_compiles_to(TwoOpOpcode::Ftoi, ATOO::Ftoi, a, b, env, allocs, pos, offsets),
        two_op_compiles_to(TwoOpOpcode::Ftou, ATOO::Ftou, a, b, env, allocs, pos, offsets),
        two_op_compiles_to(TwoOpOpcode::Ctx, ATOO::Ctx, a, b, env, allocs, pos, offsets),
        single_op_compiles_to(SingleOpOpcode::Call, ASOO::Call, a, env, allocs, pos, offsets),
        single_op_compiles_to(SingleOpOpcode::Jmp, ASOO::Jmp, a, env, allocs, pos, offsets),
        single_op_compiles_to(SingleOpOpcode::Dbg, ASOO::Dbg, a, env, allocs, pos, offsets),
        compiled_inst(chasm::InstV::NoOp(NoOpOpcode::Nop), env, allocs, pos, offsets) == Some(
            seq![InstV::NoOp(ANOO::Nop)],
        ),
        compiled_inst(chasm::InstV::NoOp(NoOpOpcode::Send), env, allocs, pos, offsets) == Some(
            seq![InstV::NoOp(ANOO::Send)],
        ),
        compiled_inst(chasm::InstV::NoOp(NoOpOpcode::Ret), env, allocs, pos, offsets) == Some(
            env.epilogue + seq![InstV::NoOp(ANOO::Ret)],
        ),
{
}

/// Taking the address of `src` sets `dst` to the base pointer plus the
/// frame offset of `src`, and fails when `src` is not in a frame slot;
/// receiving value `idx` sets `dst` to the stack pointer and looks up slot
/// `idx + 2` from it, and fails when that slot does not fit in 16 bits. The
/// code of a parameter scope raises the stack pointer first and lowers it
/// last.
pub proof fn law_addresses_and_slots(
    dst: chasm::OperandV,
    src: Seq<char>,
    idx: usize,
    n: Seq<char>,
    size: usize,
    body: Seq<chasm::InstV>,
    env: Env,
    allocs: Seq<AllocV>,
    pos: int,
    offsets: (usize, usize, usize),
)
    ensures
        ({
            let d = lookup_operand_in(env.scopes, dst);
            match lookup_name(env.scopes, src) {
                OpV::Indirect(RawOpV::Value(base)) => compiled_inst(
                    chasm::InstV::Reference(dst, src),
                    env,
                    allocs,
                    pos,
                    offsets,
                ) == Some(
                    seq![
                        InstV::TwoOp(ATOO::Mov, d, OpV::Direct(RawOpV::Register(Register::RB))),
                        InstV::TwoOp(ATOO::Add, d, OpV::Direct(RawOpV::Value(base))),
                    ],
                ),
                _ => compiled_inst(chasm::InstV::Reference(dst, src), env, allocs, pos, offsets) is None,
            }
        }),
        (idx as u16) + 2 <= u16::MAX ==> compiled_inst(
            chasm::InstV::Receive(dst, idx),
            env,
            allocs,
            pos,
            offsets,
        ) == Some(
            seq![
                InstV::TwoOp(
                    ATOO::Mov,
                    lookup_operand_in(env.scopes, dst),
                    OpV::Direct(RawOpV::Register(Register::RS)),
                ),
                InstV::TwoOp(
                    ATOO::Lookup,
                    lookup_operand_in(env.scopes, dst),
                    OpV::Direct(RawOpV::Value(((idx as u16) + 2) as u16)),
                ),
            ],
        ),
        (idx as u16) + 2 > u16::MAX ==> compiled_inst(
            chasm::InstV::Receive(dst, idx),
            env,
            allocs,
            pos,
            offsets,
        ) is None,
        compiled_inst(chasm::InstV::Param(n, size, body), env, allocs, pos, offsets) matches Some(
            code,
        ) ==> code.len() >= 2 && code[0] == InstV::SingleOp(
            ASOO::Inc,
            OpV::Direct(RawOpV::Register(Register::RS)),
        ) && code.last() == InstV::SingleOp(ASOO::Dec, OpV::Direct(RawOpV::Register(Register::RS))),
{
    match compiled_inst(chasm::InstV::Param(n, size, body), env, allocs, pos, offsets) {
        Some(code) => {
            let inner = compiled_body(
                body,
                Env {
                    scopes: scopes_with(
                        env.scopes.push(Map::empty()),
                        allocs[pos].name,
                        allocs[pos].address,
                        offsets,
                        env.param_depth,
                    ),
                    param_depth: env.param_depth + 1,
                    epilogue: env.epilogue,
                },
                allocs,
                pos + 1,
                offsets,
            ).unwrap();
            let rs = reg_operand(Register::RS);
            assert(code == seq![InstV::SingleOp(ASOO::Inc, rs)] + inner + seq![
                InstV::SingleOp(ASOO::Dec, rs),
            ]);
        },
        None => {},
    }
}

/// The prologue first reserves the frame (results and stack variables, up
/// to offset `offsets.1.1`) by raising the stack pointer, then pushes the
/// saved registers `R2`, `R3`, ... in order, one for each saved register
/// in use.
pub proof fn law_prologue_saves_registers(offsets: (usize, (usize, usize, usize)))
    requires
        offsets.0 <= 6,
    ensures
        prologue_of(offsets).len() == offsets.0 + 1,
        prologue_of(offsets)[0] == InstV::TwoOp(
            ATOO::Add,
            OpV::Direct(RawOpV::Register(Register::RS)),
            OpV::Direct(RawOpV::Value(offsets.1.1 as u16)),
        ),
        forall|k: int|
            0 <= k < offsets.0 ==> #[trigger] prologue_of(offsets)[k + 1] == InstV::SingleOp(
                ASOO::Push,
                OpV::Direct(RawOpV::Register(reg_of(k + 2).unwrap())),
            ),
{
    assert forall|k: int| 0 <= k < offsets.0 implies #[trigger] prologue_of(offsets)[k + 1]
        == InstV::SingleOp(ASOO::Push, OpV::Direct(RawOpV::Register(reg_of(k + 2).unwrap()))) by {
        assert(prologue_of(offsets)[k + 1] == Seq::new(
            offsets.0 as nat,
            |j: int| InstV::SingleOp(ASOO::Push, saved_reg(j)),
        )[k]);
    }
}

/// The epilogue undoes the pushes of the prologue: its `i`-th instruction
/// pops the register pushed by the prologue's `n - i`-th push, where `n` is
/// the number of saved registers.
pub proof fn law_epilogue_reverses_prologue(offsets: (usize, (usize, usize, usize)))
    ensures
        prologue_of(offsets).len() == offsets.0 + 1,
        epilogue_of(offsets).len() == offsets.0,
        forall|i: int|
            0 <= i < offsets.0 ==> (#[trigger] epilogue_of(offsets)[i] matches InstV::SingleOp(
                ASOO::Pop,
                x,
            ) && prologue_of(offsets)[offsets.0 - i] == InstV::SingleOp(ASOO::Push, x)),
{
    assert forall|i: int| 0 <= i < offsets.0 implies (#[trigger] epilogue_of(offsets)[i] matches InstV::SingleOp(
        ASOO::Pop,
        x,
    ) && prologue_of(offsets)[offsets.0 - i] == InstV::SingleOp(ASOO::Push, x)) by {
        let k = offsets.0 - i;
        assert(prologue_of(offsets)[k] == Seq::new(
            offsets.0 as nat,
            |j: int| InstV::SingleOp(ASOO::Push, saved_reg(j)),
        )[k - 1]);
    }
}

/// The entry code of a section: see [`prologue_of`].
fn prologue(offsets: &(usize, (usize, usize, usize))) -> (r: Vec<Instruction>)
    requires
        offsets.0 <= 6,
    ensures
        view_all(r@) == prologue_of(*offsets),
{
    let mut result: Vec<Instruction> = Vec::new();
    result.push(
        Instruction::TwoOp(
            ATOO::Add,
            RegOp::Direct(RawRegOp::Register(Register::RS)),
            RegOp::Direct(RawRegOp::Value(#[verifier::truncate] (offsets.1.1 as u16))),
        ),
    );
    let mut reg_var: usize = 0;
    while reg_var < offsets.0
        invariant
            reg_var <= offsets.0 <= 6,
            result@.len() == reg_var + 1,
            forall|k: int| 0 <= k <= reg_var ==> #[trigger] result@[k]@ == prologue_of(*offsets)[k],
        decreases offsets.0 - reg_var,
    {
        let reg = idx_to_reg(reg_var + 2).unwrap();
        result.push(Instruction::SingleOp(ASOO::Push, RegOp::Direct(RawRegOp::Register(reg))));
        reg_var = reg_var + 1;
    }
    assert(view_all(result@) =~= prologue_of(*offsets));
    result
}

/// The code run before each return: see [`epilogue_of`].
fn epilogue(offsets: &(usize, (usize, usize, usize))) -> (r: Vec<Instruction>)
    requires
        offsets.0 <= 6,
    ensures
        view_all(r@) == epilogue_of(*offsets),
{
    let mut result: Vec<Instruction> = Vec::new();
    let mut k: usize = 0;
    while k < offsets.0
        invariant
            k <= offsets.0 <= 6,
            result@.len() == k,
            forall|j: int| 0 <= j < k ==> #[trigger] result@[j]@ == epilogue_of(*offsets)[j],
        decreases offsets.0 - k,
    {
        let reg_var = offsets.0 - 1 - k;
        let reg = idx_to_reg(reg_var + 2).unwrap();
        result.push(Instruction::SingleOp(ASOO::Pop, RegOp::Direct(RawRegOp::Register(reg))));
        k = k + 1;
    }
    assert(view_all(result@) =~= epilogue_of(*offsets));
    result
}

/// The Amine opcode for a Chasm opcode with two operands.
fn translate_two_op(opcode: &TwoOpOpcode) -> (r: ATOO)
    ensures
        r == two_op_code(*opcode),
{
    match opcode {
        TwoOpOpcode::Mov => ATOO::Mov,
        TwoOpOpcode::Read => ATOO::Read,
        TwoOpOpcode::Write => ATOO::Write,
        TwoOpOpcode::Copy => ATOO::Copy,
        TwoOpOpcode::Add => ATOO::Add,
        TwoOpOpcode::Sub => ATOO::Sub,
        TwoOpOpcode::Mul => ATOO::Mul,
        TwoOpOpcode::Div => ATOO::Div,
        TwoOpOpcode::Jrnzdec => ATOO::JrnzDec,
        TwoOpOpcode::Lookup => ATOO::Lookup,
        TwoOpOpcode::Fadd => ATOO::Fadd,
        TwoOpOpcode::Fsub => ATOO::Fsub,
        TwoOpOpcode::Fmul => ATOO::Fmul,
        TwoOpOpcode::Fdiv => ATOO::Fdiv,
        TwoOpOpcode::Imul => ATOO::Imul,
        TwoOpOpcode::Idiv => ATOO::Idiv,
        TwoOpOpcode::Shr => ATOO::Shr,
        TwoOpOpcode::Shl => ATOO::Shl,
        TwoOpOpcode::Itof => ATOO::Itof,
        TwoOpOpcode::Utof => ATOO::Utof,
        TwoOpOpcode::Ftoi => ATOO::Ftoi,
        TwoOpOpcode::Ftou => ATOO::Ftou,
        TwoOpOpcode::Ctx => ATOO::Ctx,
    }
}

/// The code for an instruction with two operands.
fn compile_two_op(opcode: &TwoOpOpcode, op1: &Operand, op2: &Operand, vars: &Vars) -> (r: Vec<
    Instruction,
>)
    ensures
        view_all(r@) == seq![
            InstV::TwoOp(
                two_op_code(*opcode),
                lookup_operand_in(vars.env().scopes, op1@),
                lookup_operand_in(vars.env().scopes, op2@),
            ),
        ],
{
    let opcode = translate_two_op(opcode);
    let mut r: Vec<Instruction> = Vec::new();
    r.push(Instruction::TwoOp(opcode, vars.lookup_operand(op1), vars.lookup_operand(op2)));
    assert(view_all(r@) =~= seq![r@[0]@]);
    r
}

/// The code for an instruction with one operand.
fn compile_single_op(opcode: &SingleOpOpcode, op: &Operand, vars: &Vars) -> (r: Vec<Instruction>)
    ensures
        view_all(r@) == seq![
            InstV::SingleOp(single_op_code(*opcode), lookup_operand_in(vars.env().scopes, op@)),
        ],
{
    let mut r: Vec<Instruction> = Vec::new();
    match opcode {
        SingleOpOpcode::Call => r.push(Instruction::SingleOp(ASOO::Call, vars.lookup_operand(op))),
        SingleOpOpcode::Jmp => r.push(Instruction::SingleOp(ASOO::Jmp, vars.lookup_operand(op))),
        SingleOpOpcode::Dbg => r.push(Instruction::SingleOp(ASOO::Dbg, vars.lookup_operand(op))),
    }
    assert(view_all(r@) =~= seq![r@[0]@]);
    r
}

/// The code for an instruction without operands; a return first runs the
/// epilogue.
fn compile_no_op(opcode: &NoOpOpcode, vars: &Vars) -> (r: Vec<Instruction>)
    ensures
        view_all(r@) == match *opcode {
            NoOpOpcode::Nop => seq![InstV::NoOp(ANOO::Nop)],
            NoOpOpcode::Ret => vars.env().epilogue + seq![InstV::NoOp(ANOO::Ret)],
            NoOpOpcode::Send => seq![InstV::NoOp(ANOO::Send)],
        },
{
    match opcode {
        NoOpOpcode::Nop => {
            let mut r: Vec<Instruction> = Vec::new();
            r.push(Instruction::NoOp(ANOO::Nop));
            assert(view_all(r@) =~= seq![r@[0]@]);
            r
        },
        NoOpOpcode::Ret => {
            let mut result = copy_all(&vars.epilogue);
            let ghost before = result@;
            result.push(Instruction::NoOp(ANOO::Ret));
            assert(view_all(result@) =~= view_all(before) + seq![InstV::NoOp(ANOO::Ret)]);
            result
        },
        NoOpOpcode::Send => {
            let mut r: Vec<Instruction> = Vec::new();
            r.push(Instruction::NoOp(ANOO::Send));
            assert(view_all(r@) =~= seq![r@[0]@]);
            r
        },
    }
}

/// The code for a scope: see [`compiled_scope`]. The scope's variable takes
/// the allocation at `*next`, and `*next` moves past the allocations of the
/// scope and of those nested in it.
fn compile_scope(
    is_param: bool,
    body: &Vec<chasm::Instruction>,
    vars: &mut Vars,
    allocations: &[Allocation],
    next: &mut usize,
    offsets: (usize, usize, usize),
) -> (r: Vec<Instruction>)
    requires
        compiled_scope(
            is_param,
            view_body(body@),
            old(vars).env(),
            view_allocs(allocations@),
            *old(next) as int,
            offsets,
        ) is Some,
    ensures
        view_all(r@) == compiled_scope(
            is_param,
            view_body(body@),
            old(vars).env(),
            view_allocs(allocations@),
            *old(next) as int,
            offsets,
        ).unwrap(),
        final(vars).env() == old(vars).env(),
        *final(next) == *old(next) + 1 + scope_count(view_body(body@)),
    decreases body@,
{
    let ghost env0 = vars.env();
    let ghost allocs = view_allocs(allocations@);
    let ghost pos = *next as int;
    let ghost v = view_body(body@);
    proof {
        lemma_view_body(body@);
    }
    let allocation = &allocations[*next];
    assert(allocs[pos] == allocation@);
    vars.push_scope();
    vars.push_var(allocation, offsets);
    *next = *next + 1;
    let mut result: Vec<Instruction> = Vec::new();
    if is_param {
        vars.param_depth = vars.param_depth + 1;
        result.push(Instruction::SingleOp(ASOO::Inc, RegOp::Direct(RawRegOp::Register(Register::RS))));
    }
    let ghost inner = vars.env();
    let ghost full = compiled_body(v, inner, allocs, pos + 1, offsets).unwrap();
    let ghost prefix = view_all(result@);
    proof {
        assert(v.skip(0) =~= v);
        assert(prefix + full =~= view_all(result@) + full);
    }
    let mut i: usize = 0;
    while i < body.len()
        invariant
            i <= body@.len(),
            v == view_body(body@),
            v.len() == body@.len(),
            forall|j: int| 0 <= j < body@.len() ==> #[trigger] v[j] == view_inst(body@[j]),
            allocs == view_allocs(allocations@),
            vars.env() == inner,
            compiled_body(v, inner, allocs, pos + 1, offsets) == Some(full),
            prepend_all(view_all(result@), compiled_body(v.skip(i as int), inner, allocs, *next as int, offsets))
                == Some(prefix + full),
            *next + scope_count(v.skip(i as int)) == pos + 1 + scope_count(v),
        decreases body@.len() - i,
    {
        let ghost w = v.skip(i as int);
        assert(w.drop_first() =~= v.skip(i + 1));
        assert(w[0] == view_inst(body@[i as int]));
        proof {
            assert(decreases_to!(body@ => body@[i as int]));
        }
        let ghost before = result@;
        let ghost here = *next as int;
        let mut part = compile_inst(&body[i], vars, allocations, next, offsets);
        let ghost part_view = view_all(part@);
        result.append(&mut part);
        proof {
            assert(view_all(before + part@) =~= view_all(before) + view_all(part@));
        }
        assert(view_all(result@) =~= view_all(before) + part_view);
        i = i + 1;
    }
    assert(v.skip(i as int) =~= Seq::<chasm::InstV>::empty());
    vars.pop_scope();
    if is_param {
        vars.param_depth = vars.param_depth - 1;
        let ghost before = result@;
        result.push(Instruction::SingleOp(ASOO::Dec, RegOp::Direct(RawRegOp::Register(Register::RS))));
        assert(view_all(result@) =~= view_all(before) + seq![InstV::SingleOp(ASOO::Dec, reg_operand(Register::RS))]);
    }
    assert(vars.env().scopes =~= env0.scopes);
    result
}

/// The code for one instruction: see [`compiled_inst`]. The scopes are the
/// same again on return, and `*next` moves past the allocations of the
/// scopes opened in `inst`.
fn compile_inst(
    inst: &chasm::Instruction,
    vars: &mut Vars,
    allocations: &[Allocation],
    next: &mut usize,
    offsets: (usize, usize, usize),
) -> (r: Vec<Instruction>)
    requires
        compiled_inst(
            view_inst(*inst),
            old(vars).env(),
            view_allocs(allocations@),
            *old(next) as int,
            offsets,
        ) is Some,
    ensures
        view_all(r@) == compiled_inst(
            view_inst(*inst),
            old(vars).env(),
            view_allocs(allocations@),
            *old(next) as int,
            offsets,
        ).unwrap(),
        final(vars).env() == old(vars).env(),
        *final(next) == *old(next) + scope_count_at(view_inst(*inst)),
    decreases *inst,
{
    match inst {
        chasm::Instruction::Sublabel(label) => {
            let mut r: Vec<Instruction> = Vec::new();
            r.push(Instruction::Sublabel(label.clone()));
            assert(view_all(r@) =~= seq![r@[0]@]);
            r
        },
        chasm::Instruction::Alloc(_, _, body) => compile_scope(false, body, vars, allocations, next, offsets),
        chasm::Instruction::Param(_, _, body) => compile_scope(true, body, vars, allocations, next, offsets),
        chasm::Instruction::Result(_, _, body) => compile_scope(false, body, vars, allocations, next, offsets),
        chasm::Instruction::Reference(dst, src) => {
            let op = vars.lookup(src.as_str());
            match op {
                RegOp::Indirect(RawRegOp::Value(base_offset)) => {
                    let mut r: Vec<Instruction> = Vec::new();
                    r.push(Instruction::TwoOp(
                        ATOO::Mov,
                        vars.lookup_operand(dst),
                        RegOp::Direct(RawRegOp::Register(Register::RB)),
                    ));
                    r.push(Instruction::TwoOp(
                        ATOO::Add,
                        vars.lookup_operand(dst),
                        RegOp::Direct(RawRegOp::Value(base_offset)),
                    ));
                    assert(view_all(r@) =~= seq![r@[0]@, r@[1]@]);
                    r
                },
                _ => vstd::pervasive::unreached(),
            }
        },
        chasm::Instruction::Receive(dst, idx) => {
            let slot: u16 = (#[verifier::truncate] (*idx as u16)) + 2;
            let mut r: Vec<Instruction> = Vec::new();
            r.push(Instruction::TwoOp(
                ATOO::Mov,
                vars.lookup_operand(dst),
                RegOp::Direct(RawRegOp::Register(Register::RS)),
            ));
            r.push(Instruction::TwoOp(
                ATOO::Lookup,
                vars.lookup_operand(dst),
                RegOp::Direct(RawRegOp::Value(slot)),
            ));
            assert(view_all(r@) =~= seq![r@[0]@, r@[1]@]);
            r
        },
        chasm::Instruction::TwoOp(opcode, op1, op2) => compile_two_op(opcode, op1, op2, vars),
        chasm::Instruction::SingleOp(opcode, op) => compile_single_op(opcode, op, vars),
        chasm::Instruction::NoOp(opcode) => compile_no_op(opcode, vars),
    }
}

/// The frame layout of a section whose scopes take the allocations `allocs`.
pub open spec fn layout_of(allocs: Seq<AllocV>) -> (usize, (usize, usize, usize)) {
    let f = frame_offsets(allocs);
    (f.0 as usize, (f.1.0 as usize, f.1.1 as usize, f.1.2 as usize))
}

/// The nesting of scopes in a section leaves room in a `usize` for the
/// frame slots it needs (results and stack variables, each at most one per
/// level of nesting, and six saved registers).
pub open spec fn section_fits(section: chasm::SectionV) -> bool {
    2 * nesting(section.body) + 6 <= usize::MAX
}

/// The code for a section. Its scopes take storage as
/// [`allocations_of`] says; its parameters are bound below the frame; its
/// body is simplified by [`minimized_body`] and compiled by
/// [`compiled_body`]; and the label of the section, the prologue, the body
/// and a blank line then go through the [`peephole`] pass. `None` when the
/// section has no signature, has more than 32766 parameters, or its body
/// fails to compile or to be optimized.
pub open spec fn compiled_section(section: chasm::SectionV) -> Option<Seq<InstV>> {
    match section.signature {
        None => None,
        Some(params) => if params.len() > 32766 {
            None
        } else {
            let allocs = allocations_of(section.body, empty_config());
            let offsets = layout_of(allocs);
            let env = Env {
                scopes: seq![param_bindings(params, params.len() as int)],
                param_depth: 0,
                epilogue: epilogue_of(offsets),
            };
            match compiled_body(minimized_body(section.body), env, allocs, 0, offsets.1) {
                None => None,
                Some(b) => peephole(
                    seq![InstV::Label(section.name)] + prologue_of(offsets) + b + seq![InstV::Blank],
                ),
            }
        },
    }
}

/// The allocations made for a section's body are exactly enough for the
/// simplified body that is compiled: one for each of its scopes.
pub proof fn law_section_allocations_suffice(body: Seq<chasm::InstV>)
    ensures
        allocations_of(body, empty_config()).len() == scope_count(minimized_body(body)),
{
    law_one_allocation_per_scope(body, empty_config());
    law_minimize_keeps_scopes(body);
}

/// The code for one section: see [`compiled_section`].
pub fn compile_section(section: &chasm::Section) -> (r: Vec<Instruction>)
    requires
        section_fits(section@),
        compiled_section(section@) is Some,
    ensures
        view_all(r@) == compiled_section(section@).unwrap(),
{
    let ghost v = section@.body;
    let mut allocations: Vec<Allocation> = Vec::new();
    let mut cfg = MemoryConfig::default();
    assert(cfg == empty_config());
    determine_allocations(section.body.as_slice(), &mut cfg, &mut allocations);
    let ghost allocs = view_allocs(allocations@);
    assert(allocs =~= allocations_of(v, empty_config()));
    proof {
        lemma_allocations_within(v, empty_config());
        lemma_frame_counts_within(allocs, nesting(v));
    }
    let offsets = find_offsets(allocations.as_slice());
    assert(offsets == layout_of(allocs));
    let parameters = match &section.signature {
        Some(p) => {
            let mut names: Vec<String> = Vec::new();
            let mut i: usize = 0;
            while i < p.len()
                invariant
                    i <= p@.len(),
                    names@.len() == i,
                    forall|j: int| 0 <= j < i ==> #[trigger] names@[j]@ == p@[j]@,
                decreases p@.len() - i,
            {
                names.push(p[i].clone());
                i = i + 1;
            }
            names
        },
        None => vstd::pervasive::unreached(),
    };
    let ghost params = section@.signature.unwrap();
    assert(parameters@.map_values(|s: String| s@) =~= params);
    let epilogue_code = epilogue(&offsets);
    let mut vars = Vars::new(parameters, epilogue_code);
    let ghost env = vars.env();
    let ghost full = compiled_body(minimized_body(v), env, allocs, 0, offsets.1).unwrap();
    let mut code: Vec<Instruction> = Vec::new();
    code.push(Instruction::Label(section.name.clone()));
    let mut entry = prologue(&offsets);
    code.append(&mut entry);
    let ghost head = view_all(code@);
    assert(head =~= seq![InstV::Label(section@.name)] + prologue_of(offsets));
    let mut next: usize = 0;
    let ghost body = section.body@;
    proof {
        lemma_view_body(body);
        assert(v.skip(0) =~= v);
        assert(head + full =~= view_all(code@) + full);
    }
    let mut i: usize = 0;
    while i < section.body.len()
        invariant
            i <= body.len(),
            body == section.body@,
            v == view_body(body),
            v.len() == body.len(),
            forall|j: int| 0 <= j < body.len() ==> #[trigger] v[j] == view_inst(body[j]),
            allocs == view_allocs(allocations@),
            vars.env() == env,
            prepend_all(
                view_all(code@),
                compiled_body(minimized_body(v.skip(i as int)), env, allocs, next as int, offsets.1),
            ) == Some(head + full),
        decreases body.len() - i,
    {
        let ghost w = v.skip(i as int);
        assert(w.drop_first() =~= v.skip(i + 1));
        assert(w[0] == view_inst(body[i as int]));
        let ghost rest = minimized_body(w.drop_first());
        assert(minimized_body(w) == match minimized(w[0]) {
            Some(x) => seq![x],
            None => Seq::<chasm::InstV>::empty(),
        } + rest);
        let copy = section.body[i].duplicate();
        match minimize(copy) {
            Some(inst) => {
                let ghost m = seq![view_inst(inst)] + rest;
                assert(minimized_body(w) =~= m);
                assert(m[0] == view_inst(inst));
                assert(m.drop_first() =~= rest);
                let ghost before = code@;
                let mut part = compile_inst(&inst, &mut vars, allocations.as_slice(), &mut next, offsets.1);
                let ghost part_view = view_all(part@);
                code.append(&mut part);
                assert(view_all(code@) =~= view_all(before) + part_view);
            },
            None => {
                assert(minimized_body(w) =~= rest);
            },
        }
        i = i + 1;
    }
    assert(v.skip(i as int) =~= Seq::<chasm::InstV>::empty());
    assert(minimized_body(Seq::<chasm::InstV>::empty()) =~= Seq::<chasm::InstV>::empty());
    let ghost before = code@;
    code.push(Instruction::Blank);
    assert(view_all(code@) =~= view_all(before) + seq![InstV::Blank]);
    minimize_amine(code)
}

} // verus!
