//! The target language: Amine assembly instructions, with a mathematical
//! view in which every string is a `Seq<char>`.
use vstd::prelude::*;

verus! {

/// Machine registers of the Amine target.
#[derive(Clone, Copy, Debug, PartialEq, Eq, Structural)]
pub enum Register {
    R0,
    R1,
    R2,
    R3,
    R4,
    R5,
    R6,
    R7,
    RS,
    RB,
}

/// Opcodes with two operands.
#[derive(Clone, Copy, Debug, PartialEq, Eq, Structural)]
pub enum TwoOpOpcode {
    Mov,
    Read,
    Write,
    Copy,
    Add,
    Sub,
    Mul,
    Div,
    JrnzDec,
    Lookup,
    Fadd,
    Fsub,
    Fmul,
    Fdiv,
    Imul,
    Idiv,
    Shr,
    Shl,
    Itof,
    Utof,
    Ftoi,
    Ftou,
    Ctx,
    PushT,
    PopT,
}

/// Opcodes with one operand.
#[derive(Clone, Copy, Debug, PartialEq, Eq, Structural)]
pub enum SingleOpOpcode {
    Call,
    Push,
    Pop,
    Inc,
    Dec,
    Jmp,
    Dbg,
}

/// Opcodes without operands.
#[derive(Clone, Copy, Debug, PartialEq, Eq, Structural)]
pub enum NoOpOpcode {
    Exit,
    Nop,
    Ret,
    Send,
}

/// A raw operand: a register, a symbolic constant (label) or a 16-bit value.
#[derive(Clone, Debug, PartialEq, Eq)]
pub enum RawRegOp {
    Register(Register),
    Const(String),
    Value(u16),
}

/// An operand used directly or as a memory address.
#[derive(Clone, Debug, PartialEq, Eq)]
pub enum RegOp {
    Direct(RawRegOp),
    Indirect(RawRegOp),
}

/// An Amine instruction.
#[derive(Clone, Debug, PartialEq, Eq)]
pub enum Instruction {
    TwoOp(TwoOpOpcode, RegOp, RegOp),
    SingleOp(SingleOpOpcode, RegOp),
    NoOp(NoOpOpcode),
    Label(String),
    Sublabel(String),
    Blank,
}

/// Mathematical view of [`RawRegOp`].
pub enum RawOpV {
    Register(Register),
    Const(Seq<char>),
    Value(u16),
}

/// Mathematical view of [`RegOp`].
pub enum OpV {
    Direct(RawOpV),
    Indirect(RawOpV),
}

/// Mathematical view of [`Instruction`].
pub enum InstV {
    TwoOp(TwoOpOpcode, OpV, OpV),
    SingleOp(SingleOpOpcode, OpV),
    NoOp(NoOpOpcode),
    Label(Seq<char>),
    Sublabel(Seq<char>),
    Blank,
}

impl View for RawRegOp {
    type V = RawOpV;

    open spec fn view(&self) -> RawOpV {
        match self {
            RawRegOp::Register(r) => RawOpV::Register(*r),
            RawRegOp::Const(s) => RawOpV::Const(s@),
            RawRegOp::Value(v) => RawOpV::Value(*v),
        }
    }
}

impl View for RegOp {
    type V = OpV;

    open spec fn view(&self) -> OpV {
        match self {
            RegOp::Direct(r) => OpV::Direct(r@),
            RegOp::Indirect(r) => OpV::Indirect(r@),
        }
    }
}

impl View for Instruction {
    type V = InstV;

    open spec fn view(&self) -> InstV {
        match self {
            Instruction::TwoOp(o, a, b) => InstV::TwoOp(*o, a@, b@),
            Instruction::SingleOp(o, a) => InstV::SingleOp(*o, a@),
            Instruction::NoOp(o) => InstV::NoOp(*o),
            Instruction::Label(s) => InstV::Label(s@),
            Instruction::Sublabel(s) => InstV::Sublabel(s@),
            Instruction::Blank => InstV::Blank,
        }
    }
}

/// The views of a sequence of instructions.
pub open spec fn view_all(s: Seq<Instruction>) -> Seq<InstV> {
    s.map_values(|i: Instruction| i@)
}

/// A register used directly as an operand.
pub open spec fn reg_operand(r: Register) -> OpV {
    OpV::Direct(RawOpV::Register(r))
}

/// A 16-bit value used directly as an operand.
pub open spec fn value_operand(v: u16) -> OpV {
    OpV::Direct(RawOpV::Value(v))
}

/// `o` with `p` in front of its sequence.
pub open spec fn prepend_all(p: Seq<InstV>, o: Option<Seq<InstV>>) -> Option<Seq<InstV>> {
    match o {
        Some(t) => Some(p + t),
        None => None,
    }
}

/// A copy of a sequence of instructions with the same views.
pub fn copy_all(v: &Vec<Instruction>) -> (r: Vec<Instruction>)
    ensures
        view_all(r@) == view_all(v@),
{
    let mut r: Vec<Instruction> = Vec::new();
    let mut i: usize = 0;
    while i < v.len()
        invariant
            i <= v@.len(),
            r@.len() == i,
            forall|k: int| 0 <= k < i ==> #[trigger] r@[k]@ == v@[k]@,
        decreases v@.len() - i,
    {
        let x = v[i].duplicate();
        r.push(x);
        i = i + 1;
    }
    assert(view_all(r@) =~= view_all(v@));
    r
}

impl RawRegOp {
    /// A copy of this operand with the same view.
    pub fn duplicate(&self) -> (r: RawRegOp)
        ensures
            r@ == self@,
    {
        match self {
            RawRegOp::Register(reg) => RawRegOp::Register(*reg),
            RawRegOp::Const(s) => RawRegOp::Const(s.clone()),
            RawRegOp::Value(v) => RawRegOp::Value(*v),
        }
    }

    /// Compares two raw operands by their views.
    pub fn same_as(&self, other: &RawRegOp) -> (r: bool)
        ensures
            r == (self@ == other@),
    {
        match (self, other) {
            (RawRegOp::Register(a), RawRegOp::Register(b)) => *a == *b,
            (RawRegOp::Const(a), RawRegOp::Const(b)) => *a == *b,
            (RawRegOp::Value(a), RawRegOp::Value(b)) => *a == *b,
            _ => false,
        }
    }
}

impl RegOp {
    /// A copy of this operand with the same view.
    pub fn duplicate(&self) -> (r: RegOp)
        ensures
            r@ == self@,
    {
        match self {
            RegOp::Direct(raw) => RegOp::Direct(raw.duplicate()),
            RegOp::Indirect(raw) => RegOp::Indirect(raw.duplicate()),
        }
    }

    /// Compares two operands by their views.
    pub fn same_as(&self, other: &RegOp) -> (r: bool)
        ensures
            r == (self@ == other@),
    {
        match (self, other) {
            (RegOp::Direct(a), RegOp::Direct(b)) => a.same_as(b),
            (RegOp::Indirect(a), RegOp::Indirect(b)) => a.same_as(b),
            _ => false,
        }
    }
}

impl Instruction {
    /// A copy of this instruction with the same view.
    pub fn duplicate(&self) -> (r: Instruction)
        ensures
            r@ == self@,
    {
        match self {
            Instruction::TwoOp(o, a, b) => Instruction::TwoOp(*o, a.duplicate(), b.duplicate()),
            Instruction::SingleOp(o, a) => Instruction::SingleOp(*o, a.duplicate()),
            Instruction::NoOp(o) => Instruction::NoOp(*o),
            Instruction::Label(s) => Instruction::Label(s.clone()),
            Instruction::Sublabel(s) => Instruction::Sublabel(s.clone()),
            Instruction::Blank => Instruction::Blank,
        }
    }
}

} // verus!
