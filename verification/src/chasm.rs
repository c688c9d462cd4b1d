//! The source language: Chasm intermediate representation, with a
//! mathematical view in which every string is a `Seq<char>` and every
//! nested body is a `Seq` of views.
use vstd::prelude::*;

verus! {

broadcast use vstd::std_specs::vec::group_vec_axioms;

/// Opcodes with two operands.
#[derive(Clone, Copy, Debug, PartialEq, Eq, Structural)]
pub enum TwoOpOpcode {
    Mov,
    Read,
    Write,
    Copy,
    Add,
    Sub,
    Mul,
    Div,
    Jrnzdec,
    Lookup,
    Fadd,
    Fsub,
    Fmul,
    Fdiv,
    Imul,
    Idiv,
    Shr,
    Shl,
    Itof,
    Utof,
    Ftoi,
    Ftou,
    Ctx,
}

/// Opcodes with one operand.
#[derive(Clone, Copy, Debug, PartialEq, Eq, Structural)]
pub enum SingleOpOpcode {
    Call,
    Jmp,
    Dbg,
}

/// Opcodes without operands.
#[derive(Clone, Copy, Debug, PartialEq, Eq, Structural)]
pub enum NoOpOpcode {
    Nop,
    Ret,
    Send,
}

/// An operand: a 16-bit constant or a named variable.
#[derive(Clone, Debug, PartialEq, Eq)]
pub enum Operand {
    Constant(u16),
    Variable(String),
}

/// A Chasm instruction. `Alloc`, `Param` and `Result` open a scope that
/// binds a name (with a size) for the instructions of their body.
#[derive(Debug, PartialEq, Eq)]
pub enum Instruction {
    Sublabel(String),
    Alloc(String, usize, Vec<Instruction>),
    Param(String, usize, Vec<Instruction>),
    Result(String, usize, Vec<Instruction>),
    Reference(Operand, String),
    Receive(Operand, usize),
    TwoOp(TwoOpOpcode, Operand, Operand),
    SingleOp(SingleOpOpcode, Operand),
    NoOp(NoOpOpcode),
}

/// A function of the program: its name, the names of its parameters
/// (absent when the section has no signature) and its body.
#[derive(Debug, PartialEq, Eq)]
pub struct Section {
    pub name: String,
    pub signature: Option<Vec<String>>,
    pub body: Vec<Instruction>,
}

/// Mathematical view of [`Operand`].
pub enum OperandV {
    Constant(u16),
    Variable(Seq<char>),
}

/// Mathematical view of [`Instruction`].
pub enum InstV {
    Sublabel(Seq<char>),
    Alloc(Seq<char>, usize, Seq<InstV>),
    Param(Seq<char>, usize, Seq<InstV>),
    Result(Seq<char>, usize, Seq<InstV>),
    Reference(OperandV, Seq<char>),
    Receive(OperandV, usize),
    TwoOp(TwoOpOpcode, OperandV, OperandV),
    SingleOp(SingleOpOpcode, OperandV),
    NoOp(NoOpOpcode),
}

/// Mathematical view of [`Section`].
pub struct SectionV {
    pub name: Seq<char>,
    pub signature: Option<Seq<Seq<char>>>,
    pub body: Seq<InstV>,
}

impl View for Operand {
    type V = OperandV;

    open spec fn view(&self) -> OperandV {
        match self {
            Operand::Constant(c) => OperandV::Constant(*c),
            Operand::Variable(s) => OperandV::Variable(s@),
        }
    }
}

/// The view of one instruction.
pub open spec fn view_inst(i: Instruction) -> InstV
    decreases i,
{
    match i {
        Instruction::Sublabel(s) => InstV::Sublabel(s@),
        Instruction::Alloc(n, s, b) => InstV::Alloc(n@, s, view_body(b@)),
        Instruction::Param(n, s, b) => InstV::Param(n@, s, view_body(b@)),
        Instruction::Result(n, s, b) => InstV::Result(n@, s, view_body(b@)),
        Instruction::Reference(d, s) => InstV::Reference(d@, s@),
        Instruction::Receive(d, k) => InstV::Receive(d@, k),
        Instruction::TwoOp(o, a, b) => InstV::TwoOp(o, a@, b@),
        Instruction::SingleOp(o, a) => InstV::SingleOp(o, a@),
        Instruction::NoOp(o) => InstV::NoOp(o),
    }
}

/// The views of a sequence of instructions.
pub open spec fn view_body(s: Seq<Instruction>) -> Seq<InstV>
    decreases s,
{
    if s.len() == 0 {
        Seq::empty()
    } else {
        seq![view_inst(s[0])] + view_body(s.drop_first())
    }
}

/// The view of a sequence has the same length and the view of each element.
pub proof fn lemma_view_body(s: Seq<Instruction>)
    ensures
        view_body(s).len() == s.len(),
        forall|i: int| 0 <= i < s.len() ==> #[trigger] view_body(s)[i] == view_inst(s[i]),
    decreases s.len(),
{
    if s.len() > 0 {
        lemma_view_body(s.drop_first());
        assert forall|i: int| 0 <= i < s.len() implies #[trigger] view_body(s)[i] == view_inst(
            s[i],
        ) by {
            if i > 0 {
                assert(s.drop_first()[i - 1] == s[i]);
            }
        }
    }
}

/// How many scopes open in `code`, nested ones included.
pub open spec fn scope_count(code: Seq<InstV>) -> nat
    decreases code,
{
    if code.len() == 0 {
        0
    } else {
        scope_count_at(code[0]) + scope_count(code.drop_first())
    }
}

/// How many scopes open in `i`, itself and nested ones included.
pub open spec fn scope_count_at(i: InstV) -> nat
    decreases i,
{
    match i {
        InstV::Alloc(_, _, b) => 1 + scope_count(b),
        InstV::Param(_, _, b) => 1 + scope_count(b),
        InstV::Result(_, _, b) => 1 + scope_count(b),
        _ => 0,
    }
}

/// Counting scopes distributes over concatenation.
pub proof fn lemma_scope_count_append(a: Seq<InstV>, b: Seq<InstV>)
    ensures
        scope_count(a + b) == scope_count(a) + scope_count(b),
    decreases a.len(),
{
    if a.len() == 0 {
        assert(a + b =~= b);
    } else {
        assert((a + b).drop_first() =~= a.drop_first() + b);
        assert((a + b)[0] == a[0]);
        lemma_scope_count_append(a.drop_first(), b);
    }
}

impl View for Instruction {
    type V = InstV;

    open spec fn view(&self) -> InstV {
        view_inst(*self)
    }
}

impl View for Section {
    type V = SectionV;

    open spec fn view(&self) -> SectionV {
        SectionV {
            name: self.name@,
            signature: match self.signature {
                Some(p) => Some(p@.map_values(|s: String| s@)),
                None => None,
            },
            body: view_body(self.body@),
        }
    }
}

impl Operand {
    /// A copy of this operand with the same view.
    pub fn duplicate(&self) -> (r: Operand)
        ensures
            r@ == self@,
    {
        match self {
            Operand::Constant(c) => Operand::Constant(*c),
            Operand::Variable(s) => Operand::Variable(s.clone()),
        }
    }
}

impl Instruction {
    /// A copy of this instruction, nested bodies included, with the same view.
    pub fn duplicate(&self) -> (r: Instruction)
        ensures
            view_inst(r) == view_inst(*self),
        decreases *self,
    {
        match self {
            Instruction::Sublabel(s) => Instruction::Sublabel(s.clone()),
            Instruction::Alloc(n, z, b) => Instruction::Alloc(n.clone(), *z, duplicate_body(b)),
            Instruction::Param(n, z, b) => Instruction::Param(n.clone(), *z, duplicate_body(b)),
            Instruction::Result(n, z, b) => Instruction::Result(n.clone(), *z, duplicate_body(b)),
            Instruction::Reference(d, s) => Instruction::Reference(d.duplicate(), s.clone()),
            Instruction::Receive(d, k) => Instruction::Receive(d.duplicate(), *k),
            Instruction::TwoOp(o, a, b) => Instruction::TwoOp(*o, a.duplicate(), b.duplicate()),
            Instruction::SingleOp(o, a) => Instruction::SingleOp(*o, a.duplicate()),
            Instruction::NoOp(o) => Instruction::NoOp(*o),
        }
    }
}

/// A copy of a body, with the same views.
pub fn duplicate_body(b: &Vec<Instruction>) -> (r: Vec<Instruction>)
    ensures
        view_body(r@) == view_body(b@),
    decreases b@,
{
    let mut r: Vec<Instruction> = Vec::new();
    let mut i: usize = 0;
    while i < b.len()
        invariant
            i <= b@.len(),
            r@.len() == i,
            forall|j: int| 0 <= j < i ==> view_inst(#[trigger] r@[j]) == view_inst(b@[j]),
        decreases b@.len() - i,
    {
        proof {
            assert(decreases_to!(b@ => b@[i as int]));
        }
        let x = b[i].duplicate();
        r.push(x);
        i = i + 1;
    }
    proof {
        lemma_view_body(r@);
        lemma_view_body(b@);
        assert(view_body(r@) =~= view_body(b@));
    }
    r
}

} // verus!
