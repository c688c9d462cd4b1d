//! A compiler from the Chasm intermediate representation to Amine assembly.
//!
//! Each section of a Chasm program becomes a labelled Amine routine: the
//! names bound by its scopes are given registers or frame slots, its code is
//! simplified, translated instruction by instruction and then passed through
//! a peephole optimizer.
pub mod amine;
pub mod chasm;
pub mod allocation;
pub mod vars;
pub mod optimize_chasm;
pub mod optimize_amine;
pub mod codegen;

use vstd::prelude::*;
use crate::amine::{
    Instruction, InstV, OpV, RawOpV, RawRegOp, RegOp, Register, SingleOpOpcode, TwoOpOpcode,
    NoOpOpcode, view_all, reg_operand, prepend_all,
};
use crate::chasm::{Section, SectionV};
use crate::codegen::{compile_section, compiled_section, section_fits, join_opt};

verus! {

/// The views of a sequence of sections.
pub open spec fn view_sections(s: Seq<Section>) -> Seq<SectionV> {
    s.map_values(|x: Section| x@)
}

/// The code that starts a program: point the stack register at the stack
/// label, call `main`, and exit.
pub open spec fn program_header() -> Seq<InstV> {
    seq![
        InstV::TwoOp(
            TwoOpOpcode::Mov,
            reg_operand(Register::RS),
            OpV::Direct(RawOpV::Const("§STACK"@)),
        ),
        InstV::SingleOp(SingleOpOpcode::Call, OpV::Direct(RawOpV::Const("main"@))),
        InstV::NoOp(NoOpOpcode::Exit),
    ]
}

/// The code that ends a program: the stack label, after which the stack grows.
pub open spec fn program_footer() -> Seq<InstV> {
    seq![InstV::Label("§STACK"@)]
}

/// The code of the sections, one after the other; `None` when one fails.
pub open spec fn sections_code(s: Seq<SectionV>) -> Option<Seq<InstV>>
    decreases s.len(),
{
    if s.len() == 0 {
        Some(Seq::empty())
    } else {
        join_opt(compiled_section(s[0]), sections_code(s.drop_first()))
    }
}

/// Sections compile independently: the code of two lists of sections, one
/// after the other, is the code of the first list followed by that of the
/// second.
pub proof fn law_sections_compose(a: Seq<SectionV>, b: Seq<SectionV>)
    ensures
        sections_code(a + b) == join_opt(sections_code(a), sections_code(b)),
    decreases a.len(),
{
    if a.len() == 0 {
        assert(a + b =~= b);
        match sections_code(b) {
            Some(t) => assert(Seq::<InstV>::empty() + t =~= t),
            None => {},
        }
    } else {
        assert((a + b).drop_first() =~= a.drop_first() + b);
        assert((a + b)[0] == a[0]);
        law_sections_compose(a.drop_first(), b);
        match (compiled_section(a[0]), sections_code(a.drop_first()), sections_code(b)) {
            (Some(x), Some(y), Some(z)) => assert(x + (y + z) =~= (x + y) + z),
            _ => {},
        }
    }
}

/// The code of a whole program: the header, the code of every section in
/// order, and the footer. `None` when a section fails to compile.
pub open spec fn compiled_program(s: Seq<SectionV>) -> Option<Seq<InstV>> {
    prepend_all(program_header(), join_opt(sections_code(s), Some(program_footer())))
}

/// Compiles a Chasm program, given as its sections, into Amine code.
pub fn compile_chasm_to_amine(ir: &[Section]) -> (r: Vec<Instruction>)
    requires
        forall|k: int| 0 <= k < ir@.len() ==> section_fits(#[trigger] ir@[k]@),
        compiled_program(view_sections(ir@)) is Some,
    ensures
        view_all(r@) == compiled_program(view_sections(ir@)).unwrap(),
{
    let ghost secs = view_sections(ir@);
    let mut result: Vec<Instruction> = Vec::new();
    result.push(Instruction::TwoOp(
        TwoOpOpcode::Mov,
        RegOp::Direct(RawRegOp::Register(Register::RS)),
        RegOp::Direct(RawRegOp::Const("§STACK".to_string())),
    ));
    result.push(Instruction::SingleOp(
        SingleOpOpcode::Call,
        RegOp::Direct(RawRegOp::Const("main".to_string())),
    ));
    result.push(Instruction::NoOp(NoOpOpcode::Exit));
    assert(view_all(result@) =~= program_header());
    let ghost full = sections_code(secs).unwrap();
    proof {
        assert(secs.skip(0) =~= secs);
    }
    let mut i: usize = 0;
    while i < ir.len()
        invariant
            i <= ir@.len(),
            secs == view_sections(ir@),
            forall|k: int| 0 <= k < ir@.len() ==> section_fits(#[trigger] ir@[k]@),
            sections_code(secs) == Some(full),
            prepend_all(view_all(result@), sections_code(secs.skip(i as int))) == Some(
                program_header() + full,
            ),
        decreases ir@.len() - i,
    {
        let ghost w = secs.skip(i as int);
        assert(w.drop_first() =~= secs.skip(i + 1));
        assert(w[0] == ir@[i as int]@);
        let ghost before = result@;
        let mut part = compile_section(&ir[i]);
        let ghost part_view = view_all(part@);
        result.append(&mut part);
        assert(view_all(result@) =~= view_all(before) + part_view);
        i = i + 1;
    }
    assert(secs.skip(i as int) =~= Seq::<SectionV>::empty());
    let ghost before = result@;
    result.push(Instruction::Label("§STACK".to_string()));
    assert(view_all(result@) =~= view_all(before) + program_footer());
    result
}

} // verus!
