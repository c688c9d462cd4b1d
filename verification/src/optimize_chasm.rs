//! Peephole simplification of Chasm code before it is compiled.
use vstd::prelude::*;
use crate::chasm::{
    Instruction, InstV, Operand, OperandV, TwoOpOpcode, view_body, view_inst,
    lemma_view_body, scope_count, scope_count_at, lemma_scope_count_append,
};

verus! {

broadcast use vstd::std_specs::vec::group_vec_axioms;

/// Whether `i` does nothing and is dropped: adding, subtracting or shifting by
/// the constant 0, or moving or subtracting a variable to or from itself.
pub open spec fn is_dropped(i: InstV) -> bool {
    match i {
        InstV::TwoOp(o, _, OperandV::Constant(c)) => c == 0 && (o == TwoOpOpcode::Add
            || o == TwoOpOpcode::Sub || o == TwoOpOpcode::Shl || o == TwoOpOpcode::Shr),
        InstV::TwoOp(o, OperandV::Variable(l), OperandV::Variable(r)) => l == r && (o
            == TwoOpOpcode::Mov || o == TwoOpOpcode::Sub),
        _ => false,
    }
}

/// What [`minimize`] makes of one instruction: scopes become `Alloc` scopes
/// with simplified bodies, instructions that do nothing disappear, and every
/// other instruction stays as it is.
pub open spec fn minimized(i: InstV) -> Option<InstV>
    decreases i,
{
    match i {
        InstV::Alloc(n, s, b) => Some(InstV::Alloc(n, s, minimized_body(b))),
        InstV::Param(n, s, b) => Some(InstV::Alloc(n, s, minimized_body(b))),
        InstV::Result(n, s, b) => Some(InstV::Alloc(n, s, minimized_body(b))),
        _ => if is_dropped(i) {
            None
        } else {
            Some(i)
        },
    }
}

/// The simplified form of a sequence of instructions.
pub open spec fn minimized_body(s: Seq<InstV>) -> Seq<InstV>
    decreases s,
{
    if s.len() == 0 {
        Seq::empty()
    } else {
        let head = match minimized(s[0]) {
            Some(x) => seq![x],
            None => Seq::empty(),
        };
        head + minimized_body(s.drop_first())
    }
}

/// Splitting a sequence distributes its simplification.
pub proof fn lemma_minimized_body_append(a: Seq<InstV>, b: Seq<InstV>)
    ensures
        minimized_body(a + b) == minimized_body(a) + minimized_body(b),
    decreases a.len(),
{
    if a.len() == 0 {
        assert(a + b =~= b);
    } else {
        assert((a + b).drop_first() =~= a.drop_first() + b);
        lemma_minimized_body_append(a.drop_first(), b);
    }
}

/// Whether every scope in `code`, at any depth, is an `Alloc` scope.
pub open spec fn only_alloc_scopes(code: Seq<InstV>) -> bool
    decreases code,
{
    code.len() == 0 || (only_alloc_scopes_at(code[0]) && only_alloc_scopes(code.drop_first()))
}

/// Whether `i` and every scope nested in it is an `Alloc` scope or no scope.
pub open spec fn only_alloc_scopes_at(i: InstV) -> bool
    decreases i,
{
    match i {
        InstV::Alloc(_, _, b) => only_alloc_scopes(b),
        InstV::Param(_, _, _) => false,
        InstV::Result(_, _, _) => false,
        _ => true,
    }
}

proof fn lemma_minimized_single(x: InstV)
    ensures
        minimized_body(seq![x]) == match minimized(x) {
            Some(y) => seq![y],
            None => Seq::<InstV>::empty(),
        },
{
    assert(seq![x].drop_first() =~= Seq::<InstV>::empty());
    assert(minimized_body(Seq::<InstV>::empty()) =~= Seq::<InstV>::empty());
    assert(seq![x][0] == x);
}

proof fn lemma_minimized_stable(i: InstV)
    ensures
        match minimized(i) {
            Some(y) => minimized(y) == Some(y) && scope_count_at(y) == scope_count_at(i)
                && only_alloc_scopes_at(y),
            None => scope_count_at(i) == 0,
        },
    decreases i,
{
    match i {
        InstV::Alloc(n, s, b) => lemma_minimized_body_stable(b),
        InstV::Param(n, s, b) => lemma_minimized_body_stable(b),
        InstV::Result(n, s, b) => lemma_minimized_body_stable(b),
        _ => {},
    }
}

proof fn lemma_minimized_body_stable(s: Seq<InstV>)
    ensures
        minimized_body(minimized_body(s)) == minimized_body(s),
        scope_count(minimized_body(s)) == scope_count(s),
        only_alloc_scopes(minimized_body(s)),
    decreases s,
{
    if s.len() == 0 {
        assert(minimized_body(s) =~= Seq::<InstV>::empty());
    } else {
        let head = match minimized(s[0]) {
            Some(x) => seq![x],
            None => Seq::<InstV>::empty(),
        };
        let rest = minimized_body(s.drop_first());
        lemma_minimized_stable(s[0]);
        lemma_minimized_body_stable(s.drop_first());
        lemma_minimized_body_append(head, rest);
        lemma_scope_count_append(head, rest);
        match minimized(s[0]) {
            Some(x) => {
                lemma_minimized_single(x);
                assert(head.drop_first() =~= Seq::<InstV>::empty());
                assert(head[0] == x);
                assert(scope_count(head.drop_first()) == 0);
                assert(scope_count(head) == scope_count_at(x));
                assert((head + rest)[0] == x);
                assert((head + rest).drop_first() =~= rest);
            },
            None => {
                assert(head + rest =~= rest);
                assert(minimized_body(head) =~= Seq::<InstV>::empty());
            },
        }
    }
}

/// Simplifying is idempotent: simplified code simplifies to itself.
pub proof fn law_minimize_idempotent(s: Seq<InstV>)
    ensures
        minimized_body(minimized_body(s)) == minimized_body(s),
{
    lemma_minimized_body_stable(s);
}

/// Simplifying keeps every scope (so every allocation made for the code before
/// simplifying is still used), and leaves only `Alloc` scopes.
pub proof fn law_minimize_keeps_scopes(s: Seq<InstV>)
    ensures
        scope_count(minimized_body(s)) == scope_count(s),
        only_alloc_scopes(minimized_body(s)),
{
    lemma_minimized_body_stable(s);
}

/// Simplifying drops exactly the instructions that do nothing: adding,
/// subtracting or shifting left or right by the constant 0, and moving or
/// subtracting a variable onto itself. Any other instruction that opens no
/// scope comes back unchanged (a move of a constant, for one), and a scope
/// comes back as an `Alloc` scope with the same name and size.
pub proof fn law_minimize_drops_only_no_ops(i: InstV)
    ensures
        minimized(i) is None <==> {
            ||| (i matches InstV::TwoOp(o, _, OperandV::Constant(c)) && c == 0 && (o
                == TwoOpOpcode::Add || o == TwoOpOpcode::Sub || o == TwoOpOpcode::Shl || o
                == TwoOpOpcode::Shr))
            ||| (i matches InstV::TwoOp(o, OperandV::Variable(l), OperandV::Variable(r)) && l
                == r && (o == TwoOpOpcode::Mov || o == TwoOpOpcode::Sub))
        },
        minimized(i) matches Some(j) ==> match i {
            InstV::Alloc(n, s, _) => j matches InstV::Alloc(m, z, _) && m == n && z == s,
            InstV::Param(n, s, _) => j matches InstV::Alloc(m, z, _) && m == n && z == s,
            InstV::Result(n, s, _) => j matches InstV::Alloc(m, z, _) && m == n && z == s,
            _ => j == i,
        },
{
}

/// Simplifies one instruction; `None` when it does nothing and is dropped.
pub fn minimize(instruction: Instruction) -> (r: Option<Instruction>)
    ensures
        match r {
            Some(x) => minimized(instruction@) == Some(x@),
            None => minimized(instruction@) is None,
        },
    decreases instruction,
{
    match instruction {
        Instruction::Alloc(name, size, body) => {
            let body = minimize_all(body);
            Some(Instruction::Alloc(name, size, body))
        },
        Instruction::Param(name, size, body) => {
            let body = minimize_all(body);
            Some(Instruction::Alloc(name, size, body))
        },
        Instruction::Result(name, size, body) => {
            let body = minimize_all(body);
            Some(Instruction::Alloc(name, size, body))
        },
        Instruction::TwoOp(o, a, Operand::Constant(c)) => {
            if c == 0 && (o == TwoOpOpcode::Add || o == TwoOpOpcode::Sub || o == TwoOpOpcode::Shl
                || o == TwoOpOpcode::Shr) {
                None
            } else {
                Some(Instruction::TwoOp(o, a, Operand::Constant(c)))
            }
        },
        Instruction::TwoOp(o, Operand::Variable(l), Operand::Variable(r)) => {
            if (o == TwoOpOpcode::Mov || o == TwoOpOpcode::Sub) && l == r {
                None
            } else {
                Some(Instruction::TwoOp(o, Operand::Variable(l), Operand::Variable(r)))
            }
        },
        other => Some(other),
    }
}

/// Simplifies every instruction of a body, keeping the order of those that stay.
fn minimize_all(body: Vec<Instruction>) -> (r: Vec<Instruction>)
    ensures
        view_body(r@) == minimized_body(view_body(body@)),
    decreases body,
{
    let ghost original = body;
    let ghost n = body@.len();
    let mut rest = body;
    let mut stack: Vec<Instruction> = Vec::new();
    while rest.len() > 0
        invariant
            rest@.len() <= n,
            rest@ == original@.take(rest@.len() as int),
            stack@ =~= original@.skip(rest@.len() as int).reverse(),
            n == original@.len(),
        decreases rest.len(),
    {
        let x = rest.pop().unwrap();
        stack.push(x);
    }
    let mut result: Vec<Instruction> = Vec::new();
    proof {
        lemma_view_body(original@);
        lemma_view_body(result@);
    }
    while stack.len() > 0
        invariant
            stack@.len() <= n,
            n == original@.len(),
            stack@ =~= original@.skip(n - stack@.len()).reverse(),
            view_body(result@) == minimized_body(view_body(original@.take(n - stack@.len()))),
            view_body(original@).len() == n,
            forall|i: int| 0 <= i < n ==> view_body(original@)[i] == view_inst(#[trigger] original@[i]),
            original == body,
        decreases stack.len(),
    {
        let ghost j = n - stack@.len();
        let x = stack.pop().unwrap();
        assert(x == original@[j]);
        proof {
            assert(decreases_to!(original => original@));
            assert(decreases_to!(original@ => original@[j]));
        }
        let ghost before = result@;
        let m = minimize(x);
        proof {
            lemma_minimized_single(view_inst(original@[j]));
        }
        match m {
            Some(y) => {
                result.push(y);
                proof {
                    lemma_view_body(before);
                    lemma_view_body(result@);
                    assert(view_body(result@) =~= view_body(before) + seq![y@]);
                }
            },
            None => {
                assert(result@ == before);
            },
        }
        proof {
            lemma_view_body(original@.take(j));
            lemma_view_body(original@.take(j + 1));
            assert(view_body(original@.take(j + 1)) =~= view_body(original@.take(j)) + seq![
                view_inst(original@[j]),
            ]);
            lemma_minimized_body_append(view_body(original@.take(j)), seq![view_inst(original@[j])]);
            assert(view_body(result@) =~= minimized_body(view_body(original@.take(j + 1))));
        }
    }
    assert(original@.take(n as int) =~= original@);
    result
}

} // verus!
