//! The peephole rules, each applied at the position of a cursor over the
//! instruction list.
use vstd::prelude::*;
use crate::amine::{
    Instruction, InstV, RawRegOp, RegOp, SingleOpOpcode, TwoOpOpcode, view_all,
};
use super::{merges, merged, add_value, pushes, pops, single_operand};

verus! {

/// A position in an instruction list: `done` holds the instructions before
/// the cursor, `list[pos..]` those from the current one on.
pub struct Cursor {
    pub done: Vec<Instruction>,
    pub list: Vec<Instruction>,
    pub pos: usize,
}

impl Cursor {
    /// The views of the instructions before the cursor.
    pub open spec fn before(&self) -> Seq<InstV> {
        view_all(self.done@)
    }

    /// The views of the current instruction and those after it.
    pub open spec fn remaining(&self) -> Seq<InstV> {
        view_all(self.list@).skip(self.pos as int)
    }

    /// The cursor stands within its list or just past its end.
    pub open spec fn wf(&self) -> bool {
        self.pos <= self.list@.len()
    }
}

/// Joins two additions of constants to the same operand: when the current
/// instruction adds `a` and the next adds `b` to the same operand, the
/// current one is removed and the next one adds `a + b`.
pub fn join_add(cursor: &mut Cursor) -> (r: bool)
    requires
        old(cursor).wf(),
        old(cursor).remaining().len() >= 2 && merges(
            old(cursor).remaining()[0],
            old(cursor).remaining()[1],
        ) ==> add_value(old(cursor).remaining()[0]) + add_value(old(cursor).remaining()[1])
            <= u16::MAX,
    ensures
        final(cursor).wf(),
        r == (old(cursor).remaining().len() >= 2 && merges(
            old(cursor).remaining()[0],
            old(cursor).remaining()[1],
        )),
        r ==> final(cursor).before() == old(cursor).before() && final(cursor).remaining() == seq![
            merged(old(cursor).remaining()[0], old(cursor).remaining()[1]),
        ] + old(cursor).remaining().skip(2),
        !r ==> *final(cursor) == *old(cursor),
{
    let ghost rem = cursor.remaining();
    if cursor.pos >= cursor.list.len() || cursor.list.len() - cursor.pos < 2 {
        return false;
    }
    let p = cursor.pos;
    assert(rem[0] == cursor.list@[p as int]@);
    assert(rem[1] == cursor.list@[p + 1]@);
    let joined = match (&cursor.list[p], &cursor.list[p + 1]) {
        (
            Instruction::TwoOp(TwoOpOpcode::Add, curr_op, RegOp::Direct(RawRegOp::Value(curr_val))),
            Instruction::TwoOp(TwoOpOpcode::Add, next_op, RegOp::Direct(RawRegOp::Value(next_val))),
        ) => {
            if !curr_op.same_as(next_op) {
                return false;
            }
            Instruction::TwoOp(
                TwoOpOpcode::Add,
                next_op.duplicate(),
                RegOp::Direct(RawRegOp::Value(*next_val + *curr_val)),
            )
        },
        _ => {
            return false;
        },
    };
    cursor.list.set(p + 1, joined);
    cursor.pos = p + 1;
    proof {
        let new_rem = cursor.remaining();
        assert(new_rem =~= seq![joined@] + rem.skip(2));
    }
    true
}

/// Joins two pushes: `push a; push b` becomes `pusht a, b`, placed before
/// the cursor, which moves past both.
pub fn join_push(cursor: &mut Cursor) -> (r: bool)
    requires
        old(cursor).wf(),
    ensures
        final(cursor).wf(),
        r == (old(cursor).remaining().len() >= 2 && pushes(
            old(cursor).remaining()[0],
            old(cursor).remaining()[1],
        )),
        r ==> final(cursor).before() == old(cursor).before().push(
            InstV::TwoOp(
                TwoOpOpcode::PushT,
                single_operand(old(cursor).remaining()[0]),
                single_operand(old(cursor).remaining()[1]),
            ),
        ) && final(cursor).remaining() == old(cursor).remaining().skip(2),
        !r ==> *final(cursor) == *old(cursor),
{
    let ghost rem = cursor.remaining();
    if cursor.pos >= cursor.list.len() || cursor.list.len() - cursor.pos < 2 {
        return false;
    }
    let p = cursor.pos;
    assert(rem[0] == cursor.list@[p as int]@);
    assert(rem[1] == cursor.list@[p + 1]@);
    let joined = match (&cursor.list[p], &cursor.list[p + 1]) {
        (
            Instruction::SingleOp(SingleOpOpcode::Push, lhs_op),
            Instruction::SingleOp(SingleOpOpcode::Push, rhs_op),
        ) => Instruction::TwoOp(TwoOpOpcode::PushT, lhs_op.duplicate(), rhs_op.duplicate()),
        _ => {
            return false;
        },
    };
    cursor.done.push(joined);
    cursor.pos = p + 2;
    proof {
        assert(cursor.before() =~= old(cursor).before().push(joined@));
        assert(cursor.remaining() =~= rem.skip(2));
    }
    true
}

/// Joins two pops: `pop b; pop a` becomes `popt a, b`, placed before the
/// cursor, which moves past both.
pub fn join_pop(cursor: &mut Cursor) -> (r: bool)
    requires
        old(cursor).wf(),
    ensures
        final(cursor).wf(),
        r == (old(cursor).remaining().len() >= 2 && pops(
            old(cursor).remaining()[0],
            old(cursor).remaining()[1],
        )),
        r ==> final(cursor).before() == old(cursor).before().push(
            InstV::TwoOp(
                TwoOpOpcode::PopT,
                single_operand(old(cursor).remaining()[1]),
                single_operand(old(cursor).remaining()[0]),
            ),
        ) && final(cursor).remaining() == old(cursor).remaining().skip(2),
        !r ==> *final(cursor) == *old(cursor),
{
    let ghost rem = cursor.remaining();
    if cursor.pos >= cursor.list.len() || cursor.list.len() - cursor.pos < 2 {
        return false;
    }
    let p = cursor.pos;
    assert(rem[0] == cursor.list@[p as int]@);
    assert(rem[1] == cursor.list@[p + 1]@);
    let joined = match (&cursor.list[p], &cursor.list[p + 1]) {
        (
            Instruction::SingleOp(SingleOpOpcode::Pop, rhs_op),
            Instruction::SingleOp(SingleOpOpcode::Pop, lhs_op),
        ) => Instruction::TwoOp(TwoOpOpcode::PopT, lhs_op.duplicate(), rhs_op.duplicate()),
        _ => {
            return false;
        },
    };
    cursor.done.push(joined);
    cursor.pos = p + 2;
    proof {
        assert(cursor.before() =~= old(cursor).before().push(joined@));
        assert(cursor.remaining() =~= rem.skip(2));
    }
    true
}

} // verus!
