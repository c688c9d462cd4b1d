//! Peephole optimization of Amine code: adjacent additions of constants to
//! the same operand are summed, and adjacent pushes and pops are paired.
use vstd::prelude::*;
use crate::amine::{Instruction, InstV, OpV, RawOpV, SingleOpOpcode, TwoOpOpcode, view_all, prepend_all};

pub mod rule;

use rule::{Cursor, join_add, join_push, join_pop};

verus! {

/// Whether `a; b` are two additions of constants to the same operand.
pub open spec fn merges(a: InstV, b: InstV) -> bool {
    match (a, b) {
        (
            InstV::TwoOp(TwoOpOpcode::Add, x, OpV::Direct(RawOpV::Value(_))),
            InstV::TwoOp(TwoOpOpcode::Add, y, OpV::Direct(RawOpV::Value(_))),
        ) => x == y,
        _ => false,
    }
}

/// The constant that an addition of a constant adds.
pub open spec fn add_value(i: InstV) -> int {
    match i {
        InstV::TwoOp(_, _, OpV::Direct(RawOpV::Value(v))) => v as int,
        _ => 0,
    }
}

/// The single addition that replaces `a; b` when they merge: it adds the
/// sum of both constants to the operand of `b`.
pub open spec fn merged(a: InstV, b: InstV) -> InstV {
    match b {
        InstV::TwoOp(o, x, _) => InstV::TwoOp(
            TwoOpOpcode::Add,
            x,
            OpV::Direct(RawOpV::Value((add_value(a) + add_value(b)) as u16)),
        ),
        _ => b,
    }
}

/// Whether `a; b` are two pushes.
pub open spec fn pushes(a: InstV, b: InstV) -> bool {
    a matches InstV::SingleOp(SingleOpOpcode::Push, _) && b matches InstV::SingleOp(
        SingleOpOpcode::Push,
        _,
    )
}

/// Whether `a; b` are two pops.
pub open spec fn pops(a: InstV, b: InstV) -> bool {
    a matches InstV::SingleOp(SingleOpOpcode::Pop, _) && b matches InstV::SingleOp(
        SingleOpOpcode::Pop,
        _,
    )
}

/// The operand of a one-operand instruction.
pub open spec fn single_operand(i: InstV) -> OpV {
    match i {
        InstV::SingleOp(_, x) => x,
        _ => OpV::Direct(RawOpV::Value(0)),
    }
}

/// `o` with `x` in front of its sequence.
pub open spec fn prepend(x: InstV, o: Option<Seq<InstV>>) -> Option<Seq<InstV>> {
    match o {
        Some(t) => Some(seq![x] + t),
        None => None,
    }
}

/// The result of the peephole pass over `s`, scanning from the front: two
/// additions of constants to the same operand become one whose constant is
/// the sum (and scanning goes on from it), `push a; push b` becomes
/// `pusht a, b`, `pop b; pop a` becomes `popt a, b`, and any other
/// instruction stays. `None` when a sum does not fit in 16 bits.
pub open spec fn peephole(s: Seq<InstV>) -> Option<Seq<InstV>>
    decreases s.len(),
{
    if s.len() <= 1 {
        Some(s)
    } else if merges(s[0], s[1]) {
        if add_value(s[0]) + add_value(s[1]) > u16::MAX {
            None
        } else {
            peephole(seq![merged(s[0], s[1])] + s.skip(2))
        }
    } else if pushes(s[0], s[1]) {
        prepend(
            InstV::TwoOp(TwoOpOpcode::PushT, single_operand(s[0]), single_operand(s[1])),
            peephole(s.skip(2)),
        )
    } else if pops(s[0], s[1]) {
        prepend(
            InstV::TwoOp(TwoOpOpcode::PopT, single_operand(s[1]), single_operand(s[0])),
            peephole(s.skip(2)),
        )
    } else {
        prepend(s[0], peephole(s.skip(1)))
    }
}

/// Whether some rule joins `a; b`.
pub open spec fn joins(a: InstV, b: InstV) -> bool {
    merges(a, b) || pushes(a, b) || pops(a, b)
}

/// No rule joins two adjacent instructions of `t`.
pub open spec fn settled(t: Seq<InstV>) -> bool
    decreases t.len(),
{
    t.len() <= 1 || (!joins(t[0], t[1]) && settled(t.skip(1)))
}

/// What the first instruction `x` of the pass over a sequence can be, given
/// its first instruction `y`: `y` itself, a paired push or pop, or an
/// addition of a constant to the same operand as `y`.
pub open spec fn heads_alike(x: InstV, y: InstV) -> bool {
    ||| x == y
    ||| x matches InstV::TwoOp(TwoOpOpcode::PushT, _, _)
    ||| x matches InstV::TwoOp(TwoOpOpcode::PopT, _, _)
    ||| (x matches InstV::TwoOp(TwoOpOpcode::Add, xo, OpV::Direct(RawOpV::Value(_))) && y matches InstV::TwoOp(
        TwoOpOpcode::Add,
        yo,
        OpV::Direct(RawOpV::Value(_)),
    ) && xo == yo)
}

proof fn lemma_heads_alike(s: Seq<InstV>, t: Seq<InstV>)
    requires
        peephole(s) == Some(t),
    ensures
        t.len() <= s.len(),
        t.len() == 0 <==> s.len() == 0,
        t.len() > 0 ==> heads_alike(t[0], s[0]),
    decreases s.len(),
{
    if s.len() <= 1 {
    } else if merges(s[0], s[1]) {
        let m = seq![merged(s[0], s[1])] + s.skip(2);
        lemma_heads_alike(m, t);
        assert(m[0] == merged(s[0], s[1]));
    } else if pushes(s[0], s[1]) || pops(s[0], s[1]) {
        let u = peephole(s.skip(2)).unwrap();
        lemma_heads_alike(s.skip(2), u);
    } else {
        let u = peephole(s.skip(1)).unwrap();
        lemma_heads_alike(s.skip(1), u);
        assert(t[0] == s[0]);
    }
}

proof fn lemma_joins_alike(y: InstV, a: InstV, b: InstV)
    requires
        heads_alike(b, a),
        !joins(y, a),
    ensures
        !joins(y, b),
{
}

proof fn lemma_peephole_settled(s: Seq<InstV>, t: Seq<InstV>)
    requires
        peephole(s) == Some(t),
    ensures
        settled(t),
    decreases s.len(),
{
    if s.len() <= 1 {
    } else if merges(s[0], s[1]) {
        lemma_peephole_settled(seq![merged(s[0], s[1])] + s.skip(2), t);
    } else if pushes(s[0], s[1]) || pops(s[0], s[1]) {
        let u = peephole(s.skip(2)).unwrap();
        lemma_peephole_settled(s.skip(2), u);
        assert(t.skip(1) =~= u);
    } else {
        let u = peephole(s.skip(1)).unwrap();
        lemma_peephole_settled(s.skip(1), u);
        lemma_heads_alike(s.skip(1), u);
        assert(t.skip(1) =~= u);
        if u.len() > 0 {
            assert(s.skip(1)[0] == s[1]);
            lemma_joins_alike(s[0], s[1], u[0]);
        }
    }
}

proof fn lemma_settled_fixed(t: Seq<InstV>)
    requires
        settled(t),
    ensures
        peephole(t) == Some(t),
    decreases t.len(),
{
    if t.len() > 1 {
        lemma_settled_fixed(t.skip(1));
        assert(seq![t[0]] + t.skip(1) =~= t);
    }
}

/// The peephole pass is idempotent: running it again on its result changes
/// nothing. (So a second pass over the list, as a cursor that wraps around
/// would make, gives the same code.)
pub proof fn law_peephole_idempotent(s: Seq<InstV>)
    requires
        peephole(s) is Some,
    ensures
        peephole(peephole(s).unwrap()) == peephole(s),
{
    lemma_peephole_settled(s, peephole(s).unwrap());
    lemma_settled_fixed(peephole(s).unwrap());
}

/// The peephole pass never lengthens code, and gives empty code only for
/// empty code.
pub proof fn law_peephole_shrinks(s: Seq<InstV>)
    requires
        peephole(s) is Some,
    ensures
        peephole(s).unwrap().len() <= s.len(),
        peephole(s).unwrap().len() == 0 <==> s.len() == 0,
{
    lemma_heads_alike(s, peephole(s).unwrap());
}

/// What `i` does, spelled out in unit steps: adding a constant `v` to an
/// operand is `v` additions of 1 to it, `pusht a, b` is `push a; push b`,
/// `popt a, b` is `pop b; pop a`, and any other instruction is itself.
pub open spec fn unit_steps(i: InstV) -> Seq<InstV> {
    match i {
        InstV::TwoOp(TwoOpOpcode::Add, x, OpV::Direct(RawOpV::Value(v))) => Seq::new(
            v as nat,
            |k: int| InstV::TwoOp(TwoOpOpcode::Add, x, OpV::Direct(RawOpV::Value(1))),
        ),
        InstV::TwoOp(TwoOpOpcode::PushT, a, b) => seq![
            InstV::SingleOp(SingleOpOpcode::Push, a),
            InstV::SingleOp(SingleOpOpcode::Push, b),
        ],
        InstV::TwoOp(TwoOpOpcode::PopT, a, b) => seq![
            InstV::SingleOp(SingleOpOpcode::Pop, b),
            InstV::SingleOp(SingleOpOpcode::Pop, a),
        ],
        _ => seq![i],
    }
}

/// The unit steps of every instruction of `s`, in order.
pub open spec fn unit_steps_all(s: Seq<InstV>) -> Seq<InstV>
    decreases s.len(),
{
    if s.len() == 0 {
        Seq::empty()
    } else {
        unit_steps(s[0]) + unit_steps_all(s.skip(1))
    }
}

proof fn lemma_unit_steps_front(s: Seq<InstV>, x: InstV)
    ensures
        unit_steps_all(seq![x] + s) == unit_steps(x) + unit_steps_all(s),
{
    assert((seq![x] + s)[0] == x);
    assert((seq![x] + s).skip(1) =~= s);
}

/// The peephole pass does what the code did: spelled out in unit steps
/// (see [`unit_steps`]), its result is the code it was given. So every
/// instruction other than an addition of a constant, a push or a pop comes
/// out unchanged and in order, the constants added to an operand keep their
/// sum, and the same operands are pushed and popped in the same order.
pub proof fn law_peephole_keeps_steps(s: Seq<InstV>)
    requires
        peephole(s) is Some,
    ensures
        unit_steps_all(peephole(s).unwrap()) == unit_steps_all(s),
    decreases s.len(),
{
    let t = peephole(s).unwrap();
    if s.len() <= 1 {
    } else if merges(s[0], s[1]) {
        let m = seq![merged(s[0], s[1])] + s.skip(2);
        law_peephole_keeps_steps(m);
        lemma_unit_steps_front(s.skip(2), merged(s[0], s[1]));
        lemma_unit_steps_front(s.skip(1), s[0]);
        lemma_unit_steps_front(s.skip(2), s[1]);
        assert(seq![s[0]] + s.skip(1) =~= s);
        assert(seq![s[1]] + s.skip(2) =~= s.skip(1));
        assert(unit_steps(merged(s[0], s[1])) =~= unit_steps(s[0]) + unit_steps(s[1]));
        assert(unit_steps_all(m) =~= unit_steps_all(s));
    } else if pushes(s[0], s[1]) || pops(s[0], s[1]) {
        let u = peephole(s.skip(2)).unwrap();
        law_peephole_keeps_steps(s.skip(2));
        lemma_unit_steps_front(u, t[0]);
        assert(t =~= seq![t[0]] + u);
        lemma_unit_steps_front(s.skip(1), s[0]);
        lemma_unit_steps_front(s.skip(2), s[1]);
        assert(seq![s[0]] + s.skip(1) =~= s);
        assert(seq![s[1]] + s.skip(2) =~= s.skip(1));
        assert(unit_steps(t[0]) =~= unit_steps(s[0]) + unit_steps(s[1]));
    } else {
        let u = peephole(s.skip(1)).unwrap();
        law_peephole_keeps_steps(s.skip(1));
        lemma_unit_steps_front(u, s[0]);
        assert(t =~= seq![s[0]] + u);
        lemma_unit_steps_front(s.skip(1), s[0]);
        assert(seq![s[0]] + s.skip(1) =~= s);
    }
}

/// Whether no rule of the pass can join `a; b`: they are not two additions
/// of constants to one operand, two pushes, or two pops.
pub open spec fn apart(a: InstV, b: InstV) -> bool {
    &&& !(a matches InstV::TwoOp(TwoOpOpcode::Add, x, OpV::Direct(RawOpV::Value(_)))
        && b matches InstV::TwoOp(TwoOpOpcode::Add, y, OpV::Direct(RawOpV::Value(_))) && x == y)
    &&& !(a matches InstV::SingleOp(SingleOpOpcode::Push, _) && b matches InstV::SingleOp(
        SingleOpOpcode::Push,
        _,
    ))
    &&& !(a matches InstV::SingleOp(SingleOpOpcode::Pop, _) && b matches InstV::SingleOp(
        SingleOpOpcode::Pop,
        _,
    ))
}

proof fn lemma_apart_settled(s: Seq<InstV>)
    requires
        forall|k: int| 0 <= k < s.len() - 1 ==> apart(#[trigger] s[k], s[k + 1]),
    ensures
        settled(s),
    decreases s.len(),
{
    if s.len() > 1 {
        let t = s.skip(1);
        assert forall|k: int| 0 <= k < t.len() - 1 implies apart(#[trigger] t[k], t[k + 1]) by {
            assert(t[k] == s[k + 1]);
            assert(t[k + 1] == s[k + 2]);
        }
        lemma_apart_settled(t);
        assert(apart(s[0], s[1]));
    }
}

/// Code in which no two adjacent instructions can be joined comes out of
/// the pass unchanged: nothing else is dropped, reordered or rewritten.
pub proof fn law_peephole_keeps_apart_code(s: Seq<InstV>)
    requires
        forall|k: int| 0 <= k < s.len() - 1 ==> apart(#[trigger] s[k], s[k + 1]),
    ensures
        peephole(s) == Some(s),
{
    lemma_apart_settled(s);
    lemma_settled_fixed(s);
}

/// Applies the first rule that matches at the cursor.
fn apply_rule(cursor: &mut Cursor) -> (r: bool)
    requires
        old(cursor).wf(),
        peephole(old(cursor).remaining()) is Some,
    ensures
        final(cursor).wf(),
        prepend_all(final(cursor).before(), peephole(final(cursor).remaining())) == prepend_all(
            old(cursor).before(),
            peephole(old(cursor).remaining()),
        ),
        r ==> final(cursor).remaining().len() < old(cursor).remaining().len(),
        !r ==> *final(cursor) == *old(cursor),
        !r ==> !(old(cursor).remaining().len() >= 2 && (merges(
            old(cursor).remaining()[0],
            old(cursor).remaining()[1],
        ) || pushes(old(cursor).remaining()[0], old(cursor).remaining()[1]) || pops(
            old(cursor).remaining()[0],
            old(cursor).remaining()[1],
        ))),
{
    let ghost rem = cursor.remaining();
    let ghost pre = cursor.before();
    if join_add(cursor) {
        return true;
    }
    if join_push(cursor) {
        assert(!merges(rem[0], rem[1]));
        assert(pre.push(
            InstV::TwoOp(TwoOpOpcode::PushT, single_operand(rem[0]), single_operand(rem[1])),
        ) + peephole(rem.skip(2)).unwrap() =~= pre + (seq![
            InstV::TwoOp(TwoOpOpcode::PushT, single_operand(rem[0]), single_operand(rem[1])),
        ] + peephole(rem.skip(2)).unwrap()));
        return true;
    }
    if join_pop(cursor) {
        assert(!merges(rem[0], rem[1]));
        assert(!pushes(rem[0], rem[1]));
        assert(pre.push(
            InstV::TwoOp(TwoOpOpcode::PopT, single_operand(rem[1]), single_operand(rem[0])),
        ) + peephole(rem.skip(2)).unwrap() =~= pre + (seq![
            InstV::TwoOp(TwoOpOpcode::PopT, single_operand(rem[1]), single_operand(rem[0])),
        ] + peephole(rem.skip(2)).unwrap()));
        return true;
    }
    false
}

/// Runs the peephole pass over `code`.
pub fn minimize_amine(code: Vec<Instruction>) -> (r: Vec<Instruction>)
    requires
        peephole(view_all(code@)) is Some,
    ensures
        view_all(r@) == peephole(view_all(code@)).unwrap(),
{
    let ghost all = view_all(code@);
    let mut cursor = Cursor { done: Vec::new(), list: code, pos: 0 };
    assert(cursor.remaining() =~= all);
    assert(cursor.before() =~= Seq::<InstV>::empty());
    assert(prepend_all(cursor.before(), peephole(cursor.remaining())) =~= peephole(all));
    while cursor.pos < cursor.list.len()
        invariant
            cursor.wf(),
            peephole(all) is Some,
            prepend_all(cursor.before(), peephole(cursor.remaining())) == peephole(all),
        decreases cursor.remaining().len(),
    {
        let ghost start_len = cursor.remaining().len();
        loop
            invariant
                cursor.remaining().len() <= start_len,
                start_len >= 1,
                cursor.wf(),
                peephole(all) is Some,
                prepend_all(cursor.before(), peephole(cursor.remaining())) == peephole(all),
            ensures
                cursor.remaining().len() <= start_len,
                cursor.wf(),
                peephole(all) is Some,
                prepend_all(cursor.before(), peephole(cursor.remaining())) == peephole(all),
                !(cursor.remaining().len() >= 2 && (merges(
                    cursor.remaining()[0],
                    cursor.remaining()[1],
                ) || pushes(cursor.remaining()[0], cursor.remaining()[1]) || pops(
                    cursor.remaining()[0],
                    cursor.remaining()[1],
                ))),
            decreases cursor.remaining().len(),
        {
            if !apply_rule(&mut cursor) {
                break;
            }
        }
        if cursor.pos < cursor.list.len() {
            let ghost rem = cursor.remaining();
            let ghost pre = cursor.before();
            let current = cursor.list[cursor.pos].duplicate();
            cursor.done.push(current);
            cursor.pos = cursor.pos + 1;
            proof {
                assert(rem[0] == current@);
                assert(cursor.before() =~= pre.push(rem[0]));
                assert(cursor.remaining() =~= rem.skip(1));
                if rem.len() == 1 {
                    assert(rem.skip(1) =~= Seq::<InstV>::empty());
                    assert(rem =~= seq![rem[0]]);
                }
                assert(peephole(rem) == prepend(rem[0], peephole(rem.skip(1))));
                assert(pre.push(rem[0]) + peephole(rem.skip(1)).unwrap() =~= pre + (seq![rem[0]]
                    + peephole(rem.skip(1)).unwrap()));
            }
        }
    }
    assert(cursor.remaining() =~= Seq::<InstV>::empty());
    assert(cursor.before() + Seq::<InstV>::empty() =~= cursor.before());
    cursor.done
}

} // verus!
