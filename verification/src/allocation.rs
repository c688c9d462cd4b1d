//! Where each variable of a section lives: the allocation of the names bound
//! by scopes to registers, stack slots and parameter slots, and the frame
//! offsets that follow from it.
use vstd::prelude::*;
use crate::chasm::{
    Instruction, InstV, SingleOpOpcode, view_body, view_inst, lemma_view_body, scope_count,
    scope_count_at,
};

verus! {

broadcast use vstd::std_specs::vec::group_vec_axioms;

/// The kind of storage given to a variable, with its index among its kind.
#[derive(Clone, Copy, Debug, PartialEq, Eq, Structural)]
pub enum AbstractAddress {
    OuterParam(usize),
    Volatile(usize),
    StackVar(usize),
    RegVar(usize),
    InnerParam(usize),
    OuterResult(usize),
}

/// A variable name with the storage it was given.
#[derive(Debug)]
pub struct Allocation {
    pub name: String,
    pub address: AbstractAddress,
}

/// Mathematical view of [`Allocation`].
pub struct AllocV {
    pub name: Seq<char>,
    pub address: AbstractAddress,
}

impl View for Allocation {
    type V = AllocV;

    open spec fn view(&self) -> AllocV {
        AllocV { name: self.name@, address: self.address }
    }
}

/// The views of a sequence of allocations.
pub open spec fn view_allocs(s: Seq<Allocation>) -> Seq<AllocV> {
    s.map_values(|a: Allocation| a@)
}

/// How many variables of each kind are live at a point of a section.
#[derive(Clone, Copy, Debug, PartialEq, Eq, Structural)]
pub struct MemoryConfig {
    pub stack_vars: usize,
    pub reg_vars: usize,
    pub volatile_vars: usize,
    pub result_count: usize,
    pub param_count: usize,
}

impl Default for MemoryConfig {
    fn default() -> (r: MemoryConfig)
        ensures
            r == (MemoryConfig {
                stack_vars: 0,
                reg_vars: 0,
                volatile_vars: 0,
                result_count: 0,
                param_count: 0,
            }),
    {
        MemoryConfig { stack_vars: 0, reg_vars: 0, volatile_vars: 0, result_count: 0, param_count: 0 }
    }
}

/// Whether some instruction of `code`, at any depth, takes the address of `name`.
pub open spec fn references_in(code: Seq<InstV>, name: Seq<char>) -> bool
    decreases code,
{
    if code.len() == 0 {
        false
    } else {
        references_at(code[0], name) || references_in(code.drop_first(), name)
    }
}

/// Whether `i` or an instruction nested in it takes the address of `name`.
pub open spec fn references_at(i: InstV, name: Seq<char>) -> bool
    decreases i,
{
    match i {
        InstV::Reference(_, s) => s == name,
        InstV::Alloc(_, _, b) => references_in(b, name),
        InstV::Param(_, _, b) => references_in(b, name),
        InstV::Result(_, _, b) => references_in(b, name),
        _ => false,
    }
}

/// Whether some instruction of `code`, at any depth, is a call.
pub open spec fn calls_in(code: Seq<InstV>) -> bool
    decreases code,
{
    if code.len() == 0 {
        false
    } else {
        calls_at(code[0]) || calls_in(code.drop_first())
    }
}

/// Whether `i` or an instruction nested in it is a call.
pub open spec fn calls_at(i: InstV) -> bool
    decreases i,
{
    match i {
        InstV::SingleOp(o, _) => o == SingleOpOpcode::Call,
        InstV::Alloc(_, _, b) => calls_in(b),
        InstV::Param(_, _, b) => calls_in(b),
        InstV::Result(_, _, b) => calls_in(b),
        _ => false,
    }
}

/// The deepest nesting of scopes in `code`.
pub open spec fn nesting(code: Seq<InstV>) -> nat
    decreases code,
{
    if code.len() == 0 {
        0
    } else {
        let rest = nesting(code.drop_first());
        let here = nesting_at(code[0]);
        if here > rest {
            here
        } else {
            rest
        }
    }
}

/// The deepest nesting of scopes in `i`, counting `i` itself.
pub open spec fn nesting_at(i: InstV) -> nat
    decreases i,
{
    match i {
        InstV::Alloc(_, _, b) => 1 + nesting(b),
        InstV::Param(_, _, b) => 1 + nesting(b),
        InstV::Result(_, _, b) => 1 + nesting(b),
        _ => 0,
    }
}

/// The storage chosen for a name bound by `Alloc` with body `inner`: a stack
/// slot if its address is taken; else one of two volatile registers if the
/// body makes no call and one is free; else one of six saved registers if
/// one is free; else a stack slot.
pub open spec fn alloc_address(name: Seq<char>, inner: Seq<InstV>, c: MemoryConfig) -> AbstractAddress {
    if references_in(inner, name) {
        AbstractAddress::StackVar(c.stack_vars)
    } else if !calls_in(inner) && c.volatile_vars < 2 {
        AbstractAddress::Volatile(c.volatile_vars)
    } else if c.reg_vars < 6 {
        AbstractAddress::RegVar(c.reg_vars)
    } else {
        AbstractAddress::StackVar(c.stack_vars)
    }
}

/// The counters inside a scope whose variable got `address`.
pub open spec fn config_inside(c: MemoryConfig, address: AbstractAddress) -> MemoryConfig {
    match address {
        AbstractAddress::StackVar(_) => MemoryConfig { stack_vars: (c.stack_vars + 1) as usize, ..c },
        AbstractAddress::Volatile(_) => MemoryConfig {
            volatile_vars: (c.volatile_vars + 1) as usize,
            ..c
        },
        AbstractAddress::RegVar(_) => MemoryConfig { reg_vars: (c.reg_vars + 1) as usize, ..c },
        AbstractAddress::InnerParam(_) => MemoryConfig {
            param_count: (c.param_count + 1) as usize,
            ..c
        },
        AbstractAddress::OuterResult(_) => MemoryConfig {
            result_count: (c.result_count + 1) as usize,
            ..c
        },
        AbstractAddress::OuterParam(_) => c,
    }
}

/// The allocations of the scopes of `code`, in the order in which the scopes
/// open (outer before inner, earlier before later), starting from counters `c`.
pub open spec fn allocations_of(code: Seq<InstV>, c: MemoryConfig) -> Seq<AllocV>
    decreases code,
{
    if code.len() == 0 {
        Seq::empty()
    } else {
        allocations_at(code[0], c) + allocations_of(code.drop_first(), c)
    }
}

/// The allocations of the scopes of `i` and of those nested in it.
pub open spec fn allocations_at(i: InstV, c: MemoryConfig) -> Seq<AllocV>
    decreases i,
{
    match i {
        InstV::Alloc(n, _, b) => {
            let a = alloc_address(n, b, c);
            seq![AllocV { name: n, address: a }] + allocations_of(b, config_inside(c, a))
        },
        InstV::Param(n, _, b) => {
            let a = AbstractAddress::InnerParam(c.result_count);
            seq![AllocV { name: n, address: a }] + allocations_of(b, config_inside(c, a))
        },
        InstV::Result(n, _, b) => {
            let a = AbstractAddress::OuterResult(c.result_count);
            seq![AllocV { name: n, address: a }] + allocations_of(b, config_inside(c, a))
        },
        _ => Seq::empty(),
    }
}

/// The counters of `c` that grow with nesting leave room in a `usize` for
/// `depth` more nested scopes.
pub open spec fn config_fits(c: MemoryConfig, depth: nat) -> bool {
    &&& c.stack_vars + depth <= usize::MAX
    &&& c.result_count + depth <= usize::MAX
    &&& c.param_count + depth <= usize::MAX
}

/// The counters of `c` leave room for `depth` more nested scopes, and the
/// register counters are within the number of registers of their kind.
pub open spec fn config_has_room(c: MemoryConfig, depth: nat) -> bool {
    &&& config_fits(c, depth)
    &&& c.reg_vars <= 6
    &&& c.volatile_vars <= 2
}

proof fn lemma_nesting_bounds(code: Seq<InstV>, k: int)
    requires
        0 <= k < code.len(),
    ensures
        nesting_at(code[k]) <= nesting(code),
        nesting(code.drop_first()) <= nesting(code),
    decreases code.len(),
{
    if k > 0 {
        lemma_nesting_bounds(code.drop_first(), k - 1);
        assert(code.drop_first()[k - 1] == code[k]);
    }
}

/// Whether some instruction of `code`, at any depth, takes the address of `name`.
fn any_reference_to(code: &[Instruction], name: &String) -> (r: bool)
    ensures
        r == references_in(view_body(code@), name@),
    decreases code@,
{
    let ghost v = view_body(code@);
    proof {
        lemma_view_body(code@);
        assert(v.skip(0) =~= v);
    }
    let mut i: usize = 0;
    while i < code.len()
        invariant
            i <= code@.len(),
            v == view_body(code@),
            v.len() == code@.len(),
            forall|j: int| 0 <= j < code@.len() ==> #[trigger] v[j] == view_inst(code@[j]),
            references_in(v, name@) == references_in(v.skip(i as int), name@),
        decreases code@.len() - i,
    {
        let ghost w = v.skip(i as int);
        assert(w.drop_first() =~= v.skip(i + 1));
        assert(w[0] == view_inst(code@[i as int]));
        assert(references_in(w, name@) == (references_at(w[0], name@) || references_in(
            w.drop_first(),
            name@,
        )));
        let found = match &code[i] {
            Instruction::Reference(_, s) => *s == *name,
            Instruction::Alloc(_, _, b) => {
                proof {
                    assert(decreases_to!(code@ => code@[i as int]));
                }
                any_reference_to(b.as_slice(), name)
            },
            Instruction::Param(_, _, b) => {
                proof {
                    assert(decreases_to!(code@ => code@[i as int]));
                }
                any_reference_to(b.as_slice(), name)
            },
            Instruction::Result(_, _, b) => {
                proof {
                    assert(decreases_to!(code@ => code@[i as int]));
                }
                any_reference_to(b.as_slice(), name)
            },
            _ => false,
        };
        if found {
            return true;
        }
        i = i + 1;
    }
    assert(v.skip(i as int) =~= Seq::<InstV>::empty());
    false
}

/// Whether some instruction of `code`, at any depth, is a call.
fn any_call(code: &[Instruction]) -> (r: bool)
    ensures
        r == calls_in(view_body(code@)),
    decreases code@,
{
    let ghost v = view_body(code@);
    proof {
        lemma_view_body(code@);
        assert(v.skip(0) =~= v);
    }
    let mut i: usize = 0;
    while i < code.len()
        invariant
            i <= code@.len(),
            v == view_body(code@),
            v.len() == code@.len(),
            forall|j: int| 0 <= j < code@.len() ==> #[trigger] v[j] == view_inst(code@[j]),
            calls_in(v) == calls_in(v.skip(i as int)),
        decreases code@.len() - i,
    {
        let ghost w = v.skip(i as int);
        assert(w.drop_first() =~= v.skip(i + 1));
        assert(w[0] == view_inst(code@[i as int]));
        assert(calls_in(w) == (calls_at(w[0]) || calls_in(w.drop_first())));
        let found = match &code[i] {
            Instruction::SingleOp(o, _) => *o == SingleOpOpcode::Call,
            Instruction::Alloc(_, _, b) => {
                proof {
                    assert(decreases_to!(code@ => code@[i as int]));
                }
                any_call(b.as_slice())
            },
            Instruction::Param(_, _, b) => {
                proof {
                    assert(decreases_to!(code@ => code@[i as int]));
                }
                any_call(b.as_slice())
            },
            Instruction::Result(_, _, b) => {
                proof {
                    assert(decreases_to!(code@ => code@[i as int]));
                }
                any_call(b.as_slice())
            },
            _ => false,
        };
        if found {
            return true;
        }
        i = i + 1;
    }
    assert(v.skip(i as int) =~= Seq::<InstV>::empty());
    false
}

/// The larger of two integers.
pub open spec fn max_int(a: int, b: int) -> int {
    if a >= b {
        a
    } else {
        b
    }
}

/// How many slots of each kind the allocations `s` use, as
/// (results, saved registers, stack variables): one more than the
/// largest index of that kind, or 0 if there is none.
pub open spec fn frame_counts(s: Seq<AllocV>) -> (int, int, int)
    decreases s.len(),
{
    if s.len() == 0 {
        (0, 0, 0)
    } else {
        let p = frame_counts(s.drop_last());
        match s.last().address {
            AbstractAddress::OuterResult(i) => (max_int(p.0, i + 1), p.1, p.2),
            AbstractAddress::RegVar(i) => (p.0, max_int(p.1, i + 1), p.2),
            AbstractAddress::StackVar(i) => (p.0, p.1, max_int(p.2, i + 1)),
            _ => p,
        }
    }
}

/// No index of a result, saved register or stack variable in `s`
/// is the largest `usize`.
pub open spec fn indices_below_max(s: Seq<AllocV>) -> bool {
    forall|k: int|
        0 <= k < s.len() ==> match #[trigger] s[k].address {
            AbstractAddress::OuterResult(i) => i < usize::MAX,
            AbstractAddress::RegVar(i) => i < usize::MAX,
            AbstractAddress::StackVar(i) => i < usize::MAX,
            _ => true,
        }
}

/// The frame layout `(saved registers, (results, results + stack variables,
/// results + stack variables + saved registers))` of the allocations `s`.
pub open spec fn frame_offsets(s: Seq<AllocV>) -> (int, (int, int, int)) {
    let (r, g, k) = frame_counts(s);
    (g, (r, r + k, r + k + g))
}

proof fn lemma_frame_counts_nonneg(s: Seq<AllocV>)
    ensures
        frame_counts(s).0 >= 0,
        frame_counts(s).1 >= 0,
        frame_counts(s).2 >= 0,
    decreases s.len(),
{
    if s.len() > 0 {
        lemma_frame_counts_nonneg(s.drop_last());
    }
}

/// The frame layout is ordered: results, then stack variables, then saved
/// registers, then parameters, and the saved-register area holds exactly
/// the saved registers.
pub proof fn law_frame_layout_ordered(s: Seq<AllocV>)
    ensures
        0 <= frame_offsets(s).1.0 <= frame_offsets(s).1.1 <= frame_offsets(s).1.2,
        frame_offsets(s).1.2 - frame_offsets(s).1.1 == frame_offsets(s).0,
        frame_offsets(s).0 >= 0,
{
    lemma_frame_counts_nonneg(s);
}

/// The slots that one allocation alone needs, as (results, saved registers,
/// stack variables).
pub open spec fn slot_need(a: AbstractAddress) -> (int, int, int) {
    match a {
        AbstractAddress::OuterResult(i) => (i + 1, 0, 0),
        AbstractAddress::RegVar(i) => (0, i + 1, 0),
        AbstractAddress::StackVar(i) => (0, 0, i + 1),
        _ => (0, 0, 0),
    }
}

/// The componentwise maximum of two slot counts.
pub open spec fn max3(x: (int, int, int), y: (int, int, int)) -> (int, int, int) {
    (max_int(x.0, y.0), max_int(x.1, y.1), max_int(x.2, y.2))
}

proof fn lemma_frame_counts_step(s: Seq<AllocV>)
    requires
        s.len() > 0,
    ensures
        frame_counts(s) == max3(frame_counts(s.drop_last()), slot_need(s.last().address)),
{
    lemma_frame_counts_nonneg(s.drop_last());
}

/// Each count is the largest need of an allocation of `s` (0 if none).
proof fn lemma_frame_counts_max(s: Seq<AllocV>)
    ensures
        forall|k: int|
            0 <= k < s.len() ==> {
                let n = #[trigger] slot_need(s[k].address);
                n.0 <= frame_counts(s).0 && n.1 <= frame_counts(s).1 && n.2 <= frame_counts(s).2
            },
        frame_counts(s).0 == 0 || exists|k: int|
            0 <= k < s.len() && #[trigger] slot_need(s[k].address).0 == frame_counts(s).0,
        frame_counts(s).1 == 0 || exists|k: int|
            0 <= k < s.len() && #[trigger] slot_need(s[k].address).1 == frame_counts(s).1,
        frame_counts(s).2 == 0 || exists|k: int|
            0 <= k < s.len() && #[trigger] slot_need(s[k].address).2 == frame_counts(s).2,
    decreases s.len(),
{
    if s.len() > 0 {
        let t = s.drop_last();
        let j = s.len() - 1;
        lemma_frame_counts_max(t);
        lemma_frame_counts_step(s);
        let l = slot_need(s[j].address);
        assert forall|k: int| 0 <= k < s.len() implies {
            let n = #[trigger] slot_need(s[k].address);
            n.0 <= frame_counts(s).0 && n.1 <= frame_counts(s).1 && n.2 <= frame_counts(s).2
        } by {
            if k < t.len() {
                assert(t[k] == s[k]);
                assert(slot_need(t[k].address) == slot_need(s[k].address));
            }
        }
        assert(s.last() == s[j]);
        if frame_counts(s).0 != 0 && frame_counts(s).0 != l.0 {
            let k = choose|k: int| 0 <= k < t.len() && #[trigger] slot_need(t[k].address).0 == frame_counts(t).0;
            assert(slot_need(s[k].address).0 == frame_counts(s).0);
        }
        if frame_counts(s).1 != 0 && frame_counts(s).1 != l.1 {
            let k = choose|k: int| 0 <= k < t.len() && #[trigger] slot_need(t[k].address).1 == frame_counts(t).1;
            assert(slot_need(s[k].address).1 == frame_counts(s).1);
        }
        if frame_counts(s).2 != 0 && frame_counts(s).2 != l.2 {
            let k = choose|k: int| 0 <= k < t.len() && #[trigger] slot_need(t[k].address).2 == frame_counts(t).2;
            assert(slot_need(s[k].address).2 == frame_counts(s).2);
        }
    }
}

/// The frame of two lists of allocations one after the other needs, of
/// each kind, as many slots as the larger of the two frames.
pub proof fn law_frame_counts_concat(a: Seq<AllocV>, b: Seq<AllocV>)
    ensures
        frame_counts(a + b) == max3(frame_counts(a), frame_counts(b)),
    decreases b.len(),
{
    lemma_frame_counts_nonneg(a);
    if b.len() == 0 {
        assert(a + b =~= a);
    } else {
        assert((a + b).drop_last() =~= a + b.drop_last());
        assert((a + b).last() == b.last());
        law_frame_counts_concat(a, b.drop_last());
        lemma_frame_counts_step(a + b);
        lemma_frame_counts_step(b);
    }
}

/// The frame does not depend on the order of the allocations: two lists
/// with the same allocations (a permutation) give the same frame.
pub proof fn law_frame_counts_permutation(a: Seq<AllocV>, b: Seq<AllocV>)
    requires
        a.to_multiset() == b.to_multiset(),
    ensures
        frame_counts(a) == frame_counts(b),
{
    broadcast use vstd::seq_lib::group_to_multiset_ensures;

    lemma_frame_counts_max(a);
    lemma_frame_counts_max(b);
    lemma_frame_counts_nonneg(a);
    lemma_frame_counts_nonneg(b);
    assert forall|k: int| 0 <= k < a.len() implies exists|j: int| 0 <= j < b.len() && b[j] == #[trigger] a[k] by {
        assert(a.contains(a[k]));
        assert(a.to_multiset().count(a[k]) > 0);
        assert(b.to_multiset().count(a[k]) > 0);
        assert(b.contains(a[k]));
    }
    assert forall|k: int| 0 <= k < b.len() implies exists|j: int| 0 <= j < a.len() && a[j] == #[trigger] b[k] by {
        assert(b.contains(b[k]));
        assert(b.to_multiset().count(b[k]) > 0);
        assert(a.to_multiset().count(b[k]) > 0);
        assert(a.contains(b[k]));
    }
    if frame_counts(a).0 != 0 {
        let k = choose|k: int| 0 <= k < a.len() && #[trigger] slot_need(a[k].address).0 == frame_counts(a).0;
        let j = choose|j: int| 0 <= j < b.len() && b[j] == a[k];
        assert(slot_need(b[j].address).0 <= frame_counts(b).0);
    }
    if frame_counts(b).0 != 0 {
        let k = choose|k: int| 0 <= k < b.len() && #[trigger] slot_need(b[k].address).0 == frame_counts(b).0;
        let j = choose|j: int| 0 <= j < a.len() && a[j] == b[k];
        assert(slot_need(a[j].address).0 <= frame_counts(a).0);
    }
    if frame_counts(a).1 != 0 {
        let k = choose|k: int| 0 <= k < a.len() && #[trigger] slot_need(a[k].address).1 == frame_counts(a).1;
        let j = choose|j: int| 0 <= j < b.len() && b[j] == a[k];
        assert(slot_need(b[j].address).1 <= frame_counts(b).1);
    }
    if frame_counts(b).1 != 0 {
        let k = choose|k: int| 0 <= k < b.len() && #[trigger] slot_need(b[k].address).1 == frame_counts(b).1;
        let j = choose|j: int| 0 <= j < a.len() && a[j] == b[k];
        assert(slot_need(a[j].address).1 <= frame_counts(a).1);
    }
    if frame_counts(a).2 != 0 {
        let k = choose|k: int| 0 <= k < a.len() && #[trigger] slot_need(a[k].address).2 == frame_counts(a).2;
        let j = choose|j: int| 0 <= j < b.len() && b[j] == a[k];
        assert(slot_need(b[j].address).2 <= frame_counts(b).2);
    }
    if frame_counts(b).2 != 0 {
        let k = choose|k: int| 0 <= k < b.len() && #[trigger] slot_need(b[k].address).2 == frame_counts(b).2;
        let j = choose|j: int| 0 <= j < a.len() && a[j] == b[k];
        assert(slot_need(a[j].address).2 <= frame_counts(a).2);
    }
}

/// The frame does not depend on names, nor on allocations that take no frame
/// slot (volatile registers, inner and outer parameters): inserting or
/// removing such an allocation, or renaming any allocation, leaves it as it is.
pub proof fn law_frame_counts_ignores(s: Seq<AllocV>, i: int, x: AllocV, name: Seq<char>)
    requires
        0 <= i <= s.len(),
        slot_need(x.address) == (0int, 0int, 0int),
    ensures
        frame_counts(s.insert(i, x)) == frame_counts(s),
        i < s.len() && slot_need(s[i].address) == (0int, 0int, 0int) ==> frame_counts(s.remove(i))
            == frame_counts(s),
        i < s.len() ==> frame_counts(s.update(i, AllocV { name, address: s[i].address }))
            == frame_counts(s),
{
    let one = seq![x];
    assert(one.drop_last() =~= Seq::<AllocV>::empty());
    lemma_frame_counts_step(one);
    lemma_frame_counts_nonneg(s.take(i));
    lemma_frame_counts_nonneg(s.skip(i));
    assert(s.insert(i, x) =~= (s.take(i) + one) + s.skip(i));
    assert(s =~= s.take(i) + s.skip(i));
    law_frame_counts_concat(s.take(i), one);
    law_frame_counts_concat(s.take(i) + one, s.skip(i));
    law_frame_counts_concat(s.take(i), s.skip(i));
    if i < s.len() {
        let t = s.skip(i + 1);
        lemma_frame_counts_nonneg(t);
        let y = AllocV { name, address: s[i].address };
        let o = seq![s[i]];
        let p = seq![y];
        assert(o.drop_last() =~= Seq::<AllocV>::empty());
        assert(p.drop_last() =~= Seq::<AllocV>::empty());
        lemma_frame_counts_step(o);
        lemma_frame_counts_step(p);
        assert(s =~= (s.take(i) + o) + t);
        assert(s.update(i, y) =~= (s.take(i) + p) + t);
        assert(s.remove(i) =~= s.take(i) + t);
        law_frame_counts_concat(s.take(i), o);
        law_frame_counts_concat(s.take(i) + o, t);
        law_frame_counts_concat(s.take(i), p);
        law_frame_counts_concat(s.take(i) + p, t);
        law_frame_counts_concat(s.take(i), t);
    }
}

/// The frame layout of a section: `(r, (n, m, k))` where `r` is the number of
/// saved registers used, the results take the frame slots below `n`, the
/// stack variables those from `n` to `m`, the saved registers those from `m`
/// to `k`, and the parameters start at `k`.
pub fn find_offsets(allocations: &[Allocation]) -> (r: (usize, (usize, usize, usize)))
    requires
        indices_below_max(view_allocs(allocations@)),
        frame_counts(view_allocs(allocations@)).0 + frame_counts(view_allocs(allocations@)).1
            + frame_counts(view_allocs(allocations@)).2 <= usize::MAX,
    ensures
        (r.0 as int, (r.1.0 as int, r.1.1 as int, r.1.2 as int)) == frame_offsets(
            view_allocs(allocations@),
        ),
{
    let ghost s = view_allocs(allocations@);
    let mut result_count: usize = 0;
    let mut reg_var_count: usize = 0;
    let mut stack_var_count: usize = 0;
    let mut i: usize = 0;
    proof {
        assert(s.take(0) =~= Seq::<AllocV>::empty());
        lemma_frame_counts_nonneg(s);
    }
    while i < allocations.len()
        invariant
            i <= allocations@.len(),
            s == view_allocs(allocations@),
            s.len() == allocations@.len(),
            indices_below_max(s),
            frame_counts(s.take(i as int)) == (
                result_count as int,
                reg_var_count as int,
                stack_var_count as int,
            ),
        decreases allocations@.len() - i,
    {
        assert(s.take(i + 1).drop_last() =~= s.take(i as int));
        assert(s.take(i + 1).last() == s[i as int]);
        assert(s[i as int] == allocations@[i as int]@);
        assert(s[i as int].address == allocations@[i as int].address);
        match allocations[i].address {
            AbstractAddress::OuterResult(idx) => {
                if idx + 1 > result_count {
                    result_count = idx + 1;
                }
            },
            AbstractAddress::RegVar(idx) => {
                if idx + 1 > reg_var_count {
                    reg_var_count = idx + 1;
                }
            },
            AbstractAddress::StackVar(idx) => {
                if idx + 1 > stack_var_count {
                    stack_var_count = idx + 1;
                }
            },
            _ => {},
        }
        i = i + 1;
    }
    assert(s.take(i as int) =~= s);
    (reg_var_count, (result_count, result_count + stack_var_count, result_count + stack_var_count
        + reg_var_count))
}

/// Every scope gets exactly one allocation: a body has as many allocations
/// as it opens scopes, nested ones included.
pub proof fn law_one_allocation_per_scope(code: Seq<InstV>, c: MemoryConfig)
    ensures
        allocations_of(code, c).len() == scope_count(code),
    decreases code,
{
    if code.len() > 0 {
        law_one_allocation_per_scope_at(code[0], c);
        law_one_allocation_per_scope(code.drop_first(), c);
    }
}

/// Every scope gets exactly one allocation: an instruction has as many
/// allocations as it opens scopes, itself and nested ones included.
pub proof fn law_one_allocation_per_scope_at(i: InstV, c: MemoryConfig)
    ensures
        allocations_at(i, c).len() == scope_count_at(i),
    decreases i,
{
    match i {
        InstV::Alloc(n, _, b) => law_one_allocation_per_scope(
            b,
            config_inside(c, alloc_address(n, b, c)),
        ),
        InstV::Param(_, _, b) => law_one_allocation_per_scope(
            b,
            config_inside(c, AbstractAddress::InnerParam(c.result_count)),
        ),
        InstV::Result(_, _, b) => law_one_allocation_per_scope(
            b,
            config_inside(c, AbstractAddress::OuterResult(c.result_count)),
        ),
        _ => {},
    }
}

/// Every instruction of `code` at any depth, in the order in which they are
/// written, each scope just before the instructions of its body.
pub open spec fn flatten(code: Seq<InstV>) -> Seq<InstV>
    decreases code,
{
    if code.len() == 0 {
        Seq::empty()
    } else {
        flatten_at(code[0]) + flatten(code.drop_first())
    }
}

/// `i` followed by every instruction nested in it; see [`flatten`].
pub open spec fn flatten_at(i: InstV) -> Seq<InstV>
    decreases i,
{
    match i {
        InstV::Alloc(_, _, b) => seq![i] + flatten(b),
        InstV::Param(_, _, b) => seq![i] + flatten(b),
        InstV::Result(_, _, b) => seq![i] + flatten(b),
        _ => seq![i],
    }
}

/// The scopes opened in `code` at any depth, in the order in which they
/// open: outer before inner, earlier before later.
pub open spec fn scopes_in(code: Seq<InstV>) -> Seq<InstV>
    decreases code,
{
    if code.len() == 0 {
        Seq::empty()
    } else {
        scopes_at(code[0]) + scopes_in(code.drop_first())
    }
}

/// `i`, if it opens a scope, followed by the scopes nested in it.
pub open spec fn scopes_at(i: InstV) -> Seq<InstV>
    decreases i,
{
    match i {
        InstV::Alloc(_, _, b) => seq![i] + scopes_in(b),
        InstV::Param(_, _, b) => seq![i] + scopes_in(b),
        InstV::Result(_, _, b) => seq![i] + scopes_in(b),
        _ => Seq::empty(),
    }
}

/// Whether some instruction of `s` satisfies `p`.
pub open spec fn occurs(s: Seq<InstV>, p: spec_fn(InstV) -> bool) -> bool {
    exists|j: int| 0 <= j < s.len() && #[trigger] p(s[j])
}

/// Whether `i` is a call.
pub open spec fn is_call(i: InstV) -> bool {
    i matches InstV::SingleOp(SingleOpOpcode::Call, _)
}

/// Whether `i` takes the address of `name`.
pub open spec fn is_reference_to(i: InstV, name: Seq<char>) -> bool {
    i matches InstV::Reference(_, m) && m == name
}

/// Whether `a` is storage that fits the scope `s`: it is for the name that
/// `s` binds; a parameter scope gets a parameter slot and a result scope a
/// result slot; the variable of an `Alloc` scope lives in a register or a
/// stack slot, on the stack when its body takes its address, and never in
/// a volatile register when its body makes a call at any depth.
pub open spec fn suits_scope(s: InstV, a: AllocV) -> bool {
    match s {
        InstV::Alloc(n, _, b) => {
            &&& a.name == n
            &&& (a.address is StackVar || a.address is Volatile || a.address is RegVar)
            &&& occurs(flatten(b), |i: InstV| is_reference_to(i, n)) ==> a.address is StackVar
            &&& occurs(flatten(b), |i: InstV| is_call(i)) ==> !(a.address is Volatile)
        },
        InstV::Param(n, _, _) => a.name == n && a.address is InnerParam,
        InstV::Result(n, _, _) => a.name == n && a.address is OuterResult,
        _ => false,
    }
}

proof fn lemma_occurs_concat(a: Seq<InstV>, b: Seq<InstV>, p: spec_fn(InstV) -> bool)
    ensures
        occurs(a + b, p) == (occurs(a, p) || occurs(b, p)),
{
    if occurs(a, p) {
        let j = choose|j: int| 0 <= j < a.len() && #[trigger] p(a[j]);
        assert((a + b)[j] == a[j]);
    } else if occurs(b, p) {
        let j = choose|j: int| 0 <= j < b.len() && #[trigger] p(b[j]);
        assert((a + b)[a.len() + j] == b[j]);
    } else {
        assert forall|j: int| 0 <= j < (a + b).len() implies !p(#[trigger] (a + b)[j]) by {
            if j < a.len() {
                assert((a + b)[j] == a[j]);
            } else {
                assert((a + b)[j] == b[j - a.len()]);
            }
        }
    }
}

proof fn lemma_occurs_single(x: InstV, p: spec_fn(InstV) -> bool)
    ensures
        occurs(seq![x], p) == p(x),
{
    if p(x) {
        assert(seq![x][0] == x);
    }
}

proof fn lemma_flatten_finds(code: Seq<InstV>, name: Seq<char>)
    ensures
        calls_in(code) == occurs(flatten(code), |i: InstV| is_call(i)),
        references_in(code, name) == occurs(flatten(code), |i: InstV| is_reference_to(i, name)),
    decreases code,
{
    if code.len() == 0 {
        assert(!occurs(flatten(code), |i: InstV| is_call(i)));
    } else {
        lemma_flatten_finds_at(code[0], name);
        lemma_flatten_finds(code.drop_first(), name);
        lemma_occurs_concat(flatten_at(code[0]), flatten(code.drop_first()), |i: InstV| is_call(i));
        lemma_occurs_concat(
            flatten_at(code[0]),
            flatten(code.drop_first()),
            |i: InstV| is_reference_to(i, name),
        );
    }
}

proof fn lemma_flatten_finds_at(x: InstV, name: Seq<char>)
    ensures
        calls_at(x) == occurs(flatten_at(x), |i: InstV| is_call(i)),
        references_at(x, name) == occurs(flatten_at(x), |i: InstV| is_reference_to(i, name)),
    decreases x,
{
    let pc = |i: InstV| is_call(i);
    let pr = |i: InstV| is_reference_to(i, name);
    lemma_occurs_single(x, pc);
    lemma_occurs_single(x, pr);
    match x {
        InstV::Alloc(_, _, b) => {
            lemma_flatten_finds(b, name);
            lemma_occurs_concat(seq![x], flatten(b), pc);
            lemma_occurs_concat(seq![x], flatten(b), pr);
        },
        InstV::Param(_, _, b) => {
            lemma_flatten_finds(b, name);
            lemma_occurs_concat(seq![x], flatten(b), pc);
            lemma_occurs_concat(seq![x], flatten(b), pr);
        },
        InstV::Result(_, _, b) => {
            lemma_flatten_finds(b, name);
            lemma_occurs_concat(seq![x], flatten(b), pc);
            lemma_occurs_concat(seq![x], flatten(b), pr);
        },
        _ => {},
    }
}

/// The allocations of `code` follow its scopes one for one, in the order in
/// which the scopes open, and each is storage that suits its scope (see
/// [`suits_scope`]): in particular a variable whose scope makes a call, at
/// any depth, is never kept in a volatile register, and one whose address
/// is taken lives on the stack.
pub proof fn law_allocations_suit_scopes(code: Seq<InstV>, c: MemoryConfig)
    ensures
        allocations_of(code, c).len() == scopes_in(code).len(),
        forall|k: int|
            0 <= k < scopes_in(code).len() ==> suits_scope(
                #[trigger] scopes_in(code)[k],
                allocations_of(code, c)[k],
            ),
    decreases code,
{
    if code.len() > 0 {
        law_allocations_suit_scopes_at(code[0], c);
        law_allocations_suit_scopes(code.drop_first(), c);
        let a = allocations_at(code[0], c);
        let b = allocations_of(code.drop_first(), c);
        let s = scopes_at(code[0]);
        let t = scopes_in(code.drop_first());
        assert forall|k: int| 0 <= k < scopes_in(code).len() implies suits_scope(
            #[trigger] scopes_in(code)[k],
            allocations_of(code, c)[k],
        ) by {
            if k < s.len() {
                assert((s + t)[k] == s[k]);
                assert((a + b)[k] == a[k]);
            } else {
                assert((s + t)[k] == t[k - s.len()]);
                assert((a + b)[k] == b[k - a.len()]);
            }
        }
    }
}

/// The allocations of `i` follow the scopes it opens one for one, and each
/// suits its scope; see [`law_allocations_suit_scopes`].
pub proof fn law_allocations_suit_scopes_at(i: InstV, c: MemoryConfig)
    ensures
        allocations_at(i, c).len() == scopes_at(i).len(),
        forall|k: int|
            0 <= k < scopes_at(i).len() ==> suits_scope(
                #[trigger] scopes_at(i)[k],
                allocations_at(i, c)[k],
            ),
    decreases i,
{
    match i {
        InstV::Alloc(n, _, b) => {
            let a = alloc_address(n, b, c);
            law_allocations_suit_scopes(b, config_inside(c, a));
            lemma_flatten_finds(b, n);
            lemma_scope_then_body(i, c, n, b, a);
        },
        InstV::Param(n, _, b) => {
            let a = AbstractAddress::InnerParam(c.result_count);
            law_allocations_suit_scopes(b, config_inside(c, a));
            lemma_scope_then_body(i, c, n, b, a);
        },
        InstV::Result(n, _, b) => {
            let a = AbstractAddress::OuterResult(c.result_count);
            law_allocations_suit_scopes(b, config_inside(c, a));
            lemma_scope_then_body(i, c, n, b, a);
        },
        _ => {},
    }
}

proof fn lemma_scope_then_body(i: InstV, c: MemoryConfig, n: Seq<char>, b: Seq<InstV>, a: AbstractAddress)
    requires
        allocations_at(i, c) == seq![AllocV { name: n, address: a }] + allocations_of(
            b,
            config_inside(c, a),
        ),
        scopes_at(i) == seq![i] + scopes_in(b),
        suits_scope(i, AllocV { name: n, address: a }),
        allocations_of(b, config_inside(c, a)).len() == scopes_in(b).len(),
        forall|k: int|
            0 <= k < scopes_in(b).len() ==> suits_scope(
                #[trigger] scopes_in(b)[k],
                allocations_of(b, config_inside(c, a))[k],
            ),
    ensures
        allocations_at(i, c).len() == scopes_at(i).len(),
        forall|k: int|
            0 <= k < scopes_at(i).len() ==> suits_scope(
                #[trigger] scopes_at(i)[k],
                allocations_at(i, c)[k],
            ),
{
    let head = seq![AllocV { name: n, address: a }];
    let rest = allocations_of(b, config_inside(c, a));
    assert forall|k: int| 0 <= k < scopes_at(i).len() implies suits_scope(
        #[trigger] scopes_at(i)[k],
        allocations_at(i, c)[k],
    ) by {
        if k == 0 {
            assert((seq![i] + scopes_in(b))[0] == i);
            assert((head + rest)[0] == head[0]);
        } else {
            assert((seq![i] + scopes_in(b))[k] == scopes_in(b)[k - 1]);
            assert((head + rest)[k] == rest[k - 1]);
        }
    }
}

/// Whether `a`, of a scope opened where the counters are `c`, has an index
/// no smaller than the counter of its kind (the result counter for a
/// parameter slot).
pub open spec fn address_at_least(a: AbstractAddress, c: MemoryConfig) -> bool {
    match a {
        AbstractAddress::OuterParam(_) => true,
        AbstractAddress::Volatile(i) => i >= c.volatile_vars,
        AbstractAddress::RegVar(i) => i >= c.reg_vars,
        AbstractAddress::StackVar(i) => i >= c.stack_vars,
        AbstractAddress::InnerParam(i) => i >= c.result_count,
        AbstractAddress::OuterResult(i) => i >= c.result_count,
    }
}

proof fn lemma_allocations_at_least(code: Seq<InstV>, c: MemoryConfig)
    requires
        config_fits(c, nesting(code)),
    ensures
        forall|k: int|
            0 <= k < allocations_of(code, c).len() ==> address_at_least(
                #[trigger] allocations_of(code, c)[k].address,
                c,
            ),
    decreases code,
{
    if code.len() > 0 {
        lemma_nesting_bounds(code, 0);
        lemma_allocations_at_least_at(code[0], c);
        lemma_allocations_at_least(code.drop_first(), c);
        let a = allocations_at(code[0], c);
        let b = allocations_of(code.drop_first(), c);
        assert forall|k: int| 0 <= k < allocations_of(code, c).len() implies address_at_least(
            #[trigger] allocations_of(code, c)[k].address,
            c,
        ) by {
            if k < a.len() {
                assert(allocations_of(code, c)[k] == a[k]);
            } else {
                assert(allocations_of(code, c)[k] == b[k - a.len()]);
            }
        }
    }
}

proof fn lemma_allocations_at_least_at(i: InstV, c: MemoryConfig)
    requires
        config_fits(c, nesting_at(i)),
    ensures
        forall|k: int|
            0 <= k < allocations_at(i, c).len() ==> address_at_least(
                #[trigger] allocations_at(i, c)[k].address,
                c,
            ),
    decreases i,
{
    match i {
        InstV::Alloc(n, _, b) => {
            let a = alloc_address(n, b, c);
            lemma_allocations_at_least(b, config_inside(c, a));
            lemma_head_then_at_least(i, c, n, a, b);
        },
        InstV::Param(n, _, b) => {
            let a = AbstractAddress::InnerParam(c.result_count);
            lemma_allocations_at_least(b, config_inside(c, a));
            lemma_head_then_at_least(i, c, n, a, b);
        },
        InstV::Result(n, _, b) => {
            let a = AbstractAddress::OuterResult(c.result_count);
            lemma_allocations_at_least(b, config_inside(c, a));
            lemma_head_then_at_least(i, c, n, a, b);
        },
        _ => {},
    }
}

proof fn lemma_head_then_at_least(i: InstV, c: MemoryConfig, n: Seq<char>, a: AbstractAddress, b: Seq<InstV>)
    requires
        allocations_at(i, c) == seq![AllocV { name: n, address: a }] + allocations_of(
            b,
            config_inside(c, a),
        ),
        address_at_least(a, c),
        config_fits(c, 1),
        a is Volatile ==> c.volatile_vars < 2,
        a is RegVar ==> c.reg_vars < 6,
        forall|k: int|
            0 <= k < allocations_of(b, config_inside(c, a)).len() ==> address_at_least(
                #[trigger] allocations_of(b, config_inside(c, a))[k].address,
                config_inside(c, a),
            ),
    ensures
        forall|k: int|
            0 <= k < allocations_at(i, c).len() ==> address_at_least(
                #[trigger] allocations_at(i, c)[k].address,
                c,
            ),
{
    let rest = allocations_of(b, config_inside(c, a));
    assert forall|k: int| 0 <= k < allocations_at(i, c).len() implies address_at_least(
        #[trigger] allocations_at(i, c)[k].address,
        c,
    ) by {
        if k > 0 {
            assert(allocations_at(i, c)[k] == rest[k - 1]);
            assert(address_at_least(rest[k - 1].address, config_inside(c, a)));
        }
    }
}

/// Variables live at once get distinct storage: the variable of a scope
/// and the variable of any scope nested in it never share a register, a
/// stack slot or a result slot. (Nested parameter scopes are told apart by
/// their depth when they are bound, not by their index.)
pub proof fn law_nested_storage_distinct(i: InstV, c: MemoryConfig, k: int)
    requires
        config_fits(c, nesting_at(i)),
        0 < k < allocations_at(i, c).len(),
        !(allocations_at(i, c)[0].address is InnerParam),
    ensures
        allocations_at(i, c)[k].address != allocations_at(i, c)[0].address,
{
    match i {
        InstV::Alloc(n, _, b) => {
            let a = alloc_address(n, b, c);
            lemma_allocations_at_least(b, config_inside(c, a));
            assert(allocations_at(i, c)[k] == allocations_of(b, config_inside(c, a))[k - 1]);
        },
        InstV::Param(n, _, b) => {},
        InstV::Result(n, _, b) => {
            let a = AbstractAddress::OuterResult(c.result_count);
            lemma_allocations_at_least(b, config_inside(c, a));
            assert(allocations_at(i, c)[k] == allocations_of(b, config_inside(c, a))[k - 1]);
        },
        _ => {},
    }
}

/// Counters with nothing live.
pub open spec fn empty_config() -> MemoryConfig {
    MemoryConfig { stack_vars: 0, reg_vars: 0, volatile_vars: 0, result_count: 0, param_count: 0 }
}

/// The bounds that an allocation made with counters `c`, within `depth`
/// nested scopes, keeps: no outer parameters, at most two volatile and six
/// saved registers, and stack and result indices below the counter plus
/// the depth.
pub open spec fn address_within(a: AbstractAddress, c: MemoryConfig, depth: nat) -> bool {
    match a {
        AbstractAddress::OuterParam(_) => false,
        AbstractAddress::Volatile(i) => i < 2,
        AbstractAddress::RegVar(i) => i < 6,
        AbstractAddress::StackVar(i) => i < c.stack_vars + depth,
        AbstractAddress::InnerParam(i) => i < c.result_count + depth,
        AbstractAddress::OuterResult(i) => i < c.result_count + depth,
    }
}

/// Every allocation of `code` keeps the bounds of [`address_within`].
pub proof fn lemma_allocations_within(code: Seq<InstV>, c: MemoryConfig)
    requires
        config_has_room(c, nesting(code)),
    ensures
        forall|k: int|
            0 <= k < allocations_of(code, c).len() ==> address_within(
                #[trigger] allocations_of(code, c)[k].address,
                c,
                nesting(code),
            ),
    decreases code,
{
    if code.len() > 0 {
        lemma_nesting_bounds(code, 0);
        lemma_allocations_within_at(code[0], c);
        lemma_allocations_within(code.drop_first(), c);
        let a = allocations_at(code[0], c);
        let b = allocations_of(code.drop_first(), c);
        assert forall|k: int| 0 <= k < allocations_of(code, c).len() implies address_within(
            #[trigger] allocations_of(code, c)[k].address,
            c,
            nesting(code),
        ) by {
            if k < a.len() {
                assert(allocations_of(code, c)[k] == a[k]);
            } else {
                assert(allocations_of(code, c)[k] == b[k - a.len()]);
            }
        }
    }
}

/// Every allocation of `i` keeps the bounds of [`address_within`].
pub proof fn lemma_allocations_within_at(i: InstV, c: MemoryConfig)
    requires
        config_has_room(c, nesting_at(i)),
    ensures
        forall|k: int|
            0 <= k < allocations_at(i, c).len() ==> address_within(
                #[trigger] allocations_at(i, c)[k].address,
                c,
                nesting_at(i),
            ),
    decreases i,
{
    match i {
        InstV::Alloc(n, _, b) => {
            let a = alloc_address(n, b, c);
            let c2 = config_inside(c, a);
            lemma_allocations_within(b, c2);
            let s = allocations_of(b, c2);
            assert forall|k: int| 0 <= k < allocations_at(i, c).len() implies address_within(
                #[trigger] allocations_at(i, c)[k].address,
                c,
                nesting_at(i),
            ) by {
                if k > 0 {
                    assert(allocations_at(i, c)[k] == s[k - 1]);
                }
            }
        },
        InstV::Param(n, _, b) => {
            let c2 = config_inside(c, AbstractAddress::InnerParam(c.result_count));
            lemma_allocations_within(b, c2);
            let s = allocations_of(b, c2);
            assert forall|k: int| 0 <= k < allocations_at(i, c).len() implies address_within(
                #[trigger] allocations_at(i, c)[k].address,
                c,
                nesting_at(i),
            ) by {
                if k > 0 {
                    assert(allocations_at(i, c)[k] == s[k - 1]);
                }
            }
        },
        InstV::Result(n, _, b) => {
            let c2 = config_inside(c, AbstractAddress::OuterResult(c.result_count));
            lemma_allocations_within(b, c2);
            let s = allocations_of(b, c2);
            assert forall|k: int| 0 <= k < allocations_at(i, c).len() implies address_within(
                #[trigger] allocations_at(i, c)[k].address,
                c,
                nesting_at(i),
            ) by {
                if k > 0 {
                    assert(allocations_at(i, c)[k] == s[k - 1]);
                }
            }
        },
        _ => {},
    }
}

/// Allocations within the bounds of [`address_within`] for empty counters
/// use at most `depth` result slots, at most six saved registers, and at
/// most `depth` stack slots.
pub proof fn lemma_frame_counts_within(s: Seq<AllocV>, depth: nat)
    requires
        forall|k: int| 0 <= k < s.len() ==> address_within(#[trigger] s[k].address, empty_config(), depth),
    ensures
        0 <= frame_counts(s).0 <= depth,
        0 <= frame_counts(s).1 <= 6,
        0 <= frame_counts(s).2 <= depth,
        indices_below_max(s) || depth > usize::MAX,
    decreases s.len(),
{
    if s.len() > 0 {
        let t = s.drop_last();
        assert forall|k: int| 0 <= k < t.len() implies address_within(#[trigger] t[k].address, empty_config(), depth) by {
            assert(t[k] == s[k]);
        }
        lemma_frame_counts_within(t, depth);
        assert(address_within(s[s.len() - 1].address, empty_config(), depth));
    }
}

/// Records, in `vars`, the storage of every name bound by a scope of `code`,
/// in the order in which the scopes open; `cfg` counts the variables of each
/// kind that are live around `code` and is the same again on return.
pub fn determine_allocations(code: &[Instruction], cfg: &mut MemoryConfig, vars: &mut Vec<Allocation>)
    requires
        config_fits(*old(cfg), nesting(view_body(code@))),
    ensures
        *final(cfg) == *old(cfg),
        view_allocs(final(vars)@) == view_allocs(old(vars)@) + allocations_of(
            view_body(code@),
            *old(cfg),
        ),
    decreases code@,
{
    let ghost v = view_body(code@);
    let ghost c = *cfg;
    let ghost start = view_allocs(vars@);
    proof {
        lemma_view_body(code@);
        assert(v.skip(0) =~= v);
        assert(start + allocations_of(v, c) =~= start + allocations_of(v.skip(0), c));
    }
    let mut i: usize = 0;
    while i < code.len()
        invariant
            i <= code@.len(),
            v == view_body(code@),
            v.len() == code@.len(),
            forall|j: int| 0 <= j < code@.len() ==> #[trigger] v[j] == view_inst(code@[j]),
            *cfg == c,
            config_fits(c, nesting(v)),
            view_allocs(vars@) + allocations_of(v.skip(i as int), c) == start + allocations_of(v, c),
        decreases code@.len() - i,
    {
        let ghost w = v.skip(i as int);
        let ghost before = view_allocs(vars@);
        assert(w.drop_first() =~= v.skip(i + 1));
        assert(w[0] == view_inst(code@[i as int]));
        assert(w[0] == v[i as int]);
        proof {
            lemma_nesting_bounds(v, i as int);
        }
        match &code[i] {
            Instruction::Alloc(name, _, inner) => {
                proof {
                    assert(decreases_to!(code@ => code@[i as int]));
                    lemma_view_body(inner@);
                }
                let is_referenced = any_reference_to(inner.as_slice(), name);
                let may_be_volatile = !any_call(inner.as_slice());
                let address = if is_referenced {
                    AbstractAddress::StackVar(cfg.stack_vars)
                } else if may_be_volatile && cfg.volatile_vars < 2 {
                    AbstractAddress::Volatile(cfg.volatile_vars)
                } else if cfg.reg_vars < 6 {
                    AbstractAddress::RegVar(cfg.reg_vars)
                } else {
                    AbstractAddress::StackVar(cfg.stack_vars)
                };
                vars.push(Allocation { name: name.clone(), address });
                match address {
                    AbstractAddress::StackVar(_) => {
                        cfg.stack_vars = cfg.stack_vars + 1;
                        determine_allocations(inner.as_slice(), cfg, vars);
                        cfg.stack_vars = cfg.stack_vars - 1;
                    },
                    AbstractAddress::Volatile(_) => {
                        cfg.volatile_vars = cfg.volatile_vars + 1;
                        determine_allocations(inner.as_slice(), cfg, vars);
                        cfg.volatile_vars = cfg.volatile_vars - 1;
                    },
                    _ => {
                        cfg.reg_vars = cfg.reg_vars + 1;
                        determine_allocations(inner.as_slice(), cfg, vars);
                        cfg.reg_vars = cfg.reg_vars - 1;
                    },
                }
            },
            Instruction::Param(name, _, inner) => {
                proof {
                    assert(decreases_to!(code@ => code@[i as int]));
                }
                vars.push(Allocation { name: name.clone(), address: AbstractAddress::InnerParam(cfg.result_count) });
                cfg.param_count = cfg.param_count + 1;
                determine_allocations(inner.as_slice(), cfg, vars);
                cfg.param_count = cfg.param_count - 1;
            },
            Instruction::Result(name, _, inner) => {
                proof {
                    assert(decreases_to!(code@ => code@[i as int]));
                }
                vars.push(Allocation { name: name.clone(), address: AbstractAddress::OuterResult(cfg.result_count) });
                cfg.result_count = cfg.result_count + 1;
                determine_allocations(inner.as_slice(), cfg, vars);
                cfg.result_count = cfg.result_count - 1;
            },
            _ => {},
        }
        assert(view_allocs(vars@) =~= before + allocations_at(w[0], c));
        assert(allocations_of(w, c) == allocations_at(w[0], c) + allocations_of(w.drop_first(), c));
        i = i + 1;
    }
    assert(v.skip(i as int) =~= Seq::<InstV>::empty());
}

} // verus!
