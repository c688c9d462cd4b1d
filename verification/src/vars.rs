//! The names in scope while a section is compiled, and the operands they
//! stand for.
use vstd::prelude::*;
use vstd::hash_map::StringHashMap;
use crate::amine::{Instruction, RawRegOp, RegOp, Register, OpV, RawOpV, InstV, view_all, reg_operand};
use crate::chasm::{Operand, OperandV};
use crate::allocation::{AbstractAddress, Allocation};

verus! {

/// The register numbered `idx`, if there is one.
pub open spec fn reg_of(idx: int) -> Option<Register> {
    if idx == 0 {
        Some(Register::R0)
    } else if idx == 1 {
        Some(Register::R1)
    } else if idx == 2 {
        Some(Register::R2)
    } else if idx == 3 {
        Some(Register::R3)
    } else if idx == 4 {
        Some(Register::R4)
    } else if idx == 5 {
        Some(Register::R5)
    } else if idx == 6 {
        Some(Register::R6)
    } else if idx == 7 {
        Some(Register::R7)
    } else {
        None
    }
}

/// The register numbered `idx`, if there is one.
pub fn idx_to_reg(idx: usize) -> (r: Option<Register>)
    ensures
        r == reg_of(idx as int),
{
    match idx {
        0 => Some(Register::R0),
        1 => Some(Register::R1),
        2 => Some(Register::R2),
        3 => Some(Register::R3),
        4 => Some(Register::R4),
        5 => Some(Register::R5),
        6 => Some(Register::R6),
        7 => Some(Register::R7),
        _ => None,
    }
}

/// The mathematical state of a [`Vars`]: the scopes, innermost last, each
/// mapping names to operands; how many parameter scopes are open; and the
/// instructions that restore saved registers before a return.
pub struct Env {
    pub scopes: Seq<Map<Seq<char>, OpV>>,
    pub param_depth: nat,
    pub epilogue: Seq<InstV>,
}

/// The operand that `name` stands for: its binding in the innermost scope
/// that binds it, or the name itself as a symbolic constant.
pub open spec fn lookup_name(scopes: Seq<Map<Seq<char>, OpV>>, name: Seq<char>) -> OpV
    decreases scopes.len(),
{
    if scopes.len() == 0 {
        OpV::Direct(RawOpV::Const(name))
    } else if scopes.last().contains_key(name) {
        scopes.last()[name]
    } else {
        lookup_name(scopes.drop_last(), name)
    }
}

/// The operand that a Chasm operand stands for.
pub open spec fn lookup_operand_in(scopes: Seq<Map<Seq<char>, OpV>>, op: OperandV) -> OpV {
    match op {
        OperandV::Constant(c) => OpV::Direct(RawOpV::Value(c)),
        OperandV::Variable(v) => lookup_name(scopes, v),
    }
}

/// The 16-bit frame offset of parameter `idx` out of `count`: the two's
/// complement encoding of `idx - 2 - count`.
pub open spec fn param_slot(idx: int, count: int) -> u16 {
    (65536 + idx - 2 - count) as u16
}

/// The bindings of the first `k` of the section parameters `names`, each
/// to its frame slot; a later parameter of the same name wins.
pub open spec fn param_bindings(names: Seq<Seq<char>>, k: int) -> Map<Seq<char>, OpV>
    decreases k,
{
    if k <= 0 {
        Map::empty()
    } else {
        param_bindings(names, k - 1).insert(
            names[k - 1],
            OpV::Indirect(RawOpV::Value(param_slot(k - 1, names.len() as int))),
        )
    }
}

/// Whether binding a variable stored at `address` succeeds: the register it
/// names exists and its frame offset fits in a `usize`.
pub open spec fn binding_fits(address: AbstractAddress, offsets: (usize, usize, usize), param_depth: nat) -> bool {
    match address {
        AbstractAddress::Volatile(i) => reg_of(i as int) is Some,
        AbstractAddress::RegVar(i) => reg_of(i + 2) is Some,
        AbstractAddress::StackVar(i) => i + offsets.0 <= usize::MAX,
        AbstractAddress::InnerParam(i) => i + offsets.2 + param_depth <= usize::MAX,
        _ => true,
    }
}

/// The operand a variable stored at `address` stands for; `None` for an
/// outer parameter, which gets no binding.
pub open spec fn binding_of(address: AbstractAddress, offsets: (usize, usize, usize), param_depth: nat) -> Option<OpV> {
    match address {
        AbstractAddress::Volatile(i) => Some(reg_operand(reg_of(i as int).unwrap())),
        AbstractAddress::RegVar(i) => Some(reg_operand(reg_of(i + 2).unwrap())),
        AbstractAddress::StackVar(i) => Some(OpV::Indirect(RawOpV::Value((i + offsets.0) as u16))),
        AbstractAddress::InnerParam(i) => Some(
            OpV::Indirect(RawOpV::Value((i + offsets.2 + param_depth) as u16)),
        ),
        AbstractAddress::OuterResult(i) => Some(OpV::Indirect(RawOpV::Value(i as u16))),
        AbstractAddress::OuterParam(_) => None,
    }
}

/// Whether `a` is one of the register addresses that allocation hands out:
/// one of two volatile registers or one of six saved registers.
pub open spec fn register_address(a: AbstractAddress) -> bool {
    match a {
        AbstractAddress::Volatile(i) => i < 2,
        AbstractAddress::RegVar(i) => i < 6,
        _ => false,
    }
}

/// The register `r` as an operand.
pub open spec fn in_register(r: Register) -> Option<OpV> {
    Some(OpV::Direct(RawOpV::Register(r)))
}

/// Volatile register `i` is machine register `Ri`, and saved register `i`
/// is `R(i + 2)`; so two variables in distinct register addresses are bound
/// to distinct machine registers.
pub proof fn law_register_bindings(
    x: AbstractAddress,
    y: AbstractAddress,
    offsets: (usize, usize, usize),
    param_depth: nat,
)
    requires
        register_address(x),
        register_address(y),
        x != y,
    ensures
        binding_of(AbstractAddress::Volatile(0), offsets, param_depth) == in_register(Register::R0),
        binding_of(AbstractAddress::Volatile(1), offsets, param_depth) == in_register(Register::R1),
        binding_of(AbstractAddress::RegVar(0), offsets, param_depth) == in_register(Register::R2),
        binding_of(AbstractAddress::RegVar(1), offsets, param_depth) == in_register(Register::R3),
        binding_of(AbstractAddress::RegVar(2), offsets, param_depth) == in_register(Register::R4),
        binding_of(AbstractAddress::RegVar(3), offsets, param_depth) == in_register(Register::R5),
        binding_of(AbstractAddress::RegVar(4), offsets, param_depth) == in_register(Register::R6),
        binding_of(AbstractAddress::RegVar(5), offsets, param_depth) == in_register(Register::R7),
        binding_of(x, offsets, param_depth) != binding_of(y, offsets, param_depth),
{
}

/// The registers numbered 0 to 7 are `R0` to `R7`, in order; no other
/// number names a register.
pub proof fn law_register_numbers(i: int)
    ensures
        reg_of(0) == Some(Register::R0),
        reg_of(1) == Some(Register::R1),
        reg_of(2) == Some(Register::R2),
        reg_of(3) == Some(Register::R3),
        reg_of(4) == Some(Register::R4),
        reg_of(5) == Some(Register::R5),
        reg_of(6) == Some(Register::R6),
        reg_of(7) == Some(Register::R7),
        (i < 0 || i > 7) ==> reg_of(i) is None,
{
}

/// The scopes after binding `name` to the operand of `address` in the
/// innermost scope.
pub open spec fn scopes_with(
    scopes: Seq<Map<Seq<char>, OpV>>,
    name: Seq<char>,
    address: AbstractAddress,
    offsets: (usize, usize, usize),
    param_depth: nat,
) -> Seq<Map<Seq<char>, OpV>> {
    match binding_of(address, offsets, param_depth) {
        Some(op) => scopes.update(scopes.len() - 1, scopes.last().insert(name, op)),
        None => scopes,
    }
}

/// A name bound in a new innermost scope stands for its binding; every other
/// name stands for what it stood for before; and closing that scope gives
/// back the scopes as they were.
pub proof fn law_bind_in_new_scope(
    scopes: Seq<Map<Seq<char>, OpV>>,
    name: Seq<char>,
    other: Seq<char>,
    address: AbstractAddress,
    offsets: (usize, usize, usize),
    param_depth: nat,
)
    requires
        other != name,
    ensures
        binding_of(address, offsets, param_depth) matches Some(op) ==> lookup_name(
            scopes_with(scopes.push(Map::empty()), name, address, offsets, param_depth),
            name,
        ) == op,
        lookup_name(
            scopes_with(scopes.push(Map::empty()), name, address, offsets, param_depth),
            other,
        ) == lookup_name(scopes, other),
        scopes_with(scopes.push(Map::empty()), name, address, offsets, param_depth).drop_last()
            == scopes,
{
    let inner = scopes_with(scopes.push(Map::empty()), name, address, offsets, param_depth);
    assert(inner.drop_last() =~= scopes);
    assert(scopes.push(Map::empty()).drop_last() =~= scopes);
}

/// The scopes after binding, in order, each `(name, address, offsets)` of
/// `binds` in the innermost scope, as the matching sequence of
/// [`Vars::push_var`] calls does.
pub open spec fn scopes_with_all(
    scopes: Seq<Map<Seq<char>, OpV>>,
    binds: Seq<(Seq<char>, AbstractAddress, (usize, usize, usize))>,
    param_depth: nat,
) -> Seq<Map<Seq<char>, OpV>>
    decreases binds.len(),
{
    if binds.len() == 0 {
        scopes
    } else {
        let s = scopes_with_all(scopes, binds.drop_last(), param_depth);
        scopes_with(s, binds.last().0, binds.last().1, binds.last().2, param_depth)
    }
}

proof fn lemma_scopes_with_all_keeps_outer(
    scopes: Seq<Map<Seq<char>, OpV>>,
    binds: Seq<(Seq<char>, AbstractAddress, (usize, usize, usize))>,
    param_depth: nat,
)
    requires
        scopes.len() > 0,
    ensures
        scopes_with_all(scopes, binds, param_depth).len() == scopes.len(),
        scopes_with_all(scopes, binds, param_depth).drop_last() == scopes.drop_last(),
    decreases binds.len(),
{
    if binds.len() > 0 {
        let s = scopes_with_all(scopes, binds.drop_last(), param_depth);
        lemma_scopes_with_all_keeps_outer(scopes, binds.drop_last(), param_depth);
        let t = scopes_with(s, binds.last().0, binds.last().1, binds.last().2, param_depth);
        assert(t.drop_last() =~= s.drop_last());
    }
}

/// Closing a scope undoes opening it and any number of bindings made in it.
/// Start from the state `before`; open a scope as [`Vars::push_scope`] does;
/// bind each `(name, address, offsets)` of `binds` as [`Vars::push_var`]
/// does; close the scope as [`Vars::pop_scope`] does. The state is then
/// `before` again, so every name stands for what it stood for before.
pub proof fn law_pop_undoes_scope(
    before: Env,
    binds: Seq<(Seq<char>, AbstractAddress, (usize, usize, usize))>,
    name: Seq<char>,
)
    ensures
        ({
            let opened = Env { scopes: before.scopes.push(Map::empty()), ..before };
            let bound = Env {
                scopes: scopes_with_all(opened.scopes, binds, opened.param_depth),
                ..opened
            };
            let closed = Env {
                scopes: if bound.scopes.len() == 0 {
                    bound.scopes
                } else {
                    bound.scopes.drop_last()
                },
                ..bound
            };
            &&& closed == before
            &&& lookup_name(closed.scopes, name) == lookup_name(before.scopes, name)
        }),
{
    let opened = Env { scopes: before.scopes.push(Map::empty()), ..before };
    lemma_scopes_with_all_keeps_outer(opened.scopes, binds, opened.param_depth);
    assert(opened.scopes.drop_last() =~= before.scopes);
}

/// The names in scope during compilation.
pub struct Vars {
    pub scopes: Vec<StringHashMap<RegOp>>,
    pub param_depth: usize,
    pub epilogue: Vec<Instruction>,
}

/// The view of one scope.
pub open spec fn scope_view(m: StringHashMap<RegOp>) -> Map<Seq<char>, OpV> {
    m@.map_values(|r: RegOp| r@)
}

impl Vars {
    /// The mathematical state of these scopes.
    pub open spec fn env(&self) -> Env {
        Env {
            scopes: self.scopes@.map_values(|m: StringHashMap<RegOp>| scope_view(m)),
            param_depth: self.param_depth as nat,
            epilogue: view_all(self.epilogue@),
        }
    }

    /// One scope binding each parameter to its frame slot below the frame.
    pub fn new(parameters: Vec<String>, epilogue: Vec<Instruction>) -> (r: Vars)
        requires
            parameters.len() <= 32766,
        ensures
            r.env() == (Env {
                scopes: seq![
                    param_bindings(
                        parameters@.map_values(|s: String| s@),
                        parameters@.len() as int,
                    ),
                ],
                param_depth: 0,
                epilogue: view_all(epilogue@),
            }),
    {
        let ghost names = parameters@.map_values(|s: String| s@);
        let parameters_len = parameters.len();
        let mut map: StringHashMap<RegOp> = StringHashMap::new();
        let mut idx: usize = 0;
        while idx < parameters_len
            invariant
                parameters_len == parameters@.len(),
                parameters_len <= 32766,
                idx <= parameters_len,
                names == parameters@.map_values(|s: String| s@),
                scope_view(map) == param_bindings(names, idx as int),
            decreases parameters_len - idx,
        {
            let slot: u16 = (65534 - parameters_len + idx) as u16;
            let ghost before = map@;
            map.insert(parameters[idx].clone(), RegOp::Indirect(RawRegOp::Value(slot)));
            proof {
                assert(names[idx as int] == parameters@[idx as int]@);
                assert(scope_view(map) =~= param_bindings(names, idx + 1));
            }
            idx = idx + 1;
        }
        let mut scopes: Vec<StringHashMap<RegOp>> = Vec::new();
        scopes.push(map);
        let r = Vars { scopes, param_depth: 0, epilogue };
        assert(r.env().scopes =~= seq![param_bindings(names, parameters_len as int)]);
        r
    }

    /// Opens a new, empty, innermost scope.
    pub fn push_scope(&mut self)
        ensures
            final(self).env() == (Env {
                scopes: old(self).env().scopes.push(Map::empty()),
                ..old(self).env()
            }),
    {
        self.scopes.push(StringHashMap::new());
        assert(scope_view(self.scopes@.last()) =~= Map::empty());
        assert(self.env().scopes =~= old(self).env().scopes.push(Map::empty()));
    }

    /// Closes the innermost scope, if there is one.
    pub fn pop_scope(&mut self)
        ensures
            final(self).env() == (Env {
                scopes: if old(self).env().scopes.len() == 0 {
                    old(self).env().scopes
                } else {
                    old(self).env().scopes.drop_last()
                },
                ..old(self).env()
            }),
    {
        self.scopes.pop();
        assert(self.env().scopes =~= (if old(self).env().scopes.len() == 0 {
            old(self).env().scopes
        } else {
            old(self).env().scopes.drop_last()
        }));
    }

    /// Binds the name of `allocation`, in the innermost scope, to the operand
    /// of its storage; `offsets` is the frame layout of the section.
    pub fn push_var(&mut self, allocation: &Allocation, offsets: (usize, usize, usize))
        requires
            binding_fits(allocation.address, offsets, old(self).param_depth as nat),
            binding_of(allocation.address, offsets, old(self).param_depth as nat) is Some
                ==> old(self).scopes@.len() > 0,
        ensures
            final(self).env() == (Env {
                scopes: scopes_with(
                    old(self).env().scopes,
                    allocation.name@,
                    allocation.address,
                    offsets,
                    old(self).param_depth as nat,
                ),
                ..old(self).env()
            }),
    {
        let value = match allocation.address {
            AbstractAddress::Volatile(idx) => {
                RegOp::Direct(RawRegOp::Register(idx_to_reg(idx).unwrap()))
            },
            AbstractAddress::RegVar(idx) => {
                RegOp::Direct(RawRegOp::Register(idx_to_reg(idx + 2).unwrap()))
            },
            AbstractAddress::StackVar(idx) => {
                RegOp::Indirect(RawRegOp::Value(#[verifier::truncate] ((idx + offsets.0) as u16)))
            },
            AbstractAddress::InnerParam(idx) => {
                RegOp::Indirect(RawRegOp::Value(
                    #[verifier::truncate] ((idx + offsets.2 + self.param_depth) as u16),
                ))
            },
            AbstractAddress::OuterResult(idx) => RegOp::Indirect(RawRegOp::Value(#[verifier::truncate] (idx as u16))),
            _ => return ,
        };
        let last = self.scopes.len() - 1;
        let mut scope = self.scopes.remove(last);
        scope.insert(allocation.name.clone(), value);
        self.scopes.push(scope);
        proof {
            let op = binding_of(allocation.address, offsets, old(self).param_depth as nat).unwrap();
            assert(value@ == op);
            assert(scope_view(scope) =~= scope_view(old(self).scopes@[last as int]).insert(
                allocation.name@,
                op,
            ));
            assert(self.scopes@ =~= old(self).scopes@.update(last as int, scope));
        }
        assert(self.env().scopes =~= scopes_with(
            old(self).env().scopes,
            allocation.name@,
            allocation.address,
            offsets,
            old(self).param_depth as nat,
        ));
    }

    /// The operand that `name` stands for.
    pub fn lookup(&self, name: &str) -> (r: RegOp)
        ensures
            r@ == lookup_name(self.env().scopes, name@),
    {
        let ghost scopes = self.env().scopes;
        let mut i = self.scopes.len();
        assert(scopes.take(i as int) =~= scopes);
        while i > 0
            invariant
                i <= self.scopes@.len(),
                scopes == self.env().scopes,
                lookup_name(scopes, name@) == lookup_name(scopes.take(i as int), name@),
            decreases i,
        {
            let ghost t = scopes.take(i as int);
            assert(t.drop_last() =~= scopes.take(i - 1));
            assert(t.last() == scope_view(self.scopes@[i - 1]));
            match self.scopes[i - 1].get(name) {
                Some(op) => {
                    return op.duplicate();
                },
                None => {},
            }
            i = i - 1;
        }
        RegOp::Direct(RawRegOp::Const(name.to_string()))
    }

    /// The operand that a Chasm operand stands for.
    pub fn lookup_operand(&self, op: &Operand) -> (r: RegOp)
        ensures
            r@ == lookup_operand_in(self.env().scopes, op@),
    {
        match op {
            Operand::Constant(constant) => RegOp::Direct(RawRegOp::Value(*constant)),
            Operand::Variable(variable) => self.lookup(variable.as_str()),
        }
    }
}

} // verus!
