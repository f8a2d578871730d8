//! The register bank.
//!
//! A `Machine` owns a symbol table of register names and a parallel vector
//! of registers holding arbitrary-precision naturals, kept in lockstep: the
//! table's rank for a name equals that register's position.  Index 0 is
//! always the input register `X`, index 1 the output register `Y`; they
//! exist from construction and are never removed.  Arithmetic grows without
//! bound upward and saturates at zero downward.

use vstd::prelude::*;

use crate::natural::{
    big_add_assign, big_add_one, big_clone, big_cmp, big_from_u64, big_is_zero, big_set_zero,
    big_sub_assign, big_sub_one, big_to_decimal, decimal_of, nat_of, ord_of,
};
use crate::table::{Id, SymbolTable};

verus! {

/// The dense identifier of a register: its position in the bank.
#[derive(Debug, Clone, Copy, PartialEq, Eq, Structural)]
pub struct RegisterId {
    pub index: usize,
}

impl RegisterId {
    /// The input register's identifier, in specifications.
    pub open spec fn x_spec() -> RegisterId {
        RegisterId { index: 0 }
    }

    /// The output register's identifier, in specifications.
    pub open spec fn y_spec() -> RegisterId {
        RegisterId { index: 1 }
    }

    /// The input register, always at index 0.
    pub fn x() -> (r: Self)
        ensures
            r == RegisterId::x_spec(),
    {
        RegisterId { index: 0 }
    }

    /// The output register, always at index 1.
    pub fn y() -> (r: Self)
        ensures
            r == RegisterId::y_spec(),
    {
        RegisterId { index: 1 }
    }
}

impl Id for RegisterId {
    open spec fn id_index(self) -> usize {
        self.index
    }

    fn from_index(index: usize) -> (r: Self) {
        RegisterId { index }
    }

    fn into_index(self) -> (r: usize) {
        self.index
    }
}

/// Truncated subtraction: registers saturate at zero.
pub open spec fn sat_sub(a: nat, c: nat) -> nat {
    if a <= c {
        0
    } else {
        (a - c) as nat
    }
}

/// One register: an arbitrary-precision natural number.
struct Register {
    value: num_bigint::BigUint,
}

impl View for Register {
    type V = nat;

    closed spec fn view(&self) -> nat {
        nat_of(self.value)
    }
}

impl Register {
    /// Creates a register holding the given value.
    fn new(number: num_bigint::BigUint) -> (r: Register)
        ensures
            r@ == nat_of(number),
    {
        Register { value: number }
    }

    /// Adds one, without bound.
    fn inc(&mut self)
        ensures
            final(self)@ == old(self)@ + 1,
    {
        big_add_one(&mut self.value);
    }

    /// Subtracts one, saturating at zero.
    fn dec(&mut self)
        ensures
            final(self)@ == sat_sub(old(self)@, 1),
    {
        if !self.is_zero() {
            big_sub_one(&mut self.value);
        }
    }

    /// Whether the value is zero.
    fn is_zero(&self) -> (r: bool)
        ensures
            r == (self@ == 0),
    {
        big_is_zero(&self.value)
    }

    /// Sets the value to zero.
    fn clear(&mut self)
        ensures
            final(self)@ == 0,
    {
        big_set_zero(&mut self.value);
    }

    /// Adds a constant, without bound.
    fn add(&mut self, constant: &num_bigint::BigUint)
        ensures
            final(self)@ == old(self)@ + nat_of(*constant),
    {
        big_add_assign(&mut self.value, constant);
    }

    /// Subtracts a constant, saturating at zero.
    fn sub(&mut self, constant: &num_bigint::BigUint)
        ensures
            final(self)@ == sat_sub(old(self)@, nat_of(*constant)),
    {
        match big_cmp(&self.value, constant) {
            core::cmp::Ordering::Greater => big_sub_assign(&mut self.value, constant),
            _ => big_set_zero(&mut self.value),
        }
    }

    /// Compares the value to a constant.
    fn cmp(&self, constant: &num_bigint::BigUint) -> (r: core::cmp::Ordering)
        ensures
            r == ord_of(self@, nat_of(*constant)),
    {
        big_cmp(&self.value, constant)
    }

    /// Reads the value out.
    fn value(&self) -> (r: num_bigint::BigUint)
        ensures
            nat_of(r) == self@,
    {
        big_clone(&self.value)
    }

    /// Overwrites the value.
    fn set_value(&mut self, value: num_bigint::BigUint)
        ensures
            final(self)@ == nat_of(value),
    {
        self.value = value;
    }
}

/// The register bank: names bound to dense identifiers, and one register
/// per name, in creation order.
pub struct Machine {
    register_table: SymbolTable<RegisterId>,
    registers: Vec<Register>,
}

impl Machine {
    /// The register names, in creation order.
    pub closed spec fn names(&self) -> Seq<Seq<char>> {
        self.register_table@
    }

    /// The register values, in creation order.
    pub closed spec fn values(&self) -> Seq<nat> {
        Seq::new(self.registers@.len() as nat, |i: int| self.registers@[i]@)
    }

    /// Name table and storage are in lockstep and names are distinct.
    pub closed spec fn consistent(&self) -> bool {
        &&& self.register_table.wf()
        &&& self.names().len() == self.values().len()
    }

    /// Consistent, and the two reserved registers `X` and `Y` sit at
    /// indices 0 and 1.
    pub open spec fn wf(&self) -> bool {
        &&& self.consistent()
        &&& self.names().len() >= 2
        &&& self.names()[0] == "X"@
        &&& self.names()[1] == "Y"@
    }

    /// Creates a bank whose input register `X` holds `input` and whose
    /// output register `Y` holds zero.
    pub fn new(input: num_bigint::BigUint) -> (m: Machine)
        ensures
            m.wf(),
            m.names() =~= seq!["X"@, "Y"@],
            m.values() =~= seq![nat_of(input), 0nat],
    {
        let mut this = Machine { register_table: SymbolTable::empty(), registers: Vec::new() };
        proof {
            reveal_strlit("X");
            reveal_strlit("Y");
            assert("X"@[0] == 'X');
            assert("Y"@[0] == 'Y');
            assert("X"@ != "Y"@);
        }
        let x = this.create_register("X", input);
        let y = this.create_register("Y", big_from_u64(0));
        this
    }

    /// Binds a new register name to the next identifier and appends a
    /// register holding `data`, or reports the existing identifier and
    /// changes nothing.
    pub fn try_create_register(&mut self, name: String, data: num_bigint::BigUint) -> (r: Result<
        RegisterId,
        RegisterId,
    >)
        requires
            old(self).wf(),
        ensures
            final(self).wf(),
            (match r {
                Ok(id) => !old(self).names().contains(name@) && final(self).names() == old(
                    self,
                ).names().push(name@) && final(self).values() =~= old(self).values().push(
                    nat_of(data),
                ) && id.index == old(self).names().len(),
                Err(id) => old(self).names().contains(name@) && final(self).names() == old(
                    self,
                ).names() && final(self).values() =~= old(self).values() && id.index < old(
                    self,
                ).names().len() && old(self).names()[id.index as int] == name@,
            }),
    {
        match self.register_table.try_create(name) {
            Ok(id) => {
                self.registers.push(Register::new(data));
                Ok(id)
            },
            Err(id) => Err(id),
        }
    }

    /// Binds a new register name, which must not exist yet.
    pub fn create_register(&mut self, name: &str, data: num_bigint::BigUint) -> (id: RegisterId)
        requires
            old(self).consistent(),
            !old(self).names().contains(name@),
        ensures
            final(self).consistent(),
            final(self).names() == old(self).names().push(name@),
            final(self).values() =~= old(self).values().push(nat_of(data)),
            id.index == old(self).names().len(),
            old(self).wf() ==> final(self).wf(),
    {
        let id = self.register_table.create(name);
        self.registers.push(Register::new(data));
        id
    }

    /// Binds the register name if it is new, appending a register holding
    /// `data`; either way returns the name's identifier.
    pub fn insert_register(&mut self, name: String, data: num_bigint::BigUint) -> (id: RegisterId)
        requires
            old(self).wf(),
        ensures
            final(self).wf(),
            old(self).names().contains(name@) ==> final(self).names() == old(self).names()
                && final(self).values() =~= old(self).values() && id.index < old(self).names().len()
                && old(self).names()[id.index as int] == name@,
            !old(self).names().contains(name@) ==> final(self).names() == old(self).names().push(
                name@,
            ) && final(self).values() =~= old(self).values().push(nat_of(data)) && id.index == old(
                self,
            ).names().len(),
    {
        match self.try_create_register(name, data) {
            Ok(id) => id,
            Err(id) => id,
        }
    }

    /// Every register as `(name, identifier, value)`, in creation order.
    pub fn registers(&self) -> (r: Vec<(String, RegisterId, num_bigint::BigUint)>)
        requires
            self.wf(),
        ensures
            r@.len() == self.names().len(),
            forall|i: int|
                0 <= i < r@.len() ==> r@[i].0@ == self.names()[i] && r@[i].1.index as int == i
                    && nat_of(r@[i].2) == self.values()[i],
    {
        let names = self.register_table.iter();
        proof {
            assert forall|i: int|
                0 <= i < names@.len() implies names@[i].0@ == self.names()[i]
                && names@[i].1.index as int == i by {
                assert(names@[i].1.id_index() as int == i);
            }
        }
        let mut out: Vec<(String, RegisterId, num_bigint::BigUint)> = Vec::new();
        let n = names.len();
        let mut k: usize = 0;
        while k < n
            invariant
                self.wf(),
                n == names@.len(),
                names@.len() == self.names().len(),
                forall|i: int|
                    0 <= i < names@.len() ==> names@[i].0@ == self.names()[i]
                        && names@[i].1.index as int == i,
                k <= n,
                out@.len() == k as int,
                forall|i: int|
                    0 <= i < k as int ==> out@[i].0@ == self.names()[i] && out@[i].1.index as int
                        == i && nat_of(out@[i].2) == self.values()[i],
            decreases n - k,
        {
            let (name, id) = &names[k];
            let data = self.registers[k].value();
            out.push((name.clone(), *id, data));
            proof {
                assert(out@[k as int].0@ == self.names()[k as int]);
                assert(out@[k as int].1.index as int == k as int);
                assert(nat_of(out@[k as int].2) == self.values()[k as int]);
            }
            k = k + 1;
        }
        out
    }

    /// Read access to the name table.
    pub fn register_table(&self) -> (t: &SymbolTable<RegisterId>)
        ensures
            t@ == self.names(),
            self.consistent() ==> t.wf(),
    {
        &self.register_table
    }

    /// Sets the input: the value of register `X`.
    pub fn input(&mut self, data: num_bigint::BigUint)
        requires
            old(self).wf(),
        ensures
            final(self).wf(),
            final(self).names() == old(self).names(),
            final(self).values() =~= old(self).values().update(0, nat_of(data)),
    {
        self.registers[0].set_value(data);
    }

    /// Reads the output: the value of register `Y`.
    pub fn output(&self) -> (r: num_bigint::BigUint)
        requires
            self.wf(),
        ensures
            nat_of(r) == self.values()[1],
    {
        self.value(RegisterId::y())
    }

    /// Whether a register of this name exists.
    pub fn register_exists(&self, reg_name: &str) -> (r: bool)
        ensures
            r == self.names().contains(reg_name@),
    {
        self.register_table.contains_symbol(reg_name)
    }

    /// Sets every register to zero, removing none.
    pub fn clear_all(&mut self)
        requires
            old(self).wf(),
        ensures
            final(self).wf(),
            final(self).names() == old(self).names(),
            final(self).values() =~= Seq::new(old(self).values().len(), |i: int| 0nat),
    {
        let n = self.registers.len();
        let mut k: usize = 0;
        while k < n
            invariant
                self.register_table == old(self).register_table,
                self.registers@.len() == old(self).registers@.len(),
                n == self.registers@.len(),
                k <= n,
                forall|i: int| 0 <= i < k as int ==> self.registers@[i]@ == 0nat,
                forall|i: int|
                    k as int <= i < n as int ==> self.registers@[i] == old(self).registers@[i],
            decreases n - k,
        {
            self.registers[k].clear();
            k = k + 1;
        }
    }

    /// Sets the register to zero.
    pub fn clear(&mut self, reg_id: RegisterId)
        requires
            old(self).wf(),
            reg_id.index < old(self).values().len(),
        ensures
            final(self).wf(),
            final(self).names() == old(self).names(),
            final(self).values() =~= old(self).values().update(reg_id.index as int, 0nat),
    {
        self.registers[reg_id.index].clear();
    }

    /// Adds one to the register, without bound.
    pub fn inc(&mut self, reg_id: RegisterId)
        requires
            old(self).wf(),
            reg_id.index < old(self).values().len(),
        ensures
            final(self).wf(),
            final(self).names() == old(self).names(),
            final(self).values() =~= old(self).values().update(
                reg_id.index as int,
                (old(self).values()[reg_id.index as int] + 1) as nat,
            ),
    {
        self.registers[reg_id.index].inc();
    }

    /// Subtracts one from the register, saturating at zero.
    pub fn dec(&mut self, reg_id: RegisterId)
        requires
            old(self).wf(),
            reg_id.index < old(self).values().len(),
        ensures
            final(self).wf(),
            final(self).names() == old(self).names(),
            final(self).values() =~= old(self).values().update(
                reg_id.index as int,
                sat_sub(old(self).values()[reg_id.index as int], 1),
            ),
    {
        self.registers[reg_id.index].dec();
    }

    /// Adds register `src` into register `dest`, clearing the auxiliary
    /// register `tmp` as an observable side effect.
    pub fn add(&mut self, dest: RegisterId, src: RegisterId, tmp: RegisterId)
        requires
            old(self).wf(),
            dest.index < old(self).values().len(),
            src.index < old(self).values().len(),
            tmp.index < old(self).values().len(),
        ensures
            final(self).wf(),
            final(self).names() == old(self).names(),
            final(self).values() =~= old(self).values().update(
                dest.index as int,
                (old(self).values()[dest.index as int] + old(self).values()[src.index as int]) as nat,
            ).update(tmp.index as int, 0nat),
    {
        let operand = self.registers[src.index].value();
        self.registers[dest.index].add(&operand);
        self.registers[tmp.index].clear();
    }

    /// Adds a constant to the register, without bound.
    pub fn add_const(&mut self, reg_id: RegisterId, constant: &num_bigint::BigUint)
        requires
            old(self).wf(),
            reg_id.index < old(self).values().len(),
        ensures
            final(self).wf(),
            final(self).names() == old(self).names(),
            final(self).values() =~= old(self).values().update(
                reg_id.index as int,
                (old(self).values()[reg_id.index as int] + nat_of(*constant)) as nat,
            ),
    {
        self.registers[reg_id.index].add(constant);
    }

    /// Subtracts register `src` from register `dest`, saturating at zero and
    /// clearing the auxiliary register `tmp` as an observable side effect.
    pub fn sub(&mut self, dest: RegisterId, src: RegisterId, tmp: RegisterId)
        requires
            old(self).wf(),
            dest.index < old(self).values().len(),
            src.index < old(self).values().len(),
            tmp.index < old(self).values().len(),
        ensures
            final(self).wf(),
            final(self).names() == old(self).names(),
            final(self).values() =~= old(self).values().update(
                dest.index as int,
                sat_sub(
                    old(self).values()[dest.index as int],
                    old(self).values()[src.index as int],
                ),
            ).update(tmp.index as int, 0nat),
    {
        let operand = self.registers[src.index].value();
        self.registers[dest.index].sub(&operand);
        self.registers[tmp.index].clear();
    }

    /// Subtracts a constant from the register, saturating at zero.
    pub fn sub_const(&mut self, reg_id: RegisterId, constant: &num_bigint::BigUint)
        requires
            old(self).wf(),
            reg_id.index < old(self).values().len(),
        ensures
            final(self).wf(),
            final(self).names() == old(self).names(),
            final(self).values() =~= old(self).values().update(
                reg_id.index as int,
                sat_sub(old(self).values()[reg_id.index as int], nat_of(*constant)),
            ),
    {
        self.registers[reg_id.index].sub(constant);
    }

    /// Compares two registers, clearing the auxiliary register `tmp` first;
    /// the ordering is taken on the values after that clearing.
    pub fn cmp(&mut self, reg_left: RegisterId, reg_right: RegisterId, reg_tmp: RegisterId) -> (r:
        core::cmp::Ordering)
        requires
            old(self).wf(),
            reg_left.index < old(self).values().len(),
            reg_right.index < old(self).values().len(),
            reg_tmp.index < old(self).values().len(),
        ensures
            final(self).wf(),
            final(self).names() == old(self).names(),
            final(self).values() =~= old(self).values().update(reg_tmp.index as int, 0nat),
            r == ord_of(
                final(self).values()[reg_left.index as int],
                final(self).values()[reg_right.index as int],
            ),
    {
        self.registers[reg_tmp.index].clear();
        let operand = self.registers[reg_right.index].value();
        self.registers[reg_left.index].cmp(&operand)
    }

    /// Compares the register's value to a constant.
    pub fn cmp_const(&self, reg_id: RegisterId, constant: &num_bigint::BigUint) -> (r:
        core::cmp::Ordering)
        requires
            reg_id.index < self.values().len(),
        ensures
            r == ord_of(self.values()[reg_id.index as int], nat_of(*constant)),
    {
        self.registers[reg_id.index].cmp(constant)
    }

    /// Whether the register holds zero.
    pub fn is_zero(&self, reg_id: RegisterId) -> (r: bool)
        requires
            reg_id.index < self.values().len(),
        ensures
            r == (self.values()[reg_id.index as int] == 0),
    {
        self.registers[reg_id.index].is_zero()
    }

    /// Reads the register's value.
    pub fn value(&self, reg_id: RegisterId) -> (r: num_bigint::BigUint)
        requires
            reg_id.index < self.values().len(),
        ensures
            nat_of(r) == self.values()[reg_id.index as int],
    {
        self.registers[reg_id.index].value()
    }

    /// Every register as `(name, decimal value)`, in creation order, for
    /// the display layer.
    pub fn export_registers(&self) -> (r: Vec<(String, String)>)
        requires
            self.wf(),
        ensures
            r@.len() == self.names().len(),
            forall|i: int|
                0 <= i < r@.len() ==> r@[i].0@ == self.names()[i] && r@[i].1@ == decimal_of(
                    self.values()[i],
                ),
    {
        let mut out: Vec<(String, String)> = Vec::new();
        let n = self.registers.len();
        let mut k: usize = 0;
        while k < n
            invariant
                self.wf(),
                n == self.names().len(),
                k <= n,
                out@.len() == k as int,
                forall|i: int|
                    0 <= i < k as int ==> out@[i].0@ == self.names()[i] && out@[i].1@ == decimal_of(
                        self.values()[i],
                    ),
            decreases n - k,
        {
            let name = self.register_table.id_to_symbol(RegisterId { index: k });
            let rendered = big_to_decimal(&self.registers[k].value);
            out.push((name.clone(), rendered));
            proof {
                assert(out@[k as int].0@ == self.names()[k as int]);
                assert(out@[k as int].1@ == decimal_of(self.values()[k as int]));
            }
            k = k + 1;
        }
        out
    }
}

impl Default for Machine {
    /// Starts with both `X` and `Y` at zero.
    fn default() -> (m: Machine)
        ensures
            m.wf(),
            m.names() =~= seq!["X"@, "Y"@],
            m.values() =~= seq![0nat, 0nat],
    {
        Machine::new(big_from_u64(0))
    }
}

/// The name table and the register storage have the same length.
pub proof fn lemma_machine_lockstep(m: &Machine)
    requires
        m.consistent(),
    ensures
        m.names().len() == m.values().len(),
{
}

/// The register names are pairwise distinct.
pub proof fn lemma_machine_names_distinct(m: &Machine)
    requires
        m.consistent(),
    ensures
        forall|i: int, j: int| 0 <= i < j < m.names().len() ==> m.names()[i] != m.names()[j],
{
}

/// The reserved registers: however many registers have been created, `X`
/// keeps identifier 0 and `Y` keeps identifier 1, and every operation's
/// contract carries `wf` forward, so this holds after any sequence of
/// creations and mutations.
pub proof fn lemma_reserved_registers(m: &Machine)
    requires
        m.wf(),
    ensures
        m.names()[RegisterId::x_spec().index as int] == "X"@,
        m.names()[RegisterId::y_spec().index as int] == "Y"@,
        m.names().len() >= 2,
{
}

/// Saturation: decrementing a zero register leaves it zero; subtracting a
/// constant at least as large as the stored value yields zero; subtracting
/// a smaller constant yields exactly the difference.  `dec`, `sub` and
/// `sub_const` state their effect through `sat_sub`.
pub proof fn lemma_saturation(v: nat, c: nat)
    ensures
        sat_sub(0, 1) == 0,
        c >= v ==> sat_sub(v, c) == 0,
        c < v ==> sat_sub(v, c) == v - c,
{
}

/// Unbounded growth: adding the constant `c` and then the constant `d` to
/// the register at `i` leaves the bank exactly as adding `c + d` once
/// would, for all naturals `c` and `d`.  `add_const` states its effect as
/// the first update below.
pub proof fn lemma_add_const_twice(vs: Seq<nat>, i: int, c: nat, d: nat)
    requires
        0 <= i < vs.len(),
    ensures
        vs.update(i, (vs[i] + c) as nat).update(
            i,
            (vs.update(i, (vs[i] + c) as nat)[i] + d) as nat,
        ) =~= vs.update(i, (vs[i] + (c + d)) as nat),
{
}

} // verus!
