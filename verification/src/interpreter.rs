//! The execution state machine.
//!
//! An `Interpreter` owns one flat `Program` and one `Machine`.  At
//! construction every register name the program mentions is created, in
//! order of first reference, after the reserved `X` and `Y`.  Execution
//! starts at the first label in insertion order, dispatches by label
//! lookup, and halts when the current label is the reserved `"0"` or
//! otherwise absent from the program.  `step` performs one transition;
//! `run_all` repeats it until the machine halts, which a program whose
//! control graph never reaches a halt target does forever.
//!
//! The meaning of one transition is the specification function
//! `spec_step`; `step` is proved to implement it exactly, and `run_all` to
//! reach a halted iterate of it.

use vstd::prelude::*;

use crate::machine::{
    lemma_machine_lockstep, lemma_machine_names_distinct, sat_sub, Machine, RegisterId,
};
use crate::natural::{big_from_u64, nat_of};
use crate::program::{
    Instruction, InstructionKind, InstructionKindV, OperationKind, OperationKindV, Program,
    TestKind, TestKindV,
};
use crate::table::Id;

verus! {

/// The register names an operation reads or writes, in syntactic order.
pub open spec fn op_regs(k: OperationKindV) -> Seq<Seq<char>> {
    match k {
        OperationKindV::Inc(r) => seq![r],
        OperationKindV::Dec(r) => seq![r],
        OperationKindV::Clear(r) => seq![r],
        OperationKindV::Load(r, c) => seq![r],
        OperationKindV::AddConst(r, c) => seq![r],
        OperationKindV::Add(d, s, t) => seq![d, s, t],
        OperationKindV::SubConst(r, c) => seq![r],
        OperationKindV::Sub(d, s, t) => seq![d, s, t],
    }
}

/// The register names a test reads or clears, in syntactic order.
pub open spec fn test_regs(k: TestKindV) -> Seq<Seq<char>> {
    match k {
        TestKindV::Zero(r) => seq![r],
        TestKindV::EqualsConst(r, c) => seq![r],
        TestKindV::Equals(l, r, t) => seq![l, r, t],
        TestKindV::LessThanConst(r, c) => seq![r],
        TestKindV::LessThan(l, r, t) => seq![l, r, t],
    }
}

/// The register names an instruction mentions, in syntactic order.
pub open spec fn instr_regs(k: InstructionKindV) -> Seq<Seq<char>> {
    match k {
        InstructionKindV::Operation(op) => op_regs(op.kind),
        InstructionKindV::Test(t) => test_regs(t.kind),
    }
}

/// Every register name of the instruction is bound in `names`.
pub open spec fn instr_declared(names: Seq<Seq<char>>, k: InstructionKindV) -> bool {
    forall|j: int| 0 <= j < instr_regs(k).len() ==> names.contains(#[trigger] instr_regs(k)[j])
}

/// Some instruction of the program mentions this register name.
pub open spec fn program_references(p: Program, name: Seq<char>) -> bool {
    exists|l: Seq<char>| #[trigger] p.has(l) && instr_regs(p.entry(l)@.kind).contains(name)
}

/// The names after creating one register: appended if new, untouched if
/// already bound.
pub open spec fn spec_add_reg(names: Seq<Seq<char>>, r: Seq<char>) -> Seq<Seq<char>> {
    if names.contains(r) {
        names
    } else {
        names.push(r)
    }
}

/// The names after creating each register of `regs`, in order.
pub open spec fn spec_add_regs(names: Seq<Seq<char>>, regs: Seq<Seq<char>>) -> Seq<Seq<char>>
    decreases regs.len(),
{
    if regs.len() == 0 {
        names
    } else {
        spec_add_regs(spec_add_reg(names, regs[0]), regs.drop_first())
    }
}

/// The register names after walking the first `j` instructions of the
/// program in insertion order, starting from the reserved `X` and `Y`:
/// every register is created at its first reference.
pub open spec fn spec_names_after(p: Program, j: int) -> Seq<Seq<char>>
    decreases j,
{
    if j <= 0 {
        seq!["X"@, "Y"@]
    } else {
        spec_add_regs(
            spec_names_after(p, j - 1),
            instr_regs(p.entry(p.labels()[j - 1])@.kind),
        )
    }
}

/// The rank a register name resolves to.
pub open spec fn reg_index(names: Seq<Seq<char>>, name: Seq<char>) -> int {
    names.index_of(name)
}

/// With pairwise-distinct names, the rank of a bound name is the one index
/// holding it.
pub proof fn lemma_reg_index_unique(names: Seq<Seq<char>>, name: Seq<char>, i: int)
    requires
        forall|a: int, b: int| 0 <= a < b < names.len() ==> names[a] != names[b],
        0 <= i < names.len(),
        names[i] == name,
    ensures
        reg_index(names, name) == i,
{
    assert(names.contains(name));
    let j = reg_index(names, name);
    assert(0 <= j < names.len() && names[j] == name);
    if i < j {
        assert(names[i] != names[j]);
    } else if j < i {
        assert(names[j] != names[i]);
    }
}

/// The register values after an operation, under the bank's semantics:
/// unbounded addition, subtraction saturating at zero, and the auxiliary
/// register of the three-address forms cleared last.
pub open spec fn spec_apply_operation(
    k: OperationKindV,
    names: Seq<Seq<char>>,
    values: Seq<nat>,
) -> Seq<nat> {
    match k {
        OperationKindV::Inc(r) => {
            let i = reg_index(names, r);
            values.update(i, (values[i] + 1) as nat)
        },
        OperationKindV::Dec(r) => {
            let i = reg_index(names, r);
            values.update(i, sat_sub(values[i], 1))
        },
        OperationKindV::Clear(r) => {
            let i = reg_index(names, r);
            values.update(i, 0nat)
        },
        OperationKindV::Load(r, c) => {
            let i = reg_index(names, r);
            values.update(i, c)
        },
        OperationKindV::AddConst(r, c) => {
            let i = reg_index(names, r);
            values.update(i, (values[i] + c) as nat)
        },
        OperationKindV::Add(d, s, t) => {
            let di = reg_index(names, d);
            let si = reg_index(names, s);
            let ti = reg_index(names, t);
            values.update(di, (values[di] + values[si]) as nat).update(ti, 0nat)
        },
        OperationKindV::SubConst(r, c) => {
            let i = reg_index(names, r);
            values.update(i, sat_sub(values[i], c))
        },
        OperationKindV::Sub(d, s, t) => {
            let di = reg_index(names, d);
            let si = reg_index(names, s);
            let ti = reg_index(names, t);
            values.update(di, sat_sub(values[di], values[si])).update(ti, 0nat)
        },
    }
}

/// The register values after a test: the two-register forms clear their
/// auxiliary register before comparing, the others change nothing.
pub open spec fn spec_test_values(k: TestKindV, names: Seq<Seq<char>>, values: Seq<nat>) -> Seq<
    nat,
> {
    match k {
        TestKindV::Zero(r) => values,
        TestKindV::EqualsConst(r, c) => values,
        TestKindV::Equals(l, r, t) => values.update(reg_index(names, t), 0nat),
        TestKindV::LessThanConst(r, c) => values,
        TestKindV::LessThan(l, r, t) => values.update(reg_index(names, t), 0nat),
    }
}

/// The outcome of a test, read on the values after any auxiliary clearing.
pub open spec fn spec_test_result(k: TestKindV, names: Seq<Seq<char>>, values: Seq<nat>) -> bool {
    match k {
        TestKindV::Zero(r) => values[reg_index(names, r)] == 0,
        TestKindV::EqualsConst(r, c) => values[reg_index(names, r)] == c,
        TestKindV::Equals(l, r, t) => values[reg_index(names, l)] == values[reg_index(names, r)],
        TestKindV::LessThanConst(r, c) => values[reg_index(names, r)] < c,
        TestKindV::LessThan(l, r, t) => values[reg_index(names, l)] < values[reg_index(names, r)],
    }
}

/// The abstract interpreter state: register values and the current label.
pub struct StateV {
    pub values: Seq<nat>,
    pub current: Seq<char>,
}

/// One transition.  On a halted state (current label absent from the
/// program, in particular the reserved `"0"`) nothing changes; on an
/// operation the bank is updated and control moves to its successor; on a
/// test control branches on the outcome.
pub open spec fn spec_step(p: Program, names: Seq<Seq<char>>, s: StateV) -> StateV {
    if !p.has(s.current) {
        s
    } else {
        match p.entry(s.current)@.kind {
            InstructionKindV::Operation(op) => StateV {
                values: spec_apply_operation(op.kind, names, s.values),
                current: op.next,
            },
            InstructionKindV::Test(t) => {
                let vals = spec_test_values(t.kind, names, s.values);
                if spec_test_result(t.kind, names, vals) {
                    StateV { values: vals, current: t.next_then }
                } else {
                    StateV { values: vals, current: t.next_else }
                }
            },
        }
    }
}

/// The state after `n` transitions.
pub open spec fn spec_run(p: Program, names: Seq<Seq<char>>, s: StateV, n: nat) -> StateV
    decreases n,
{
    if n == 0 {
        s
    } else {
        spec_step(p, names, spec_run(p, names, s, (n - 1) as nat))
    }
}

/// Running `n` transitions after one explicit transition is running `n + 1`
/// transitions.
pub proof fn lemma_spec_run_shift(p: Program, names: Seq<Seq<char>>, s: StateV, n: nat)
    ensures
        spec_run(p, names, spec_step(p, names, s), n) == spec_run(p, names, s, (n + 1) as nat),
    decreases n,
{
    if n == 0 {
        assert(spec_run(p, names, s, 0nat) == s);
        assert(spec_run(p, names, s, 1nat) == spec_step(p, names, spec_run(p, names, s, 0nat)));
    } else {
        lemma_spec_run_shift(p, names, s, (n - 1) as nat);
        assert(spec_run(p, names, spec_step(p, names, s), n) == spec_step(
            p,
            names,
            spec_run(p, names, spec_step(p, names, s), (n - 1) as nat),
        ));
        assert(spec_run(p, names, s, (n + 1) as nat) == spec_step(
            p,
            names,
            spec_run(p, names, s, n),
        ));
    }
}

/// Binds the register name if it is new, with value zero.
fn declare_register(machine: &mut Machine, name: &String)
    requires
        old(machine).wf(),
    ensures
        final(machine).wf(),
        final(machine).names().len() == final(machine).values().len(),
        final(machine).names().len() >= old(machine).names().len(),
        final(machine).names().subrange(0, old(machine).names().len() as int)
            =~= old(machine).names(),
        final(machine).values().subrange(0, old(machine).values().len() as int)
            =~= old(machine).values(),
        final(machine).names().contains(name@),
        final(machine).names() == spec_add_reg(old(machine).names(), name@),
        forall|l: Seq<char>|
            old(machine).names().contains(l) ==> final(machine).names().contains(l),
        forall|k: int|
            old(machine).names().len() <= k < final(machine).names().len()
                ==> final(machine).names()[k] == name@ && final(machine).values()[k] == 0,
{
    let ghost pre = *machine;
    proof {
        lemma_machine_lockstep(&pre);
    }
    let _ = machine.insert_register(name.clone(), big_from_u64(0));
    proof {
        lemma_machine_lockstep(machine);
        if pre.names().contains(name@) {
            assert(machine.names().subrange(0, pre.names().len() as int) =~= pre.names());
            assert(machine.values().subrange(0, pre.values().len() as int) =~= pre.values());
        } else {
            assert(machine.names() == pre.names().push(name@));
            assert(machine.names().subrange(0, pre.names().len() as int) =~= pre.names());
            assert(machine.values().subrange(0, pre.values().len() as int) =~= pre.values());
            assert(machine.names()[pre.names().len() as int] == name@);
            assert(machine.names().contains(name@));
            assert forall|l: Seq<char>| pre.names().contains(l) implies machine.names().contains(
                l,
            ) by {
                let i = choose|i: int| 0 <= i < pre.names().len() && pre.names()[i] == l;
                assert(machine.names()[i] == l);
            }
        }
    }
}

/// Resolves a bound register name to its identifier.
fn resolve(machine: &Machine, name: &String) -> (id: RegisterId)
    requires
        machine.wf(),
        machine.names().contains(name@),
    ensures
        id.index < machine.names().len(),
        id.index as int == reg_index(machine.names(), name@),
        machine.names()[id.index as int] == name@,
{
    let id: RegisterId = machine.register_table().symbol_to_id(name.as_str());
    proof {
        lemma_machine_names_distinct(machine);
        lemma_reg_index_unique(machine.names(), name@, id.index as int);
    }
    id
}

/// Applies one operation to the bank, exactly as `spec_apply_operation`
/// describes.
fn perform_operation(machine: &mut Machine, op: &OperationKind)
    requires
        old(machine).wf(),
        forall|j: int|
            0 <= j < op_regs(op@).len() ==> old(machine).names().contains(
                #[trigger] op_regs(op@)[j],
            ),
    ensures
        final(machine).wf(),
        final(machine).names() == old(machine).names(),
        final(machine).values() =~= spec_apply_operation(
            op@,
            old(machine).names(),
            old(machine).values(),
        ),
{
    proof {
        lemma_machine_lockstep(machine);
    }
    match op {
        OperationKind::Inc(r) => {
            proof {
                assert(old(machine).names().contains(op_regs(op@)[0]));
            }
            let id = resolve(machine, r);
            machine.inc(id);
        },
        OperationKind::Dec(r) => {
            proof {
                assert(old(machine).names().contains(op_regs(op@)[0]));
            }
            let id = resolve(machine, r);
            machine.dec(id);
        },
        OperationKind::Clear(r) => {
            proof {
                assert(old(machine).names().contains(op_regs(op@)[0]));
            }
            let id = resolve(machine, r);
            machine.clear(id);
        },
        OperationKind::Load(r, c) => {
            proof {
                assert(old(machine).names().contains(op_regs(op@)[0]));
            }
            let id = resolve(machine, r);
            machine.clear(id);
            machine.add_const(id, c);
        },
        OperationKind::AddConst(r, c) => {
            proof {
                assert(old(machine).names().contains(op_regs(op@)[0]));
            }
            let id = resolve(machine, r);
            machine.add_const(id, c);
        },
        OperationKind::Add(d, sr, t) => {
            proof {
                assert(old(machine).names().contains(op_regs(op@)[0]));
                assert(old(machine).names().contains(op_regs(op@)[1]));
                assert(old(machine).names().contains(op_regs(op@)[2]));
            }
            let did = resolve(machine, d);
            let sid = resolve(machine, sr);
            let tid = resolve(machine, t);
            machine.add(did, sid, tid);
        },
        OperationKind::SubConst(r, c) => {
            proof {
                assert(old(machine).names().contains(op_regs(op@)[0]));
            }
            let id = resolve(machine, r);
            machine.sub_const(id, c);
        },
        OperationKind::Sub(d, sr, t) => {
            proof {
                assert(old(machine).names().contains(op_regs(op@)[0]));
                assert(old(machine).names().contains(op_regs(op@)[1]));
                assert(old(machine).names().contains(op_regs(op@)[2]));
            }
            let did = resolve(machine, d);
            let sid = resolve(machine, sr);
            let tid = resolve(machine, t);
            machine.sub(did, sid, tid);
        },
    }
}

/// Evaluates one test against the bank, exactly as `spec_test_values` and
/// `spec_test_result` describe.
fn perform_test(machine: &mut Machine, t: &TestKind) -> (r: bool)
    requires
        old(machine).wf(),
        forall|j: int|
            0 <= j < test_regs(t@).len() ==> old(machine).names().contains(
                #[trigger] test_regs(t@)[j],
            ),
    ensures
        final(machine).wf(),
        final(machine).names() == old(machine).names(),
        final(machine).values() =~= spec_test_values(
            t@,
            old(machine).names(),
            old(machine).values(),
        ),
        r == spec_test_result(t@, old(machine).names(), final(machine).values()),
{
    proof {
        lemma_machine_lockstep(machine);
    }
    match t {
        TestKind::Zero(reg) => {
            proof {
                assert(old(machine).names().contains(test_regs(t@)[0]));
            }
            let id = resolve(machine, reg);
            machine.is_zero(id)
        },
        TestKind::EqualsConst(reg, c) => {
            proof {
                assert(old(machine).names().contains(test_regs(t@)[0]));
            }
            let id = resolve(machine, reg);
            match machine.cmp_const(id, c) {
                core::cmp::Ordering::Equal => true,
                _ => false,
            }
        },
        TestKind::Equals(l, reg, aux) => {
            proof {
                assert(old(machine).names().contains(test_regs(t@)[0]));
                assert(old(machine).names().contains(test_regs(t@)[1]));
                assert(old(machine).names().contains(test_regs(t@)[2]));
            }
            let lid = resolve(machine, l);
            let rid = resolve(machine, reg);
            let tid = resolve(machine, aux);
            match machine.cmp(lid, rid, tid) {
                core::cmp::Ordering::Equal => true,
                _ => false,
            }
        },
        TestKind::LessThanConst(reg, c) => {
            proof {
                assert(old(machine).names().contains(test_regs(t@)[0]));
            }
            let id = resolve(machine, reg);
            match machine.cmp_const(id, c) {
                core::cmp::Ordering::Less => true,
                _ => false,
            }
        },
        TestKind::LessThan(l, reg, aux) => {
            proof {
                assert(old(machine).names().contains(test_regs(t@)[0]));
                assert(old(machine).names().contains(test_regs(t@)[1]));
                assert(old(machine).names().contains(test_regs(t@)[2]));
            }
            let lid = resolve(machine, l);
            let rid = resolve(machine, reg);
            let tid = resolve(machine, aux);
            match machine.cmp(lid, rid, tid) {
                core::cmp::Ordering::Less => true,
                _ => false,
            }
        },
    }
}

/// Creates, with value zero, every register the instruction mentions that
/// the bank does not have yet, in the instruction's syntactic order.
fn declare_instruction_registers(machine: &mut Machine, instr: &Instruction)
    requires
        old(machine).wf(),
    ensures
        final(machine).wf(),
        final(machine).names().len() == final(machine).values().len(),
        final(machine).names().len() >= old(machine).names().len(),
        final(machine).names().subrange(0, old(machine).names().len() as int)
            =~= old(machine).names(),
        final(machine).values().subrange(0, old(machine).values().len() as int)
            =~= old(machine).values(),
        instr_declared(final(machine).names(), instr@.kind),
        final(machine).names() == spec_add_regs(old(machine).names(), instr_regs(instr@.kind)),
        forall|l: Seq<char>|
            old(machine).names().contains(l) ==> final(machine).names().contains(l),
        forall|k: int|
            old(machine).names().len() <= k < final(machine).names().len() ==> instr_regs(
                instr@.kind,
            ).contains(#[trigger] final(machine).names()[k]) && final(machine).values()[k] == 0,
{
    proof {
        lemma_machine_lockstep(machine);
    }
    match &instr.kind {
        InstructionKind::Operation(op) => match &op.kind {
            OperationKind::Inc(r) => declare_one(machine, r, Ghost(instr_regs(instr@.kind))),
            OperationKind::Dec(r) => declare_one(machine, r, Ghost(instr_regs(instr@.kind))),
            OperationKind::Clear(r) => declare_one(machine, r, Ghost(instr_regs(instr@.kind))),
            OperationKind::Load(r, c) => declare_one(machine, r, Ghost(instr_regs(instr@.kind))),
            OperationKind::AddConst(r, c) => declare_one(machine, r, Ghost(instr_regs(instr@.kind))),
            OperationKind::Add(d, sr, t) => declare_three(machine, d, sr, t, Ghost(instr_regs(instr@.kind))),
            OperationKind::SubConst(r, c) => declare_one(machine, r, Ghost(instr_regs(instr@.kind))),
            OperationKind::Sub(d, sr, t) => declare_three(machine, d, sr, t, Ghost(instr_regs(instr@.kind))),
        },
        InstructionKind::Test(test) => match &test.kind {
            TestKind::Zero(r) => declare_one(machine, r, Ghost(instr_regs(instr@.kind))),
            TestKind::EqualsConst(r, c) => declare_one(machine, r, Ghost(instr_regs(instr@.kind))),
            TestKind::Equals(l, r, t) => declare_three(machine, l, r, t, Ghost(instr_regs(instr@.kind))),
            TestKind::LessThanConst(r, c) => declare_one(machine, r, Ghost(instr_regs(instr@.kind))),
            TestKind::LessThan(l, r, t) => declare_three(machine, l, r, t, Ghost(instr_regs(instr@.kind))),
        },
    }
}

/// Declares the single register of a one-register instruction; `regs` is
/// that instruction's register list.
fn declare_one(machine: &mut Machine, r: &String, regs: Ghost<Seq<Seq<char>>>)
    requires
        old(machine).wf(),
        regs@ =~= seq![r@],
    ensures
        final(machine).wf(),
        final(machine).names().len() == final(machine).values().len(),
        final(machine).names().len() >= old(machine).names().len(),
        final(machine).names().subrange(0, old(machine).names().len() as int)
            =~= old(machine).names(),
        final(machine).values().subrange(0, old(machine).values().len() as int)
            =~= old(machine).values(),
        forall|j: int| 0 <= j < regs@.len() ==> final(machine).names().contains(#[trigger] regs@[j]),
        final(machine).names() == spec_add_regs(old(machine).names(), regs@),
        forall|l: Seq<char>|
            old(machine).names().contains(l) ==> final(machine).names().contains(l),
        forall|k: int|
            old(machine).names().len() <= k < final(machine).names().len() ==> regs@.contains(
                #[trigger] final(machine).names()[k],
            ) && final(machine).values()[k] == 0,
{
    declare_register(machine, r);
    proof {
        assert(regs@[0] == r@);
        assert(regs@.drop_first() =~= Seq::<Seq<char>>::empty());
        assert(spec_add_regs(old(machine).names(), regs@) == spec_add_regs(
            spec_add_reg(old(machine).names(), r@),
            regs@.drop_first(),
        ));
        assert forall|k: int|
            old(machine).names().len() <= k < machine.names().len() implies regs@.contains(
            #[trigger] machine.names()[k],
        ) && machine.values()[k] == 0 by {
            assert(machine.names()[k] == r@);
        }
    }
}

/// Declares the three registers of a three-register instruction, in order;
/// `regs` is that instruction's register list.
fn declare_three(machine: &mut Machine, a: &String, b: &String, c: &String, regs: Ghost<
    Seq<Seq<char>>,
>)
    requires
        old(machine).wf(),
        regs@ =~= seq![a@, b@, c@],
    ensures
        final(machine).wf(),
        final(machine).names().len() == final(machine).values().len(),
        final(machine).names().len() >= old(machine).names().len(),
        final(machine).names().subrange(0, old(machine).names().len() as int)
            =~= old(machine).names(),
        final(machine).values().subrange(0, old(machine).values().len() as int)
            =~= old(machine).values(),
        forall|j: int| 0 <= j < regs@.len() ==> final(machine).names().contains(#[trigger] regs@[j]),
        final(machine).names() == spec_add_regs(old(machine).names(), regs@),
        forall|l: Seq<char>|
            old(machine).names().contains(l) ==> final(machine).names().contains(l),
        forall|k: int|
            old(machine).names().len() <= k < final(machine).names().len() ==> regs@.contains(
                #[trigger] final(machine).names()[k],
            ) && final(machine).values()[k] == 0,
{
    let ghost m0 = *machine;
    declare_register(machine, a);
    let ghost m1 = *machine;
    declare_register(machine, b);
    let ghost m2 = *machine;
    declare_register(machine, c);
    proof {
        lemma_machine_lockstep(&m0);
        lemma_machine_lockstep(&m1);
        lemma_machine_lockstep(&m2);
        assert(regs@[0] == a@ && regs@[1] == b@ && regs@[2] == c@);
        assert(machine.names() == spec_add_regs(m0.names(), regs@)) by {
            let tail1 = regs@.drop_first();
            let tail2 = tail1.drop_first();
            assert(tail1 =~= seq![b@, c@]);
            assert(tail2 =~= seq![c@]);
            assert(tail2.drop_first() =~= Seq::<Seq<char>>::empty());
            assert(m1.names() == spec_add_reg(m0.names(), a@));
            assert(m2.names() == spec_add_reg(m1.names(), b@));
            assert(machine.names() == spec_add_reg(m2.names(), c@));
            assert(spec_add_regs(m0.names(), regs@) == spec_add_regs(m1.names(), tail1));
            assert(spec_add_regs(m1.names(), tail1) == spec_add_regs(m2.names(), tail2));
            assert(spec_add_regs(m2.names(), tail2) == spec_add_regs(
                machine.names(),
                tail2.drop_first(),
            ));
        }
        let n0 = m0.names().len() as int;
        let n1 = m1.names().len() as int;
        let n2 = m2.names().len() as int;
        assert forall|k: int| 0 <= k < n0 implies machine.names()[k] == m0.names()[k]
            && machine.values()[k] == m0.values()[k] by {
            assert(m1.names().subrange(0, n0)[k] == m1.names()[k]);
            assert(m2.names().subrange(0, n1)[k] == m2.names()[k]);
            assert(machine.names().subrange(0, n2)[k] == machine.names()[k]);
            assert(m1.values().subrange(0, n0)[k] == m1.values()[k]);
            assert(m2.values().subrange(0, n1)[k] == m2.values()[k]);
            assert(machine.values().subrange(0, n2)[k] == machine.values()[k]);
        }
        assert(machine.names().subrange(0, n0) =~= m0.names());
        assert(machine.values().subrange(0, n0) =~= m0.values());
        assert(machine.names().contains(a@)) by {
            let i = choose|i: int| 0 <= i < m1.names().len() && m1.names()[i] == a@;
            assert(m2.names().subrange(0, n1)[i] == m2.names()[i]);
            assert(m2.names().contains(a@));
            let i2 = choose|i2: int| 0 <= i2 < m2.names().len() && m2.names()[i2] == a@;
            assert(machine.names().subrange(0, n2)[i2] == machine.names()[i2]);
        }
        assert(machine.names().contains(b@)) by {
            let i = choose|i: int| 0 <= i < m2.names().len() && m2.names()[i] == b@;
            assert(machine.names().subrange(0, n2)[i] == machine.names()[i]);
        }
        assert forall|j: int| 0 <= j < regs@.len() implies machine.names().contains(
            #[trigger] regs@[j],
        ) by {
            if j == 0 {
                assert(regs@[j] == a@);
            } else if j == 1 {
                assert(regs@[j] == b@);
            } else {
                assert(regs@[j] == c@);
            }
        }
        assert forall|l: Seq<char>| m0.names().contains(l) implies machine.names().contains(
            l,
        ) by {
            let i = choose|i: int| 0 <= i < n0 && m0.names()[i] == l;
            assert(machine.names()[i] == l);
        }
        assert forall|k: int| n0 <= k < machine.names().len() implies regs@.contains(
            #[trigger] machine.names()[k],
        ) && machine.values()[k] == 0 by {
            if k < n1 {
                assert(m2.names().subrange(0, n1)[k] == m2.names()[k]);
                assert(machine.names().subrange(0, n2)[k] == machine.names()[k]);
                assert(machine.names()[k] == m1.names()[k]);
                assert(machine.names()[k] == a@);
                assert(m2.values().subrange(0, n1)[k] == m2.values()[k]);
                assert(machine.values().subrange(0, n2)[k] == machine.values()[k]);
                assert(machine.values()[k] == m1.values()[k]);
            } else if k < n2 {
                assert(machine.names().subrange(0, n2)[k] == machine.names()[k]);
                assert(machine.names()[k] == m2.names()[k]);
                assert(machine.names()[k] == b@);
                assert(machine.values().subrange(0, n2)[k] == machine.values()[k]);
                assert(machine.values()[k] == m2.values()[k]);
            } else {
                assert(machine.names()[k] == c@);
            }
            assert(regs@.contains(machine.names()[k]));
        }
    }
}

/// The interpreter: one flat program, one register bank, and the current
/// label.
pub struct Interpreter {
    program: Program,
    machine: Machine,
    current: String,
    entry: String,
}

impl Interpreter {
    /// The program being executed.
    pub closed spec fn prog(&self) -> Program {
        self.program
    }

    /// The register bank.
    pub closed spec fn spec_machine(&self) -> Machine {
        self.machine
    }

    /// The register names, in creation order.
    pub closed spec fn machine_names(&self) -> Seq<Seq<char>> {
        self.machine.names()
    }

    /// The register values, in creation order.
    pub closed spec fn machine_values(&self) -> Seq<nat> {
        self.machine.values()
    }

    /// The label about to be executed.
    pub closed spec fn current_label(&self) -> Seq<char> {
        self.current@
    }

    /// The entry label `reset` returns to: the program's first label.
    pub closed spec fn entry_label(&self) -> Seq<char> {
        self.entry@
    }

    /// The abstract state: register values and current label.
    pub open spec fn statev(&self) -> StateV {
        StateV { values: self.machine_values(), current: self.current_label() }
    }

    /// Halted: the current label holds no instruction; in particular the
    /// reserved halt label `"0"` never does.
    pub open spec fn spec_halted(&self) -> bool {
        !self.prog().has(self.current_label())
    }

    /// Every register any instruction mentions exists in the bank.
    pub open spec fn regs_declared(&self) -> bool {
        forall|l: Seq<char>|
            #[trigger] self.prog().has(l) ==> instr_declared(
                self.machine_names(),
                self.prog().entry(l)@.kind,
            )
    }

    /// Bank and program well-formed, every referenced register declared,
    /// and the entry label is the program's first label (or the halt label
    /// for an empty program).
    pub open spec fn wf(&self) -> bool {
        &&& self.spec_machine().wf()
        &&& self.prog().wf()
        &&& self.regs_declared()
        &&& self.entry_label() == if self.prog().labels().len() > 0 {
            self.prog().labels()[0]
        } else {
            "0"@
        }
    }

    /// Takes ownership of a program, creates every register it mentions
    /// (value zero, in order of first reference, after `X` and `Y`), and
    /// stands ready to run from the program's first label.
    pub fn new(program: Program) -> (r: Interpreter)
        requires
            program.wf(),
        ensures
            r.wf(),
            r.prog() == program,
            r.machine_names().len() >= 2,
            r.machine_names()[0] == "X"@,
            r.machine_names()[1] == "Y"@,
            r.machine_values().len() == r.machine_names().len(),
            forall|i: int| 0 <= i < r.machine_values().len() ==> r.machine_values()[i] == 0,
            forall|k: int|
                2 <= k < r.machine_names().len() ==> program_references(
                    program,
                    #[trigger] r.machine_names()[k],
                ),
            r.machine_names() == spec_names_after(program, program.labels().len() as int),
            r.current_label() == r.entry_label(),
    {
        let mut machine = Machine::new(big_from_u64(0));
        proof {
            lemma_machine_lockstep(&machine);
        }
        let n = program.len();
        let mut idx: usize = 0;
        while idx < n
            invariant
                program.wf(),
                machine.wf(),
                machine.names().len() == machine.values().len(),
                n == program.labels().len(),
                idx <= n,
                forall|i: int| 0 <= i < machine.values().len() ==> machine.values()[i] == 0,
                forall|k: int|
                    2 <= k < machine.names().len() ==> program_references(
                        program,
                        #[trigger] machine.names()[k],
                    ),
                forall|j: int|
                    0 <= j < idx as int ==> instr_declared(
                        machine.names(),
                        program.entry(#[trigger] program.labels()[j])@.kind,
                    ),
                machine.names() == spec_names_after(program, idx as int),
            decreases n - idx,
        {
            let instr = match program.get_index(idx) {
                Some((_, instr)) => instr,
                None => vstd::pervasive::unreached(),
            };
            let ghost pre = machine;
            let ghost lab = program.labels()[idx as int];
            proof {
                assert(program.labels().contains(lab));
                assert(program.has(lab));
            }
            declare_instruction_registers(&mut machine, instr);
            proof {
                lemma_machine_lockstep(&pre);
                let n0 = pre.names().len() as int;
                assert forall|i: int|
                    0 <= i < machine.values().len() implies machine.values()[i] == 0 by {
                    if i < n0 {
                        assert(machine.values().subrange(0, n0)[i] == machine.values()[i]);
                        assert(machine.values()[i] == pre.values()[i]);
                    } else {
                        assert(machine.names().len() == machine.values().len());
                        assert(n0 <= i < machine.names().len());
                        assert(instr_regs(instr@.kind).contains(machine.names()[i]));
                        assert(machine.values()[i] == 0);
                    }
                }
                assert forall|k: int|
                    2 <= k < machine.names().len() implies program_references(
                    program,
                    #[trigger] machine.names()[k],
                ) by {
                    if k < n0 {
                        assert(machine.names().subrange(0, n0)[k] == machine.names()[k]);
                        assert(machine.names()[k] == pre.names()[k]);
                    } else {
                        assert(instr_regs(instr@.kind).contains(machine.names()[k]));
                        assert(program.has(lab) && instr_regs(program.entry(lab)@.kind).contains(
                            machine.names()[k],
                        ));
                    }
                }
                assert forall|j: int|
                    0 <= j < idx as int + 1 implies instr_declared(
                    machine.names(),
                    program.entry(#[trigger] program.labels()[j])@.kind,
                ) by {
                    if j < idx as int {
                        let k = program.entry(program.labels()[j])@.kind;
                        assert(instr_declared(pre.names(), k));
                        assert forall|m: int|
                            0 <= m < instr_regs(k).len() implies machine.names().contains(
                            #[trigger] instr_regs(k)[m],
                        ) by {
                            assert(pre.names().contains(instr_regs(k)[m]));
                        }
                    } else {
                        assert(program.entry(program.labels()[j]) == *instr);
                    }
                }
            }
            idx = idx + 1;
        }
        let entry = match program.first_label() {
            Some(l) => l.clone(),
            None => String::from_str("0"),
        };
        let current = entry.clone();
        let r = Interpreter { program, machine, current, entry };
        proof {
            assert forall|l: Seq<char>| #[trigger] r.prog().has(l) implies instr_declared(
                r.machine_names(),
                r.prog().entry(l)@.kind,
            ) by {
                assert(r.prog().labels().contains(l));
                let j = choose|j: int|
                    0 <= j < r.prog().labels().len() && r.prog().labels()[j] == l;
            }
        }
        r
    }

    /// Whether the interpreter can take a step.
    pub fn is_running(&self) -> (r: bool)
        ensures
            r == !self.spec_halted(),
    {
        match self.program.get(self.current.as_str()) {
            Some(_) => true,
            None => false,
        }
    }

    /// Performs exactly one transition of `spec_step`, or reports `false`
    /// while halted, changing nothing.
    pub fn step(&mut self) -> (r: bool)
        requires
            old(self).wf(),
        ensures
            final(self).wf(),
            final(self).prog() == old(self).prog(),
            final(self).machine_names() == old(self).machine_names(),
            final(self).entry_label() == old(self).entry_label(),
            r == !old(self).spec_halted(),
            final(self).statev() == spec_step(
                old(self).prog(),
                old(self).machine_names(),
                old(self).statev(),
            ),
    {
        match self.program.get(self.current.as_str()) {
            None => false,
            Some(instr) => {
                proof {
                    assert(old(self).prog().has(old(self).current_label()));
                    assert(instr_declared(self.machine.names(), instr@.kind));
                }
                let next = match &instr.kind {
                    InstructionKind::Operation(op) => {
                        proof {
                            assert forall|j: int|
                                0 <= j < op_regs(op.kind@).len() implies self.machine.names()
                                .contains(#[trigger] op_regs(op.kind@)[j]) by {
                                assert(instr_regs(instr@.kind)[j] == op_regs(op.kind@)[j]);
                                assert(self.machine.names().contains(instr_regs(instr@.kind)[j]));
                            }
                        }
                        perform_operation(&mut self.machine, &op.kind);
                        op.next.clone()
                    },
                    InstructionKind::Test(t) => {
                        proof {
                            assert forall|j: int|
                                0 <= j < test_regs(t.kind@).len() implies self.machine.names()
                                .contains(#[trigger] test_regs(t.kind@)[j]) by {
                                assert(instr_regs(instr@.kind)[j] == test_regs(t.kind@)[j]);
                                assert(self.machine.names().contains(instr_regs(instr@.kind)[j]));
                            }
                        }
                        let taken = perform_test(&mut self.machine, &t.kind);
                        if taken {
                            t.next_then.clone()
                        } else {
                            t.next_else.clone()
                        }
                    },
                };
                self.current = next;
                true
            },
        }
    }

    /// Repeats `step` until the machine halts.  A program whose control
    /// graph never reaches a halt target keeps this loop running forever;
    /// the contract therefore asks for an execution that halts after some
    /// number of transitions.
    pub fn run_all(&mut self)
        requires
            old(self).wf(),
            exists|n: nat|
                !old(self).prog().has(
                    spec_run(
                        old(self).prog(),
                        old(self).machine_names(),
                        old(self).statev(),
                        n,
                    ).current,
                ),
        ensures
            final(self).wf(),
            final(self).prog() == old(self).prog(),
            final(self).machine_names() == old(self).machine_names(),
            final(self).entry_label() == old(self).entry_label(),
            final(self).spec_halted(),
            exists|n: nat|
                final(self).statev() == spec_run(
                    old(self).prog(),
                    old(self).machine_names(),
                    old(self).statev(),
                    n,
                ),
    {
        let ghost p = self.program;
        let ghost names0 = self.machine.names();
        let ghost s0 = self.statev();
        let ghost mut fuel: nat = choose|n: nat| !p.has(spec_run(p, names0, s0, n).current);
        let ghost mut steps: nat = 0;
        proof {
            assert(spec_run(p, names0, s0, 0nat) == s0);
        }
        while self.is_running()
            invariant
                self.wf(),
                self.prog() == p,
                self.machine_names() == names0,
                self.entry_label() == old(self).entry_label(),
                self.statev() == spec_run(p, names0, s0, steps),
                !p.has(spec_run(p, names0, self.statev(), fuel).current),
            decreases fuel,
        {
            proof {
                if fuel == 0 {
                    assert(spec_run(p, names0, self.statev(), 0nat) == self.statev());
                }
            }
            let ghost pre = self.statev();
            let _ = self.step();
            proof {
                lemma_spec_run_shift(p, names0, pre, (fuel - 1) as nat);
                fuel = (fuel - 1) as nat;
                steps = steps + 1;
                assert(spec_run(p, names0, s0, steps) == spec_step(
                    p,
                    names0,
                    spec_run(p, names0, s0, (steps - 1) as nat),
                ));
            }
        }
    }

    /// Sets the input: the value of register `X`.
    pub fn input(&mut self, data: num_bigint::BigUint)
        requires
            old(self).wf(),
        ensures
            final(self).wf(),
            final(self).prog() == old(self).prog(),
            final(self).machine_names() == old(self).machine_names(),
            final(self).entry_label() == old(self).entry_label(),
            final(self).current_label() == old(self).current_label(),
            final(self).machine_values() =~= old(self).machine_values().update(0, nat_of(data)),
    {
        self.machine.input(data);
    }

    /// Reads the output: the value of register `Y`.
    pub fn output(&self) -> (r: num_bigint::BigUint)
        requires
            self.wf(),
        ensures
            nat_of(r) == self.machine_values()[1],
    {
        self.machine.output()
    }

    /// Returns to the entry label and zeroes every register, keeping all
    /// names and identifiers valid.
    pub fn reset(&mut self)
        requires
            old(self).wf(),
        ensures
            final(self).wf(),
            final(self).prog() == old(self).prog(),
            final(self).machine_names() == old(self).machine_names(),
            final(self).entry_label() == old(self).entry_label(),
            final(self).current_label() == old(self).entry_label(),
            final(self).machine_values() =~= Seq::new(
                old(self).machine_values().len(),
                |i: int| 0nat,
            ),
    {
        self.machine.clear_all();
        self.current = self.entry.clone();
    }

    /// Read access to the register bank.
    pub fn machine(&self) -> (m: &Machine)
        ensures
            *m == self.spec_machine(),
            m.names() == self.machine_names(),
            m.values() == self.machine_values(),
    {
        &self.machine
    }
}

/// Execution is deterministic: two interpreters over the same program and
/// register names, standing in the same abstract state — as after `reset`
/// followed by the same `input` — pass through exactly the same states, so
/// reruns are identical.
pub proof fn lemma_rerun_identical(a: &Interpreter, b: &Interpreter, n: nat)
    requires
        a.prog() == b.prog(),
        a.machine_names() == b.machine_names(),
        a.statev() == b.statev(),
    ensures
        spec_run(a.prog(), a.machine_names(), a.statev(), n) == spec_run(
            b.prog(),
            b.machine_names(),
            b.statev(),
            n,
        ),
{
}

} // verus!
