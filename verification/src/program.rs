//! The flat, executable program form.
//!
//! A program is an insertion-ordered, duplicate-free mapping from label to
//! instruction, with every operation and test a built-in primitive over
//! register names and arbitrary-precision constants.  The label `"0"` is
//! reserved: it never maps to an instruction and serves as the halt target.
//!
//! The storage is indexmap's `IndexMap`, kept behind trusted wrappers; its
//! abstract contents are the ordered label sequence `flat_labels` and the
//! label→instruction mapping `flat_entries`.

use vstd::prelude::*;

use crate::natural::nat_of;

verus! {

/// A built-in register operation over register names and constants.
#[derive(Debug)]
pub enum OperationKind {
    /// Add one to the register.
    Inc(String),
    /// Subtract one from the register, saturating at zero.
    Dec(String),
    /// Set the register to zero.
    Clear(String),
    /// Set the register to the constant.
    Load(String, num_bigint::BigUint),
    /// Add the constant to the register.
    AddConst(String, num_bigint::BigUint),
    /// Add the second register into the first, clearing the third.
    Add(String, String, String),
    /// Subtract the constant from the register, saturating at zero.
    SubConst(String, num_bigint::BigUint),
    /// Subtract the second register from the first, saturating at zero and
    /// clearing the third.
    Sub(String, String, String),
}

/// The abstract form of an operation: names as character sequences and
/// constants as naturals.
pub enum OperationKindV {
    Inc(Seq<char>),
    Dec(Seq<char>),
    Clear(Seq<char>),
    Load(Seq<char>, nat),
    AddConst(Seq<char>, nat),
    Add(Seq<char>, Seq<char>, Seq<char>),
    SubConst(Seq<char>, nat),
    Sub(Seq<char>, Seq<char>, Seq<char>),
}

impl View for OperationKind {
    type V = OperationKindV;

    open spec fn view(&self) -> OperationKindV {
        match self {
            OperationKind::Inc(r) => OperationKindV::Inc(r@),
            OperationKind::Dec(r) => OperationKindV::Dec(r@),
            OperationKind::Clear(r) => OperationKindV::Clear(r@),
            OperationKind::Load(r, c) => OperationKindV::Load(r@, nat_of(*c)),
            OperationKind::AddConst(r, c) => OperationKindV::AddConst(r@, nat_of(*c)),
            OperationKind::Add(d, s, t) => OperationKindV::Add(d@, s@, t@),
            OperationKind::SubConst(r, c) => OperationKindV::SubConst(r@, nat_of(*c)),
            OperationKind::Sub(d, s, t) => OperationKindV::Sub(d@, s@, t@),
        }
    }
}

/// A built-in test over register names and constants.
#[derive(Debug)]
pub enum TestKind {
    /// Whether the register is zero.
    Zero(String),
    /// Whether the register equals the constant.
    EqualsConst(String, num_bigint::BigUint),
    /// Whether the two registers are equal; the third is cleared first.
    Equals(String, String, String),
    /// Whether the register is less than the constant.
    LessThanConst(String, num_bigint::BigUint),
    /// Whether the first register is less than the second; the third is
    /// cleared first.
    LessThan(String, String, String),
}

/// The abstract form of a test.
pub enum TestKindV {
    Zero(Seq<char>),
    EqualsConst(Seq<char>, nat),
    Equals(Seq<char>, Seq<char>, Seq<char>),
    LessThanConst(Seq<char>, nat),
    LessThan(Seq<char>, Seq<char>, Seq<char>),
}

impl View for TestKind {
    type V = TestKindV;

    open spec fn view(&self) -> TestKindV {
        match self {
            TestKind::Zero(r) => TestKindV::Zero(r@),
            TestKind::EqualsConst(r, c) => TestKindV::EqualsConst(r@, nat_of(*c)),
            TestKind::Equals(l, r, t) => TestKindV::Equals(l@, r@, t@),
            TestKind::LessThanConst(r, c) => TestKindV::LessThanConst(r@, nat_of(*c)),
            TestKind::LessThan(l, r, t) => TestKindV::LessThan(l@, r@, t@),
        }
    }
}

/// An operation instruction: a register mutation and one successor label.
#[derive(Debug)]
pub struct Operation {
    pub kind: OperationKind,
    pub next: String,
}

/// The abstract form of an operation instruction.
pub struct OperationV {
    pub kind: OperationKindV,
    pub next: Seq<char>,
}

impl View for Operation {
    type V = OperationV;

    open spec fn view(&self) -> OperationV {
        OperationV { kind: self.kind@, next: self.next@ }
    }
}

/// A test instruction: a condition and two successor labels.
#[derive(Debug)]
pub struct Test {
    pub kind: TestKind,
    pub next_then: String,
    pub next_else: String,
}

/// The abstract form of a test instruction.
pub struct TestV {
    pub kind: TestKindV,
    pub next_then: Seq<char>,
    pub next_else: Seq<char>,
}

impl View for Test {
    type V = TestV;

    open spec fn view(&self) -> TestV {
        TestV { kind: self.kind@, next_then: self.next_then@, next_else: self.next_else@ }
    }
}

/// Either kind of instruction body.
#[derive(Debug)]
pub enum InstructionKind {
    Operation(Operation),
    Test(Test),
}

/// The abstract form of an instruction body.
pub enum InstructionKindV {
    Operation(OperationV),
    Test(TestV),
}

impl View for InstructionKind {
    type V = InstructionKindV;

    open spec fn view(&self) -> InstructionKindV {
        match self {
            InstructionKind::Operation(oper) => InstructionKindV::Operation(oper@),
            InstructionKind::Test(test) => InstructionKindV::Test(test@),
        }
    }
}

/// A labeled instruction.
#[derive(Debug)]
pub struct Instruction {
    pub label: String,
    pub kind: InstructionKind,
}

/// The abstract form of a labeled instruction.
pub struct InstructionV {
    pub label: Seq<char>,
    pub kind: InstructionKindV,
}

impl View for Instruction {
    type V = InstructionV;

    open spec fn view(&self) -> InstructionV {
        InstructionV { label: self.label@, kind: self.kind@ }
    }
}

impl Instruction {
    /// Builds a labeled instruction.
    pub fn new(label: String, kind: InstructionKind) -> (r: Instruction)
        ensures
            r.label@ == label@,
            r.kind == kind,
    {
        Instruction { label, kind }
    }
}

/// The concrete storage of a flat program.
pub type InstructionMap = indexmap::IndexMap<String, Instruction>;

/// indexmap's insertion-ordered map, kept opaque.
#[verifier::external_type_specification]
#[verifier::external_body]
#[verifier::reject_recursive_types(K)]
#[verifier::reject_recursive_types(V)]
#[verifier::reject_recursive_types(S)]
pub struct ExIndexMap<K, V, S>(indexmap::IndexMap<K, V, S>);

/// The labels of a flat program's map, in insertion order.
pub uninterp spec fn flat_labels(m: InstructionMap) -> Seq<Seq<char>>;

/// The label→instruction mapping of a flat program's map.
pub uninterp spec fn flat_entries(m: InstructionMap) -> Map<Seq<char>, Instruction>;

/// The empty label→instruction mapping.
pub open spec fn no_entries() -> Map<Seq<char>, Instruction> {
    Map::empty()
}

/// Relies on `IndexMap::new`: the new map is empty.
#[verifier::external_body]
fn flat_map_new() -> (m: InstructionMap)
    ensures
        flat_labels(m) == Seq::<Seq<char>>::empty(),
        flat_entries(m) == no_entries(),
{
    indexmap::IndexMap::new()
}

/// Relies on `IndexMap::len`: the number of entries.
#[verifier::external_body]
fn flat_map_len(m: &InstructionMap) -> (r: usize)
    ensures
        r == flat_labels(*m).len(),
{
    m.len()
}

/// Relies on `IndexMap::insert`: a new key is appended, in insertion order,
/// with its value; an equal existing key keeps its place and gets the new
/// value, the old one being returned.
#[verifier::external_body]
fn flat_map_insert(m: &mut InstructionMap, key: String, value: Instruction) -> (r: Option<
    Instruction,
>)
    ensures
        flat_entries(*final(m)) == flat_entries(*old(m)).insert(key@, value),
        flat_entries(*old(m)).contains_key(key@) ==> flat_labels(*final(m)) == flat_labels(*old(m))
            && r == Some(flat_entries(*old(m))[key@]),
        !flat_entries(*old(m)).contains_key(key@) ==> flat_labels(*final(m)) == flat_labels(
            *old(m),
        ).push(key@) && r is None,
{
    m.insert(key, value)
}

/// Relies on `IndexMap::get`: the value whose key equals the query, if any.
#[verifier::external_body]
fn flat_map_get<'a>(m: &'a InstructionMap, key: &str) -> (r: Option<&'a Instruction>)
    ensures
        (match r {
            Some(v) => flat_entries(*m).contains_key(key@) && *v == flat_entries(*m)[key@],
            None => !flat_entries(*m).contains_key(key@),
        }),
{
    m.get(key)
}

/// Relies on `IndexMap::get_index`: the entry at the position, if any.
#[verifier::external_body]
fn flat_map_get_index<'a>(m: &'a InstructionMap, index: usize) -> (r: Option<
    (&'a String, &'a Instruction),
>)
    ensures
        (match r {
            Some(p) => index < flat_labels(*m).len() && p.0@ == flat_labels(*m)[index as int]
                && flat_entries(*m).contains_key(p.0@) && *p.1 == flat_entries(*m)[p.0@],
            None => index >= flat_labels(*m).len(),
        }),
{
    m.get_index(index)
}

/// A flat program: an ordered, duplicate-free mapping from label to
/// instruction, in which `"0"` is never a label.
#[derive(Debug)]
pub struct Program {
    instructions: InstructionMap,
}

impl Program {
    /// The labels, in insertion order.
    pub closed spec fn labels(&self) -> Seq<Seq<char>> {
        flat_labels(self.instructions)
    }

    /// The label→instruction mapping.
    pub closed spec fn entries(&self) -> Map<Seq<char>, Instruction> {
        flat_entries(self.instructions)
    }

    /// Whether a label maps to an instruction.
    pub open spec fn has(&self, label: Seq<char>) -> bool {
        self.entries().contains_key(label)
    }

    /// The instruction at a label.
    pub open spec fn entry(&self, label: Seq<char>) -> Instruction {
        self.entries()[label]
    }

    /// Labels are pairwise distinct, agree with the mapping's domain, and
    /// never include the reserved halt label `"0"`.
    pub open spec fn wf(&self) -> bool {
        &&& forall|i: int, j: int|
            0 <= i < j < self.labels().len() ==> self.labels()[i] != self.labels()[j]
        &&& forall|l: Seq<char>| #[trigger] self.has(l) <==> self.labels().contains(l)
        &&& !self.labels().contains("0"@)
    }

    /// Creates an empty program.
    pub fn empty() -> (p: Program)
        ensures
            p.wf(),
            p.labels() =~= Seq::<Seq<char>>::empty(),
            p.entries() =~= no_entries(),
    {
        let p = Program { instructions: flat_map_new() };
        proof {
            assert forall|l: Seq<char>| #[trigger] p.has(l) implies p.labels().contains(l) by {}
        }
        p
    }

    /// The number of instructions.
    pub fn len(&self) -> (r: usize)
        ensures
            r == self.labels().len(),
    {
        flat_map_len(&self.instructions)
    }

    /// Adds the instruction under its label.  An instruction labeled with
    /// the reserved halt label `"0"` is ignored; one whose label is already
    /// present replaces the earlier instruction, keeping its place in the
    /// order.
    pub fn insert(&mut self, instruction: Instruction)
        requires
            old(self).wf(),
        ensures
            final(self).wf(),
            instruction.label@ == "0"@ ==> final(self).labels() == old(self).labels()
                && final(self).entries() == old(self).entries(),
            instruction.label@ != "0"@ ==> final(self).entries() == old(self).entries().insert(
                instruction.label@,
                instruction,
            ) && (old(self).has(instruction.label@) ==> final(self).labels() == old(self).labels())
                && (!old(self).has(instruction.label@) ==> final(self).labels() == old(self).labels().push(instruction.label@)),
    {
        let halt = String::from_str("0");
        if instruction.label == halt {
            return ;
        }
        let ghost pre = *self;
        let ghost lab = instruction.label@;
        let _ = flat_map_insert(&mut self.instructions, instruction.label.clone(), instruction);
        proof {
            if pre.has(lab) {
                assert(self.labels() == pre.labels());
                assert forall|l: Seq<char>| #[trigger] self.has(l) <==> self.labels().contains(
                    l,
                ) by {
                    assert(self.has(l) <==> pre.has(l) || l == lab);
                }
            } else {
                assert(self.labels() == pre.labels().push(lab));
                assert forall|i: int, j: int|
                    0 <= i < j < self.labels().len() implies self.labels()[i]
                    != self.labels()[j] by {
                    if j == self.labels().len() - 1 {
                        assert(self.labels()[j] == lab);
                        assert(!pre.labels().contains(lab));
                        assert(self.labels()[i] == pre.labels()[i]);
                    }
                }
                assert forall|l: Seq<char>| #[trigger] self.has(l) <==> self.labels().contains(
                    l,
                ) by {
                    assert(self.has(l) <==> pre.has(l) || l == lab);
                    if self.labels().contains(l) {
                        let k = choose|k: int|
                            0 <= k < self.labels().len() && self.labels()[k] == l;
                        if k < pre.labels().len() {
                            assert(pre.labels().contains(l));
                        }
                    }
                    if pre.labels().contains(l) {
                        let k = choose|k: int|
                            0 <= k < pre.labels().len() && pre.labels()[k] == l;
                        assert(self.labels()[k] == l);
                        assert(self.labels().contains(l));
                    }
                    if l == lab {
                        assert(self.labels()[self.labels().len() - 1] == l);
                        assert(self.labels().contains(l));
                    }
                }
                assert(!self.labels().contains("0"@)) by {
                    if self.labels().contains("0"@) {
                        let k = choose|k: int|
                            0 <= k < self.labels().len() && self.labels()[k] == "0"@;
                        if k < pre.labels().len() {
                            assert(pre.labels().contains("0"@));
                        } else {
                            assert(lab == "0"@);
                        }
                    }
                }
            }
        }
    }

    /// Looks the label up.
    pub fn get(&self, label: &str) -> (r: Option<&Instruction>)
        ensures
            (match r {
                Some(v) => self.has(label@) && *v == self.entry(label@),
                None => !self.has(label@),
            }),
    {
        flat_map_get(&self.instructions, label)
    }

    /// The entry at a position, in insertion order.
    pub fn get_index(&self, index: usize) -> (r: Option<(&String, &Instruction)>)
        ensures
            (match r {
                Some(p) => index < self.labels().len() && p.0@ == self.labels()[index as int]
                    && self.has(p.0@) && *p.1 == self.entry(p.0@),
                None => index >= self.labels().len(),
            }),
    {
        flat_map_get_index(&self.instructions, index)
    }

    /// The first label in insertion order: the entry point by convention.
    pub fn first_label(&self) -> (r: Option<&String>)
        ensures
            (match r {
                Some(l) => self.labels().len() > 0 && l@ == self.labels()[0],
                None => self.labels().len() == 0,
            }),
    {
        match self.get_index(0) {
            Some((label, _)) => Some(label),
            None => None,
        }
    }
}

/// Expansion hygiene at the flat level: a well-formed flat program's
/// labels are pairwise distinct and never the reserved halt label, and by
/// construction of the flat form its instructions hold only built-in
/// operations and tests.
pub proof fn lemma_flat_labels_distinct(p: &Program)
    requires
        p.wf(),
    ensures
        forall|i: int, j: int| 0 <= i < j < p.labels().len() ==> p.labels()[i] != p.labels()[j],
        !p.labels().contains("0"@),
{
}

} // verus!
