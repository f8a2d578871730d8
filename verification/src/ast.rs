//! The unexpanded program form the parser hands to the macro expander.
//!
//! A program is a main block plus named macros.  Instructions here refer to
//! registers by name and to operations and tests either as built-in
//! primitives or as macros by name; the expander inlines the latter.
//!
//! The ordered blocks are indexmap's `IndexMap`, kept behind trusted
//! wrappers, with abstract contents `block_labels`/`block_entries` for
//! instruction blocks and `macro_order`/`macro_entries` for the macro
//! namespace.

use vstd::prelude::*;

verus! {

/// An opaque source position tag, carried through for diagnostics and
/// never inspected by the engine.
#[derive(Debug, Clone, Copy, PartialEq, Eq, Structural)]
pub struct Span {
    pub start: usize,
    pub end: usize,
}

/// A name together with where it was written.  Symbols are compared by
/// name only.
#[derive(Debug)]
pub struct Symbol {
    pub content: String,
    pub span: Span,
}

/// The built-in operations.
#[derive(Debug, Clone, Copy, PartialEq, Eq, Structural)]
pub enum BuiltInOperation {
    Inc,
    Dec,
    Clear,
    Load,
    AddConst,
    Add,
    SubConst,
    Sub,
}

/// The built-in tests.
#[derive(Debug, Clone, Copy, PartialEq, Eq, Structural)]
pub enum BuiltInTest {
    Zero,
    EqualsConst,
    Equals,
    LessThanConst,
    LessThan,
}

/// What an operation instruction performs: a primitive or a macro call.
#[derive(Debug)]
pub enum OperationType {
    BuiltIn(BuiltInOperation),
    Macro(Symbol),
}

/// What a test instruction evaluates: a primitive or a macro call.
#[derive(Debug)]
pub enum TestType {
    BuiltIn(BuiltInTest),
    Macro(Symbol),
}

/// An operation instruction: what to do, then where to go.
#[derive(Debug)]
pub struct Operation {
    pub oper_type: OperationType,
    pub next_label: Symbol,
}

/// A test instruction: what to evaluate, and where to go either way.
#[derive(Debug)]
pub struct Test {
    pub test_type: TestType,
    pub next_true_label: Symbol,
    pub next_false_label: Symbol,
}

/// Either kind of instruction body.
#[derive(Debug)]
pub enum InstructionType {
    Operation(Operation),
    Test(Test),
}

/// The register names and the optional constant an instruction carries.
#[derive(Debug)]
pub struct Parameters {
    pub registers: Vec<String>,
    pub constant: Option<num_bigint::BigUint>,
}

/// A labeled instruction of the unexpanded form.
#[derive(Debug)]
pub struct Instruction {
    pub label: Symbol,
    pub instruction_type: InstructionType,
    pub parameters: Parameters,
}

impl Instruction {
    /// Builds a labeled instruction.
    pub fn new(label: Symbol, typ: InstructionType, parameters: Parameters) -> (r: Self)
        ensures
            r.label == label,
            r.instruction_type == typ,
            r.parameters == parameters,
    {
        Instruction { label, instruction_type: typ, parameters }
    }
}

/// Whether a macro stands in operation or in test position.
#[derive(Debug, Clone, Copy, PartialEq, Eq, Structural)]
pub enum MacroType {
    Operation,
    Test,
}

/// An ordered block of labeled instructions.
pub type InstructionBlock = indexmap::IndexMap<String, Instruction>;

/// The labels of an instruction block, in insertion order.
pub uninterp spec fn block_labels(m: InstructionBlock) -> Seq<Seq<char>>;

/// The label→instruction mapping of an instruction block.
pub uninterp spec fn block_entries(m: InstructionBlock) -> Map<Seq<char>, Instruction>;

/// The empty label→instruction mapping of the unexpanded form.
pub open spec fn no_block_entries() -> Map<Seq<char>, Instruction> {
    Map::empty()
}

/// Relies on `IndexMap::new`: the new block is empty.
#[verifier::external_body]
pub(crate) fn block_map_new() -> (m: InstructionBlock)
    ensures
        block_labels(m) == Seq::<Seq<char>>::empty(),
        block_entries(m) == no_block_entries(),
{
    indexmap::IndexMap::new()
}

/// Relies on `IndexMap::len`: the number of entries.
#[verifier::external_body]
pub(crate) fn block_map_len(m: &InstructionBlock) -> (r: usize)
    ensures
        r == block_labels(*m).len(),
{
    m.len()
}

/// Relies on `IndexMap::insert`: a new key is appended, in insertion order,
/// with its value; an equal existing key keeps its place and gets the new
/// value, the old one being returned.
#[verifier::external_body]
pub(crate) fn block_map_insert(m: &mut InstructionBlock, key: String, value: Instruction) -> (r:
    Option<Instruction>)
    ensures
        block_entries(*final(m)) == block_entries(*old(m)).insert(key@, value),
        block_entries(*old(m)).contains_key(key@) ==> block_labels(*final(m)) == block_labels(
            *old(m),
        ) && r == Some(block_entries(*old(m))[key@]),
        !block_entries(*old(m)).contains_key(key@) ==> block_labels(*final(m)) == block_labels(
            *old(m),
        ).push(key@) && r is None,
{
    m.insert(key, value)
}

/// Relies on `IndexMap::get`: the value whose key equals the query, if any.
#[verifier::external_body]
pub(crate) fn block_map_get<'a>(m: &'a InstructionBlock, key: &String) -> (r: Option<
    &'a Instruction,
>)
    ensures
        (match r {
            Some(v) => block_entries(*m).contains_key(key@) && *v == block_entries(*m)[key@]
                && block_labels(*m).contains(key@),
            None => !block_entries(*m).contains_key(key@),
        }),
{
    m.get(key)
}

/// Relies on `IndexMap::get_index`: the entry at the position, if any.
#[verifier::external_body]
pub(crate) fn block_map_get_index<'a>(m: &'a InstructionBlock, index: usize) -> (r: Option<
    (&'a String, &'a Instruction),
>)
    ensures
        (match r {
            Some(p) => index < block_labels(*m).len() && p.0@ == block_labels(*m)[index as int]
                && block_entries(*m).contains_key(p.0@) && *p.1 == block_entries(*m)[p.0@],
            None => index >= block_labels(*m).len(),
        }),
{
    m.get_index(index)
}

/// A named, parameterized instruction template, inlined at compile time.
#[derive(Debug)]
pub struct Macro {
    pub macro_type: MacroType,
    pub name: Symbol,
    pub parameters: Vec<Symbol>,
    pub instr: InstructionBlock,
}

/// The ordered macro namespace.
pub type MacroBlock = indexmap::IndexMap<String, Macro>;

/// The macro names, in insertion order.
pub uninterp spec fn macro_order(m: MacroBlock) -> Seq<Seq<char>>;

/// The name→macro mapping of the namespace.
pub uninterp spec fn macro_entries(m: MacroBlock) -> Map<Seq<char>, Macro>;

/// The empty name→macro mapping.
pub open spec fn no_macro_entries() -> Map<Seq<char>, Macro> {
    Map::empty()
}

/// Relies on `IndexMap::new`: the new namespace is empty.
#[verifier::external_body]
pub(crate) fn macro_map_new() -> (m: MacroBlock)
    ensures
        macro_order(m) == Seq::<Seq<char>>::empty(),
        macro_entries(m) == no_macro_entries(),
{
    indexmap::IndexMap::new()
}

/// Relies on `IndexMap::len`: the number of entries.
#[verifier::external_body]
pub(crate) fn macro_map_len(m: &MacroBlock) -> (r: usize)
    ensures
        r == macro_order(*m).len(),
{
    m.len()
}

/// Relies on `IndexMap::insert`: a new key is appended, in insertion order,
/// with its value; an equal existing key keeps its place and gets the new
/// value, the old one being returned.
#[verifier::external_body]
pub(crate) fn macro_map_insert(m: &mut MacroBlock, key: String, value: Macro) -> (r: Option<Macro>)
    ensures
        macro_entries(*final(m)) == macro_entries(*old(m)).insert(key@, value),
        macro_entries(*old(m)).contains_key(key@) ==> macro_order(*final(m)) == macro_order(
            *old(m),
        ) && r == Some(macro_entries(*old(m))[key@]),
        !macro_entries(*old(m)).contains_key(key@) ==> macro_order(*final(m)) == macro_order(
            *old(m),
        ).push(key@) && r is None,
{
    m.insert(key, value)
}

/// Relies on `IndexMap::get`: the value whose key equals the query, if any;
/// a present key always stands in the insertion order.
#[verifier::external_body]
pub(crate) fn macro_map_get<'a>(m: &'a MacroBlock, key: &String) -> (r: Option<&'a Macro>)
    ensures
        (match r {
            Some(v) => macro_entries(*m).contains_key(key@) && *v == macro_entries(*m)[key@]
                && macro_order(*m).contains(key@),
            None => !macro_entries(*m).contains_key(key@),
        }),
{
    m.get(key)
}

/// Relies on `IndexMap::get_index`: the entry at the position, if any.
#[verifier::external_body]
pub(crate) fn macro_map_get_index<'a>(m: &'a MacroBlock, index: usize) -> (r: Option<
    (&'a String, &'a Macro),
>)
    ensures
        (match r {
            Some(p) => index < macro_order(*m).len() && p.0@ == macro_order(*m)[index as int]
                && macro_entries(*m).contains_key(p.0@) && *p.1 == macro_entries(*m)[p.0@],
            None => index >= macro_order(*m).len(),
        }),
{
    m.get_index(index)
}

/// The main block: the instructions expansion starts from.
#[derive(Debug)]
pub struct Main {
    pub code: InstructionBlock,
}

/// An unexpanded program: a main block plus the macro namespace.
#[derive(Debug)]
pub struct Program {
    pub main: Main,
    pub macros: MacroBlock,
}

} // verus!
