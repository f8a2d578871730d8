//! The macro expander: the compiler from the unexpanded form to the flat
//! executable form.
//!
//! Expansion walks the main block in label order, copies built-in
//! instructions into the flat program with registers substituted and
//! targets resolved, and inlines every macro call: the callee's body gets a
//! fresh copy whose internal labels are renamed to globally unique labels,
//! whose formal register parameters are replaced by the call site's actual
//! registers, and whose exits are rewired to the call site's continuation.
//!
//! Exit conventions: in the body of an operation macro a jump to the
//! reserved label `"0"` continues at the call site's successor; in the body
//! of a test macro a jump to `"true"` or `"false"` continues at the call
//! site's then- or else-successor.  Any other target not defined in the
//! body is left as written.
//!
//! A macro that is being instantiated may not be instantiated again within
//! the same chain, directly or through other macros: such a cycle is
//! reported as a compile error instead of diverging, so expansion always
//! terminates.

use vstd::prelude::*;

use crate::ast::{
    block_entries, block_labels, block_map_get, block_map_get_index, block_map_insert,
    block_map_len, block_map_new, macro_entries, macro_map_get, macro_map_get_index,
    macro_map_insert, macro_map_len, macro_map_new, macro_order, BuiltInOperation, BuiltInTest,
    Instruction, InstructionBlock, InstructionType, Macro, MacroBlock, MacroType, Main,
    OperationType, Symbol, TestType,
};
use crate::natural::{big_clone, big_from_u64, big_to_decimal, decimal_of, nat_of};
use crate::program;
use crate::program::{InstructionKindV, OperationKindV, OperationV, TestKindV, TestV};
use crate::table::SymbolTable;

verus! {

/// A user error found at compile time.  All are reported, never panicked.
#[derive(Debug)]
pub enum CompileError {
    /// A call site names a macro that does not exist.
    UnknownMacro { name: String },
    /// An operation position calls a test macro or the other way round.
    MacroKindMismatch { name: String },
    /// A call site's register count differs from the macro's parameter
    /// count, or a built-in got the wrong parameters.
    ArityMismatch { name: String, expected: usize, found: usize },
    /// Two instructions claim the same label.
    DuplicateLabel { label: String },
    /// Two macros claim the same name.
    DuplicateMacro { name: String },
    /// An instruction claims the reserved halt label `"0"`.
    ReservedLabel { label: String },
    /// A macro is instantiated again while one of its own instantiations
    /// is still being expanded: expansion would not terminate.
    RecursiveMacro { name: String },
    /// The fresh-label namespace is exhausted (a machine limit).
    TooManyLabels,
}

/// The first value bound to `key`, searching the pairs front to back.
pub open spec fn spec_assoc(pairs: Seq<(String, String)>, key: Seq<char>) -> Option<Seq<char>>
    decreases pairs.len(),
{
    if pairs.len() == 0 {
        None
    } else if pairs[0].0@ == key {
        Some(pairs[0].1@)
    } else {
        spec_assoc(pairs.drop_first(), key)
    }
}

/// How labels leave the block being expanded.
pub enum ExitRule {
    /// The main block: targets stand as written.
    Top,
    /// An operation macro body: `"0"` exits to the call site's successor.
    Operation(String),
    /// A test macro body: `"true"` and `"false"` exit to the call site's
    /// then- and else-successors.
    Test(String, String),
}

/// The renaming applied to one block: register substitution, label
/// renaming, and the exit rule.
pub struct BlockCtx {
    /// Formal parameter name → actual register name.
    pub subst: Vec<(String, String)>,
    /// Body label → emitted label.
    pub lmap: Vec<(String, String)>,
    /// What becomes of targets not defined in the body.
    pub exits: ExitRule,
}

impl BlockCtx {
    /// The context of the main block: everything stands as written.
    pub open spec fn is_top(&self) -> bool {
        self.subst@.len() == 0 && self.lmap@.len() == 0 && self.exits is Top
    }
}

/// The register name an instruction's register resolves to.
pub open spec fn spec_subst_reg(ctx: &BlockCtx, name: Seq<char>) -> Seq<char> {
    match spec_assoc(ctx.subst@, name) {
        Some(actual) => actual,
        None => name,
    }
}

/// The emitted label a target resolves to.
pub open spec fn spec_target(ctx: &BlockCtx, t: Seq<char>) -> Seq<char> {
    match spec_assoc(ctx.lmap@, t) {
        Some(renamed) => renamed,
        None => match ctx.exits {
            ExitRule::Top => t,
            ExitRule::Operation(next) => if t == "0"@ {
                next@
            } else {
                t
            },
            ExitRule::Test(th, el) => if t == "true"@ {
                th@
            } else if t == "false"@ {
                el@
            } else {
                t
            },
        },
    }
}

/// The registers-and-constant shape a built-in operation expects.
pub open spec fn op_shape_ok(b: BuiltInOperation, p: &crate::ast::Parameters) -> bool {
    match b {
        BuiltInOperation::Inc => p.registers@.len() == 1 && p.constant is None,
        BuiltInOperation::Dec => p.registers@.len() == 1 && p.constant is None,
        BuiltInOperation::Clear => p.registers@.len() == 1 && p.constant is None,
        BuiltInOperation::Load => p.registers@.len() == 1 && p.constant is Some,
        BuiltInOperation::AddConst => p.registers@.len() == 1 && p.constant is Some,
        BuiltInOperation::Add => p.registers@.len() == 3 && p.constant is None,
        BuiltInOperation::SubConst => p.registers@.len() == 1 && p.constant is Some,
        BuiltInOperation::Sub => p.registers@.len() == 3 && p.constant is None,
    }
}

/// The registers-and-constant shape a built-in test expects.
pub open spec fn test_shape_ok(b: BuiltInTest, p: &crate::ast::Parameters) -> bool {
    match b {
        BuiltInTest::Zero => p.registers@.len() == 1 && p.constant is None,
        BuiltInTest::EqualsConst => p.registers@.len() == 1 && p.constant is Some,
        BuiltInTest::Equals => p.registers@.len() == 3 && p.constant is None,
        BuiltInTest::LessThanConst => p.registers@.len() == 1 && p.constant is Some,
        BuiltInTest::LessThan => p.registers@.len() == 3 && p.constant is None,
    }
}

/// The constant an instruction carries, as a natural.
pub open spec fn spec_const(p: &crate::ast::Parameters) -> nat {
    match p.constant {
        Some(c) => nat_of(c),
        None => 0,
    }
}

/// The flat operation kind a built-in operation expands to under a
/// context, assuming its shape is right.
pub open spec fn spec_op_kind(b: BuiltInOperation, p: &crate::ast::Parameters, ctx: &BlockCtx) -> OperationKindV {
    match b {
        BuiltInOperation::Inc => OperationKindV::Inc(spec_subst_reg(ctx, p.registers@[0]@)),
        BuiltInOperation::Dec => OperationKindV::Dec(spec_subst_reg(ctx, p.registers@[0]@)),
        BuiltInOperation::Clear => OperationKindV::Clear(spec_subst_reg(ctx, p.registers@[0]@)),
        BuiltInOperation::Load => OperationKindV::Load(
            spec_subst_reg(ctx, p.registers@[0]@),
            spec_const(p),
        ),
        BuiltInOperation::AddConst => OperationKindV::AddConst(
            spec_subst_reg(ctx, p.registers@[0]@),
            spec_const(p),
        ),
        BuiltInOperation::Add => OperationKindV::Add(
            spec_subst_reg(ctx, p.registers@[0]@),
            spec_subst_reg(ctx, p.registers@[1]@),
            spec_subst_reg(ctx, p.registers@[2]@),
        ),
        BuiltInOperation::SubConst => OperationKindV::SubConst(
            spec_subst_reg(ctx, p.registers@[0]@),
            spec_const(p),
        ),
        BuiltInOperation::Sub => OperationKindV::Sub(
            spec_subst_reg(ctx, p.registers@[0]@),
            spec_subst_reg(ctx, p.registers@[1]@),
            spec_subst_reg(ctx, p.registers@[2]@),
        ),
    }
}

/// The flat test kind a built-in test expands to under a context, assuming
/// its shape is right.
pub open spec fn spec_test_kind(b: BuiltInTest, p: &crate::ast::Parameters, ctx: &BlockCtx) -> TestKindV {
    match b {
        BuiltInTest::Zero => TestKindV::Zero(spec_subst_reg(ctx, p.registers@[0]@)),
        BuiltInTest::EqualsConst => TestKindV::EqualsConst(
            spec_subst_reg(ctx, p.registers@[0]@),
            spec_const(p),
        ),
        BuiltInTest::Equals => TestKindV::Equals(
            spec_subst_reg(ctx, p.registers@[0]@),
            spec_subst_reg(ctx, p.registers@[1]@),
            spec_subst_reg(ctx, p.registers@[2]@),
        ),
        BuiltInTest::LessThanConst => TestKindV::LessThanConst(
            spec_subst_reg(ctx, p.registers@[0]@),
            spec_const(p),
        ),
        BuiltInTest::LessThan => TestKindV::LessThan(
            spec_subst_reg(ctx, p.registers@[0]@),
            spec_subst_reg(ctx, p.registers@[1]@),
            spec_subst_reg(ctx, p.registers@[2]@),
        ),
    }
}

/// The flat instruction kind a built-in instruction expands to under a
/// context: `None` when the instruction calls a macro or its shape is
/// wrong.
pub open spec fn spec_flat_kind(i: &Instruction, ctx: &BlockCtx) -> Option<InstructionKindV> {
    match i.instruction_type {
        InstructionType::Operation(op) => match op.oper_type {
            OperationType::BuiltIn(b) => if op_shape_ok(b, &i.parameters) {
                Some(
                    InstructionKindV::Operation(
                        OperationV {
                            kind: spec_op_kind(b, &i.parameters, ctx),
                            next: spec_target(ctx, op.next_label.content@),
                        },
                    ),
                )
            } else {
                None
            },
            OperationType::Macro(_) => None,
        },
        InstructionType::Test(t) => match t.test_type {
            TestType::BuiltIn(b) => if test_shape_ok(b, &i.parameters) {
                Some(
                    InstructionKindV::Test(
                        TestV {
                            kind: spec_test_kind(b, &i.parameters, ctx),
                            next_then: spec_target(ctx, t.next_true_label.content@),
                            next_else: spec_target(ctx, t.next_false_label.content@),
                        },
                    ),
                )
            } else {
                None
            },
            TestType::Macro(_) => None,
        },
    }
}

/// The label a block label is emitted under: its renaming, or itself when
/// the context renames nothing.
pub open spec fn spec_emit(ctx: &BlockCtx, l: Seq<char>) -> Seq<char> {
    match spec_assoc(ctx.lmap@, l) {
        Some(renamed) => renamed,
        None => l,
    }
}

/// The formal→actual register pairing a macro call builds, in parameter
/// order.
pub open spec fn spec_zip_subst(params: Seq<Symbol>, args: Seq<String>) -> Seq<(String, String)> {
    Seq::new(params.len(), |i: int| (params[i].content, args[i]))
}

/// Whether a macro's kind fits the position it is called from.
pub open spec fn kind_fits(kind: MacroType, exits: ExitRule) -> bool {
    match (kind, exits) {
        (MacroType::Operation, ExitRule::Operation(next)) => true,
        (MacroType::Test, ExitRule::Test(th, el)) => true,
        _ => false,
    }
}

/// The j-th instruction of the block is present, its emitted label is not
/// the reserved halt label, and when it is a convertible built-in the flat
/// program holds exactly its translation under that label.
pub open spec fn block_entry_expanded(
    code: InstructionBlock,
    ctx: &BlockCtx,
    out: program::Program,
    j: int,
) -> bool {
    let lab = block_labels(code)[j];
    let i = block_entries(code)[lab];
    &&& block_entries(code).contains_key(lab)
    &&& spec_emit(ctx, lab) != "0"@
    &&& (spec_flat_kind(&i, ctx) matches Some(k) ==> out.has(spec_emit(ctx, lab)) && out.entry(
        spec_emit(ctx, lab),
    )@.label == spec_emit(ctx, lab) && out.entry(spec_emit(ctx, lab))@.kind == k)
}

/// Every instruction of the block, translated under the context, stands in
/// the flat program beneath its emitted label.
pub open spec fn block_expanded(code: InstructionBlock, ctx: &BlockCtx, out: program::Program) -> bool {
    forall|j: int| 0 <= j < block_labels(code).len() ==> block_entry_expanded(code, ctx, out, j)
}

/// Some renaming of the callee's body labels — the first renamed to the
/// call-site label `entry` — combined with the formal→actual substitution
/// and the call's exits, has every convertible body instruction translated
/// into the flat program.
pub open spec fn call_expanded(
    mac: Macro,
    args: Seq<String>,
    entry: Seq<char>,
    exits: ExitRule,
    out: program::Program,
) -> bool {
    exists|ctx: BlockCtx|
        {
            &&& #[trigger] ctx.subst@ =~= spec_zip_subst(mac.parameters@, args)
            &&& ctx.exits == exits
            &&& (block_labels(mac.instr).len() > 0 ==> spec_assoc(
                ctx.lmap@,
                block_labels(mac.instr)[0],
            ) == Some(entry))
            &&& block_expanded(mac.instr, &ctx, out)
        }
}

/// What a compile error certifies about the program it was raised on.
pub open spec fn error_evidence(e: CompileError, macros: MacroBlock) -> bool {
    &&& (e matches CompileError::UnknownMacro { name: n } ==> !macro_entries(
        macros,
    ).contains_key(n@))
    &&& (e matches CompileError::MacroKindMismatch { name: n } ==> macro_entries(
        macros,
    ).contains_key(n@))
    &&& (e matches CompileError::RecursiveMacro { name: n } ==> macro_entries(
        macros,
    ).contains_key(n@))
    &&& (e matches CompileError::ReservedLabel { label: l } ==> l@ == "0"@)
}

/// What expansion guarantees of a macro-calling main entry when it
/// succeeds: the named macro exists, fits its position, matches the call
/// in arity, and its instantiation at the call-site label is recorded in
/// the flat program.  A built-in entry is covered by `main_entry_expanded`
/// instead.
pub open spec fn main_entry_called(
    code: InstructionBlock,
    macros: MacroBlock,
    j: int,
    p: program::Program,
) -> bool {
    let lab = block_labels(code)[j];
    let i = block_entries(code)[lab];
    match i.instruction_type {
        InstructionType::Operation(op) => match op.oper_type {
            OperationType::BuiltIn(b) => true,
            OperationType::Macro(n) => {
                &&& macro_entries(macros).contains_key(n.content@)
                &&& kind_fits(
                    macro_entries(macros)[n.content@].macro_type,
                    ExitRule::Operation(op.next_label.content),
                )
                &&& macro_entries(macros)[n.content@].parameters@.len()
                    == i.parameters.registers@.len()
                &&& call_expanded(
                    macro_entries(macros)[n.content@],
                    i.parameters.registers@,
                    lab,
                    ExitRule::Operation(op.next_label.content),
                    p,
                )
            },
        },
        InstructionType::Test(t) => match t.test_type {
            TestType::BuiltIn(b) => true,
            TestType::Macro(n) => {
                &&& macro_entries(macros).contains_key(n.content@)
                &&& kind_fits(
                    macro_entries(macros)[n.content@].macro_type,
                    ExitRule::Test(t.next_true_label.content, t.next_false_label.content),
                )
                &&& macro_entries(macros)[n.content@].parameters@.len()
                    == i.parameters.registers@.len()
                &&& call_expanded(
                    macro_entries(macros)[n.content@],
                    i.parameters.registers@,
                    lab,
                    ExitRule::Test(t.next_true_label.content, t.next_false_label.content),
                    p,
                )
            },
        },
    }
}

/// A recorded main-entry instantiation stands in every extension of the
/// flat program.
pub proof fn lemma_main_entry_called_mono(
    code: InstructionBlock,
    macros: MacroBlock,
    j: int,
    a: program::Program,
    b: program::Program,
)
    requires
        main_entry_called(code, macros, j, a),
        preserves(a, b),
    ensures
        main_entry_called(code, macros, j, b),
{
    let lab = block_labels(code)[j];
    let i = block_entries(code)[lab];
    match i.instruction_type {
        InstructionType::Operation(op) => match op.oper_type {
            OperationType::BuiltIn(bi) => {},
            OperationType::Macro(n) => {
                lemma_call_expanded_mono(
                    macro_entries(macros)[n.content@],
                    i.parameters.registers@,
                    lab,
                    ExitRule::Operation(op.next_label.content),
                    a,
                    b,
                );
            },
        },
        InstructionType::Test(t) => match t.test_type {
            TestType::BuiltIn(bi) => {},
            TestType::Macro(n) => {
                lemma_call_expanded_mono(
                    macro_entries(macros)[n.content@],
                    i.parameters.registers@,
                    lab,
                    ExitRule::Test(t.next_true_label.content, t.next_false_label.content),
                    a,
                    b,
                );
            },
        },
    }
}

/// The first value bound to `key`, searching front to back.
fn assoc_lookup<'a>(pairs: &'a Vec<(String, String)>, key: &String) -> (r: Option<&'a String>)
    ensures
        (match r {
            Some(v) => spec_assoc(pairs@, key@) == Some(v@),
            None => spec_assoc(pairs@, key@) is None,
        }),
{
    let n = pairs.len();
    let mut i: usize = 0;
    proof {
        assert(pairs@.subrange(0, n as int) =~= pairs@);
    }
    while i < n
        invariant
            n == pairs@.len(),
            i <= n,
            spec_assoc(pairs@.subrange(i as int, n as int), key@) == spec_assoc(pairs@, key@),
        decreases n - i,
    {
        let (k, v) = &pairs[i];
        proof {
            assert(pairs@.subrange(i as int, n as int).len() > 0);
            assert(pairs@.subrange(i as int, n as int)[0] == pairs@[i as int]);
            assert(pairs@.subrange(i as int, n as int).drop_first() =~= pairs@.subrange(
                i as int + 1,
                n as int,
            ));
        }
        if *k == *key {
            proof {
                assert(spec_assoc(pairs@.subrange(i as int, n as int), key@) == Some(
                    pairs@[i as int].1@,
                ));
            }
            return Some(v);
        }
        proof {
            assert(pairs@[i as int].0@ != key@);
            assert(spec_assoc(pairs@.subrange(i as int, n as int), key@) == spec_assoc(
                pairs@.subrange(i as int, n as int).drop_first(),
                key@,
            ));
        }
        i = i + 1;
    }
    proof {
        assert(pairs@.subrange(n as int, n as int).len() == 0);
    }
    None
}

/// The register an instruction's register name resolves to.
fn subst_reg(ctx: &BlockCtx, name: &String) -> (r: String)
    ensures
        r@ == spec_subst_reg(ctx, name@),
        ctx.subst@.len() == 0 ==> r == *name,
{
    match assoc_lookup(&ctx.subst, name) {
        Some(actual) => actual.clone(),
        None => name.clone(),
    }
}

/// The emitted label a target resolves to.
fn resolve_target(ctx: &BlockCtx, t: &String) -> (r: String)
    ensures
        r@ == spec_target(ctx, t@),
        ctx.is_top() ==> r == *t,
{
    match assoc_lookup(&ctx.lmap, t) {
        Some(renamed) => renamed.clone(),
        None => match &ctx.exits {
            ExitRule::Top => t.clone(),
            ExitRule::Operation(next) => {
                let halt = String::from_str("0");
                if *t == halt {
                    next.clone()
                } else {
                    t.clone()
                }
            },
            ExitRule::Test(th, el) => {
                let yes = String::from_str("true");
                let no = String::from_str("false");
                if *t == yes {
                    th.clone()
                } else if *t == no {
                    el.clone()
                } else {
                    t.clone()
                }
            },
        },
    }
}

/// Whether an instruction is a built-in with the right parameters, so
/// that it expands to one flat instruction.
pub open spec fn flat_convertible(i: &Instruction) -> bool {
    match i.instruction_type {
        InstructionType::Operation(op) => match op.oper_type {
            OperationType::BuiltIn(b) => op_shape_ok(b, &i.parameters),
            OperationType::Macro(_) => false,
        },
        InstructionType::Test(t) => match t.test_type {
            TestType::BuiltIn(b) => test_shape_ok(b, &i.parameters),
            TestType::Macro(_) => false,
        },
    }
}

/// The flat instruction kind a built-in instruction of the main block
/// expands to: registers and targets stand as written.
pub open spec fn spec_flat_kind_top(i: &Instruction) -> InstructionKindV {
    match i.instruction_type {
        InstructionType::Operation(op) => InstructionKindV::Operation(
            OperationV {
                kind: (match op.oper_type {
                    OperationType::BuiltIn(b) => spec_op_kind_top(b, &i.parameters),
                    OperationType::Macro(_) => spec_op_kind_top(
                        BuiltInOperation::Inc,
                        &i.parameters,
                    ),
                }),
                next: op.next_label.content@,
            },
        ),
        InstructionType::Test(t) => InstructionKindV::Test(
            TestV {
                kind: (match t.test_type {
                    TestType::BuiltIn(b) => spec_test_kind_top(b, &i.parameters),
                    TestType::Macro(_) => spec_test_kind_top(BuiltInTest::Zero, &i.parameters),
                }),
                next_then: t.next_true_label.content@,
                next_else: t.next_false_label.content@,
            },
        ),
    }
}

/// As `spec_op_kind`, with registers standing as written.
pub open spec fn spec_op_kind_top(b: BuiltInOperation, p: &crate::ast::Parameters) -> OperationKindV {
    match b {
        BuiltInOperation::Inc => OperationKindV::Inc(p.registers@[0]@),
        BuiltInOperation::Dec => OperationKindV::Dec(p.registers@[0]@),
        BuiltInOperation::Clear => OperationKindV::Clear(p.registers@[0]@),
        BuiltInOperation::Load => OperationKindV::Load(p.registers@[0]@, spec_const(p)),
        BuiltInOperation::AddConst => OperationKindV::AddConst(p.registers@[0]@, spec_const(p)),
        BuiltInOperation::Add => OperationKindV::Add(
            p.registers@[0]@,
            p.registers@[1]@,
            p.registers@[2]@,
        ),
        BuiltInOperation::SubConst => OperationKindV::SubConst(p.registers@[0]@, spec_const(p)),
        BuiltInOperation::Sub => OperationKindV::Sub(
            p.registers@[0]@,
            p.registers@[1]@,
            p.registers@[2]@,
        ),
    }
}

/// As `spec_test_kind`, with registers standing as written.
pub open spec fn spec_test_kind_top(b: BuiltInTest, p: &crate::ast::Parameters) -> TestKindV {
    match b {
        BuiltInTest::Zero => TestKindV::Zero(p.registers@[0]@),
        BuiltInTest::EqualsConst => TestKindV::EqualsConst(p.registers@[0]@, spec_const(p)),
        BuiltInTest::Equals => TestKindV::Equals(
            p.registers@[0]@,
            p.registers@[1]@,
            p.registers@[2]@,
        ),
        BuiltInTest::LessThanConst => TestKindV::LessThanConst(p.registers@[0]@, spec_const(p)),
        BuiltInTest::LessThan => TestKindV::LessThan(
            p.registers@[0]@,
            p.registers@[1]@,
            p.registers@[2]@,
        ),
    }
}

/// Every entry of the main block is a convertible built-in under a label
/// other than the reserved halt label, and the labels are distinct: on such
/// a program expansion always succeeds.
pub open spec fn main_ok(code: InstructionBlock) -> bool {
    &&& block_labels(code).no_duplicates()
    &&& forall|j: int|
        0 <= j < block_labels(code).len() ==> main_entry_ok(code, j)
}

/// The j-th main entry is present, labeled legally, and convertible.
pub open spec fn main_entry_ok(code: InstructionBlock, j: int) -> bool {
    &&& block_entries(code).contains_key(block_labels(code)[j])
    &&& block_labels(code)[j] != "0"@
    &&& flat_convertible(&block_entries(code)[block_labels(code)[j]])
}

/// What expansion guarantees of the j-th main entry when it succeeds: the
/// label is legal, and a convertible entry appears, translated, in the
/// flat program under its own label.
pub open spec fn main_entry_expanded(code: InstructionBlock, j: int, p: program::Program) -> bool {
    &&& block_entries(code).contains_key(block_labels(code)[j])
    &&& block_labels(code)[j] != "0"@
    &&& (flat_convertible(&block_entries(code)[block_labels(code)[j]]) ==> p.has(
        block_labels(code)[j],
    ) && p.entry(block_labels(code)[j])@.label == block_labels(code)[j] && p.entry(
        block_labels(code)[j],
    )@.kind == spec_flat_kind_top(&block_entries(code)[block_labels(code)[j]]))
}

/// Every entry of the first program is still in the second, unchanged:
/// expansion only adds instructions.
pub open spec fn preserves(a: program::Program, b: program::Program) -> bool {
    forall|l: Seq<char>| #[trigger] a.has(l) ==> b.has(l) && b.entry(l) == a.entry(l)
}

/// Preservation composes.
pub proof fn lemma_preserves_trans(a: program::Program, b: program::Program, c: program::Program)
    requires
        preserves(a, b),
        preserves(b, c),
    ensures
        preserves(a, c),
{
    assert forall|l: Seq<char>| #[trigger] a.has(l) implies c.has(l) && c.entry(l) == a.entry(
        l,
    ) by {
        assert(b.has(l) && b.entry(l) == a.entry(l));
    }
}

/// An instantiation already recorded in a flat program stands in every
/// extension of it.
pub proof fn lemma_call_expanded_mono(
    mac: Macro,
    args: Seq<String>,
    entry: Seq<char>,
    exits: ExitRule,
    a: program::Program,
    b: program::Program,
)
    requires
        call_expanded(mac, args, entry, exits, a),
        preserves(a, b),
    ensures
        call_expanded(mac, args, entry, exits, b),
{
    let ctx = choose|ctx: BlockCtx|
        {
            &&& #[trigger] ctx.subst@ =~= spec_zip_subst(mac.parameters@, args)
            &&& ctx.exits == exits
            &&& (block_labels(mac.instr).len() > 0 ==> spec_assoc(
                ctx.lmap@,
                block_labels(mac.instr)[0],
            ) == Some(entry))
            &&& block_expanded(mac.instr, &ctx, a)
        };
    assert(block_expanded(mac.instr, &ctx, b)) by {
        assert forall|j: int| 0 <= j < block_labels(mac.instr).len() implies block_entry_expanded(
            mac.instr,
            &ctx,
            b,
            j,
        ) by {
            assert(block_entry_expanded(mac.instr, &ctx, a, j));
            let lab = block_labels(mac.instr)[j];
            if spec_flat_kind(&block_entries(mac.instr)[lab], &ctx) is Some {
                assert(a.has(spec_emit(&ctx, lab)));
                assert(b.has(spec_emit(&ctx, lab)) && b.entry(spec_emit(&ctx, lab)) == a.entry(
                    spec_emit(&ctx, lab),
                ));
            }
        }
    }
    assert(call_expanded(mac, args, entry, exits, b)) by {
        assert(ctx.subst@ =~= spec_zip_subst(mac.parameters@, args));
    }
}

/// Under the main block's context a convertible instruction translates as
/// written.
pub proof fn lemma_flat_kind_top(i: &Instruction, ctx: &BlockCtx)
    requires
        ctx.is_top(),
        flat_convertible(i),
    ensures
        spec_flat_kind(i, ctx) == Some(spec_flat_kind_top(i)),
{
    assert(ctx.subst@.len() == 0);
    assert(ctx.lmap@.len() == 0);
}

/// The names of the macros being expanded, outermost first.
pub open spec fn stack_views(st: Seq<String>) -> Seq<Seq<char>> {
    st.map_values(|s: String| s@)
}

/// The expansion stack holds distinct names of existing macros.
pub open spec fn stack_ok(st: Seq<String>, macros: &MacroBlock) -> bool {
    &&& stack_views(st).no_duplicates()
    &&& forall|i: int| 0 <= i < st.len() ==> macro_order(*macros).contains(#[trigger] st[i]@)
}

/// A stack of distinct existing macro names is no longer than the macro
/// namespace.
pub proof fn lemma_stack_bound(st: Seq<String>, macros: &MacroBlock)
    requires
        stack_ok(st, macros),
    ensures
        st.len() <= macro_order(*macros).len(),
{
    broadcast use vstd::seq_lib::seq_to_set_is_finite;

    let views = stack_views(st);
    assert(views.len() == st.len());
    views.unique_seq_to_set();
    macro_order(*macros).lemma_cardinality_of_set();
    assert forall|v: Seq<char>| views.to_set().contains(v) implies macro_order(
        *macros,
    ).to_set().contains(v) by {
        let i = choose|i: int| 0 <= i < views.len() && views[i] == v;
        assert(st[i]@ == v);
        assert(macro_order(*macros).contains(v));
    }
    assert(views.to_set().subset_of(macro_order(*macros).to_set()));
    vstd::set_lib::lemma_len_subset(views.to_set(), macro_order(*macros).to_set());
}

/// Expands one built-in operation instruction under a context.
fn translate_operation(
    b: &BuiltInOperation,
    params: &crate::ast::Parameters,
    next: &Symbol,
    label: String,
    ctx: &BlockCtx,
) -> (r: Result<program::Instruction, CompileError>)
    ensures
        r is Ok <==> op_shape_ok(*b, params),
        (r matches Ok(fi) ==> fi.label@ == label@ && fi@.kind == InstructionKindV::Operation(
            (OperationV {
                kind: spec_op_kind(*b, params, ctx),
                next: spec_target(ctx, next.content@),
            }),
        )),
        (r matches Err(e) ==> e matches CompileError::ArityMismatch { .. }),
{
    let nregs = params.registers.len();
    let expected: usize = match b {
        BuiltInOperation::Add => 3,
        BuiltInOperation::Sub => 3,
        _ => 1,
    };
    let wants_const = match b {
        BuiltInOperation::Load => true,
        BuiltInOperation::AddConst => true,
        BuiltInOperation::SubConst => true,
        _ => false,
    };
    if nregs != expected || params.constant.is_some() != wants_const {
        return Err(
            CompileError::ArityMismatch { name: builtin_op_name(b), expected, found: nregs },
        );
    }
    let kind = match b {
        BuiltInOperation::Inc => program::OperationKind::Inc(subst_reg(ctx, &params.registers[0])),
        BuiltInOperation::Dec => program::OperationKind::Dec(subst_reg(ctx, &params.registers[0])),
        BuiltInOperation::Clear => program::OperationKind::Clear(
            subst_reg(ctx, &params.registers[0]),
        ),
        BuiltInOperation::Load => program::OperationKind::Load(
            subst_reg(ctx, &params.registers[0]),
            clone_constant(params),
        ),
        BuiltInOperation::AddConst => program::OperationKind::AddConst(
            subst_reg(ctx, &params.registers[0]),
            clone_constant(params),
        ),
        BuiltInOperation::Add => program::OperationKind::Add(
            subst_reg(ctx, &params.registers[0]),
            subst_reg(ctx, &params.registers[1]),
            subst_reg(ctx, &params.registers[2]),
        ),
        BuiltInOperation::SubConst => program::OperationKind::SubConst(
            subst_reg(ctx, &params.registers[0]),
            clone_constant(params),
        ),
        BuiltInOperation::Sub => program::OperationKind::Sub(
            subst_reg(ctx, &params.registers[0]),
            subst_reg(ctx, &params.registers[1]),
            subst_reg(ctx, &params.registers[2]),
        ),
    };
    let oper = program::Operation { kind, next: resolve_target(ctx, &next.content) };
    Ok(program::Instruction { label, kind: program::InstructionKind::Operation(oper) })
}

/// Expands one built-in test instruction under a context.
fn translate_test(
    b: &BuiltInTest,
    params: &crate::ast::Parameters,
    next_true: &Symbol,
    next_false: &Symbol,
    label: String,
    ctx: &BlockCtx,
) -> (r: Result<program::Instruction, CompileError>)
    ensures
        r is Ok <==> test_shape_ok(*b, params),
        (r matches Ok(fi) ==> fi.label@ == label@ && fi@.kind == InstructionKindV::Test(
            (TestV {
                kind: spec_test_kind(*b, params, ctx),
                next_then: spec_target(ctx, next_true.content@),
                next_else: spec_target(ctx, next_false.content@),
            }),
        )),
        (r matches Err(e) ==> e matches CompileError::ArityMismatch { .. }),
{
    let nregs = params.registers.len();
    let expected: usize = match b {
        BuiltInTest::Equals => 3,
        BuiltInTest::LessThan => 3,
        _ => 1,
    };
    let wants_const = match b {
        BuiltInTest::EqualsConst => true,
        BuiltInTest::LessThanConst => true,
        _ => false,
    };
    if nregs != expected || params.constant.is_some() != wants_const {
        return Err(
            CompileError::ArityMismatch { name: builtin_test_name(b), expected, found: nregs },
        );
    }
    let kind = match b {
        BuiltInTest::Zero => program::TestKind::Zero(subst_reg(ctx, &params.registers[0])),
        BuiltInTest::EqualsConst => program::TestKind::EqualsConst(
            subst_reg(ctx, &params.registers[0]),
            clone_constant(params),
        ),
        BuiltInTest::Equals => program::TestKind::Equals(
            subst_reg(ctx, &params.registers[0]),
            subst_reg(ctx, &params.registers[1]),
            subst_reg(ctx, &params.registers[2]),
        ),
        BuiltInTest::LessThanConst => program::TestKind::LessThanConst(
            subst_reg(ctx, &params.registers[0]),
            clone_constant(params),
        ),
        BuiltInTest::LessThan => program::TestKind::LessThan(
            subst_reg(ctx, &params.registers[0]),
            subst_reg(ctx, &params.registers[1]),
            subst_reg(ctx, &params.registers[2]),
        ),
    };
    let test = program::Test {
        kind,
        next_then: resolve_target(ctx, &next_true.content),
        next_else: resolve_target(ctx, &next_false.content),
    };
    Ok(program::Instruction { label, kind: program::InstructionKind::Test(test) })
}

/// Clones the constant an instruction carries.
fn clone_constant(params: &crate::ast::Parameters) -> (r: num_bigint::BigUint)
    requires
        params.constant is Some,
    ensures
        nat_of(r) == spec_const(params),
{
    match &params.constant {
        Some(c) => big_clone(c),
        None => vstd::pervasive::unreached(),
    }
}

/// The surface name of a built-in operation, for reports.
fn builtin_op_name(b: &BuiltInOperation) -> (r: String) {
    match b {
        BuiltInOperation::Inc => String::from_str("inc"),
        BuiltInOperation::Dec => String::from_str("dec"),
        BuiltInOperation::Clear => String::from_str("clear"),
        BuiltInOperation::Load => String::from_str("load"),
        BuiltInOperation::AddConst => String::from_str("add"),
        BuiltInOperation::Add => String::from_str("add"),
        BuiltInOperation::SubConst => String::from_str("sub"),
        BuiltInOperation::Sub => String::from_str("sub"),
    }
}

/// The surface name of a built-in test, for reports.
fn builtin_test_name(b: &BuiltInTest) -> (r: String) {
    match b {
        BuiltInTest::Zero => String::from_str("zero"),
        BuiltInTest::EqualsConst => String::from_str("equals"),
        BuiltInTest::Equals => String::from_str("equals"),
        BuiltInTest::LessThanConst => String::from_str("lessThan"),
        BuiltInTest::LessThan => String::from_str("lessThan"),
    }
}

/// Adds a flat instruction under its label, refusing a label already
/// taken.
fn insert_checked(out: &mut program::Program, fi: program::Instruction) -> (r: Result<
    (),
    CompileError,
>)
    requires
        old(out).wf(),
        fi.label@ != "0"@,
    ensures
        final(out).wf(),
        preserves(*old(out), *final(out)),
        (r is Ok ==> !old(out).has(fi.label@) && final(out).has(fi.label@) && final(out).entry(
            fi.label@,
        ) == fi && final(out).labels() == old(out).labels().push(fi.label@)),
        (r is Err ==> old(out).has(fi.label@) && final(out).labels() == old(out).labels()
            && final(out).entries() == old(out).entries()),
        (r matches Err(e) ==> e matches CompileError::DuplicateLabel { .. }),
{
    let taken = match out.get(fi.label.as_str()) {
        Some(_) => true,
        None => false,
    };
    if taken {
        return Err(CompileError::DuplicateLabel { label: fi.label.clone() });
    }
    let ghost pre = *out;
    let ghost lab = fi.label@;
    out.insert(fi);
    proof {
        assert forall|l: Seq<char>| #[trigger] pre.has(l) implies out.has(l) && out.entry(l)
            == pre.entry(l) by {
            assert(l != lab);
        }
    }
    Ok(())
}

/// Draws globally unique fresh labels: decimal renderings of a counter,
/// skipping every label already recorded as seen.
pub struct LabelGen {
    used: SymbolTable<usize>,
    counter: u64,
}

/// The decimal renderings of the naturals below `n`.
spec fn decimal_image(n: nat) -> Set<Seq<char>> {
    Set::new(|s: Seq<char>| exists|c: nat| c < n && s == decimal_of(c))
}

/// With the renderings pairwise distinct below `n`, that set has exactly
/// `n` elements.
proof fn lemma_decimal_image_card(n: nat)
    requires
        forall|a: nat, b: nat| a < b < n ==> decimal_of(a) != decimal_of(b),
    ensures
        decimal_image(n).finite(),
        decimal_image(n).len() == n,
    decreases n,
{
    broadcast use vstd::set::group_set_axioms;

    if n == 0 {
        assert(decimal_image(0) =~= Set::<Seq<char>>::empty());
    } else {
        let m = (n - 1) as nat;
        lemma_decimal_image_card(m);
        let last = decimal_of(m);
        assert(decimal_image(n) =~= decimal_image(m).insert(last)) by {
            assert forall|s: Seq<char>| decimal_image(n).contains(s) implies decimal_image(
                m,
            ).insert(last).contains(s) by {
                let c = choose|c: nat| c < n && s == decimal_of(c);
                if c < m {
                    assert(decimal_image(m).contains(s));
                }
            }
            assert forall|s: Seq<char>| decimal_image(m).insert(last).contains(s) implies
                decimal_image(n).contains(s) by {
                if decimal_image(m).contains(s) {
                    let c = choose|c: nat| c < m && s == decimal_of(c);
                    assert(c < n && s == decimal_of(c));
                } else {
                    assert(s == last);
                    assert(m < n && s == decimal_of(m));
                }
            }
        }
        assert(!decimal_image(m).contains(last)) by {
            if decimal_image(m).contains(last) {
                let c = choose|c: nat| c < m && last == decimal_of(c);
                assert(decimal_of(c) != decimal_of(m));
            }
        }
    }
}

/// A duplicate-free label list containing every rendering below `n` holds
/// at least `n` labels.
proof fn lemma_labels_exhausted(used: Seq<Seq<char>>, n: nat)
    requires
        forall|i: int, j: int| 0 <= i < j < used.len() ==> used[i] != used[j],
        forall|c: nat| c < n ==> used.contains(#[trigger] decimal_of(c)),
        forall|a: nat, b: nat| a < b < n ==> decimal_of(a) != decimal_of(b),
    ensures
        used.len() >= n,
{
    broadcast use vstd::set::group_set_axioms;
    broadcast use vstd::seq_lib::seq_to_set_is_finite;

    lemma_decimal_image_card(n);
    assert(used.no_duplicates()) by {
        assert forall|i: int, j: int|
            0 <= i < used.len() && 0 <= j < used.len() && i != j implies used[i] != used[j] by {
            if j < i {
                assert(used[j] != used[i]);
            }
        }
    }
    used.unique_seq_to_set();
    assert(decimal_image(n).subset_of(used.to_set())) by {
        assert forall|s: Seq<char>| decimal_image(n).contains(s) implies used.to_set().contains(
            s,
        ) by {
            let c = choose|c: nat| c < n && s == decimal_of(c);
            assert(used.contains(decimal_of(c)));
        }
    }
    vstd::set_lib::lemma_len_subset(decimal_image(n), used.to_set());
}

impl LabelGen {
    /// Every label seen so far, the reserved halt label among them.
    pub closed spec fn used_labels(&self) -> Seq<Seq<char>> {
        self.used@
    }

    /// The seen-set is a well-formed table holding the halt label and the
    /// rendering of every counter value already passed, and those
    /// renderings are pairwise distinct.
    pub closed spec fn wf(&self) -> bool {
        &&& self.used.wf()
        &&& self.used@.contains("0"@)
        &&& forall|c: nat| c < self.counter ==> self.used@.contains(#[trigger] decimal_of(c))
        &&& forall|a: nat, b: nat| a < b < self.counter ==> decimal_of(a) != decimal_of(b)
    }

    /// A generator that has seen only the reserved halt label.
    pub fn new() -> (g: LabelGen)
        ensures
            g.wf(),
    {
        let mut used: SymbolTable<usize> = SymbolTable::empty();
        let _: usize = used.insert(String::from_str("0"));
        let g = LabelGen { used, counter: 0 };
        proof {
            assert(g.used@[0] == "0"@);
        }
        g
    }

    /// Records a label as seen.
    pub fn reserve(&mut self, label: &String)
        requires
            old(self).wf(),
        ensures
            final(self).wf(),
            final(self).used_labels().contains(label@),
            forall|l: Seq<char>|
                old(self).used_labels().contains(l) ==> final(self).used_labels().contains(l),
    {
        let ghost pre = self.used@;
        let _: usize = self.used.insert(label.clone());
        proof {
            if !pre.contains(label@) {
                assert(self.used@[pre.len() as int] == label@);
                assert forall|l: Seq<char>| pre.contains(l) implies self.used@.contains(l) by {
                    let i = choose|i: int| 0 <= i < pre.len() && pre[i] == l;
                    assert(self.used@[i] == l);
                }
            }
            assert forall|c: nat| c < self.counter implies self.used@.contains(
                #[trigger] decimal_of(c),
            ) by {
                assert(pre.contains(decimal_of(c)));
            }
        }
    }

    /// Draws a label unseen so far and marks it seen.  Success is owed
    /// while fewer than `u64::MAX` labels have been seen: failure says the
    /// label namespace is exhausted.
    pub fn fresh(&mut self) -> (r: Result<String, CompileError>)
        requires
            old(self).wf(),
        ensures
            final(self).wf(),
            forall|l: Seq<char>|
                old(self).used_labels().contains(l) ==> final(self).used_labels().contains(l),
            (r matches Ok(s) ==> !old(self).used_labels().contains(s@)
                && final(self).used_labels().contains(s@) && s@ != "0"@),
            (r matches Err(e) ==> e matches CompileError::TooManyLabels),
            (r is Err ==> final(self).used_labels() == old(self).used_labels()
                && old(self).used_labels().len() >= u64::MAX as nat),
    {
        while self.counter < u64::MAX
            invariant
                self.used == old(self).used,
                self.wf(),
            decreases u64::MAX - self.counter,
        {
            let c = self.counter;
            self.counter = c + 1;
            let rendered = big_to_decimal(&big_from_u64(c));
            let ghost pre = self.used@;
            if !self.used.contains_symbol(rendered.as_str()) {
                let _: usize = self.used.insert(rendered.clone());
                proof {
                    assert(self.used@[pre.len() as int] == rendered@);
                    assert forall|l: Seq<char>| pre.contains(l) implies self.used@.contains(
                        l,
                    ) by {
                        let i = choose|i: int| 0 <= i < pre.len() && pre[i] == l;
                        assert(self.used@[i] == l);
                    }
                    assert(rendered@ != "0"@);
                    assert(self.used@.contains(rendered@));
                    assert forall|cc: nat| cc < self.counter implies self.used@.contains(
                        #[trigger] decimal_of(cc),
                    ) by {
                        if cc < c as nat {
                            assert(pre.contains(decimal_of(cc)));
                        } else {
                            assert(decimal_of(cc) == rendered@);
                        }
                    }
                    assert forall|a: nat, b: nat| a < b < self.counter implies decimal_of(a)
                        != decimal_of(b) by {
                        if b == c as nat {
                            assert(decimal_of(a) != rendered@);
                        }
                    }
                }
                return Ok(rendered);
            }
            proof {
                assert(self.used@.contains(rendered@));
                assert forall|cc: nat| cc < self.counter implies self.used@.contains(
                    #[trigger] decimal_of(cc),
                ) by {
                    if cc == c as nat {
                        assert(decimal_of(cc) == rendered@);
                    }
                }
                assert forall|a: nat, b: nat| a < b < self.counter implies decimal_of(a)
                    != decimal_of(b) by {
                    if b == c as nat {
                        assert(decimal_of(a) != rendered@);
                    }
                }
            }
        }
        proof {
            lemma_labels_exhausted(self.used@, u64::MAX as nat);
        }
        Err(CompileError::TooManyLabels)
    }
}

/// Records every label an instruction block defines or jumps to.
fn seed_labels(gen: &mut LabelGen, code: &InstructionBlock)
    requires
        old(gen).wf(),
    ensures
        final(gen).wf(),
{
    let n = block_map_len(code);
    let mut j: usize = 0;
    while j < n
        invariant
            gen.wf(),
            n == block_labels(*code).len(),
            j <= n,
        decreases n - j,
    {
        let (lbl, instr) = match block_map_get_index(code, j) {
            Some(p) => p,
            None => vstd::pervasive::unreached(),
        };
        gen.reserve(lbl);
        match &instr.instruction_type {
            InstructionType::Operation(op) => {
                gen.reserve(&op.next_label.content);
            },
            InstructionType::Test(t) => {
                gen.reserve(&t.next_true_label.content);
                gen.reserve(&t.next_false_label.content);
            },
        }
        j = j + 1;
    }
}

/// The call site's register names, substituted through the context.
fn substituted_args(ctx: &BlockCtx, regs: &Vec<String>) -> (r: Vec<String>)
    ensures
        r@.len() == regs@.len(),
        forall|i: int| 0 <= i < r@.len() ==> r@[i]@ == spec_subst_reg(ctx, #[trigger] regs@[i]@),
        ctx.subst@.len() == 0 ==> r@ =~= regs@,
{
    let n = regs.len();
    let mut out: Vec<String> = Vec::new();
    let mut i: usize = 0;
    while i < n
        invariant
            n == regs@.len(),
            i <= n,
            out@.len() == i as int,
            forall|k: int|
                0 <= k < i as int ==> out@[k]@ == spec_subst_reg(ctx, #[trigger] regs@[k]@),
            ctx.subst@.len() == 0 ==> forall|k: int| 0 <= k < i as int ==> out@[k] == regs@[k],
        decreases n - i,
    {
        out.push(subst_reg(ctx, &regs[i]));
        i = i + 1;
    }
    out
}

/// Instantiates one macro call: checks the call against the definition,
/// renames the body's labels (its first label becomes the call site's),
/// substitutes actual registers for formals, rewires exits to the call
/// site's continuation, and expands the renamed body.
fn expand_call(
    macros: &MacroBlock,
    name: &Symbol,
    args: Vec<String>,
    entry: String,
    exits: ExitRule,
    out: &mut program::Program,
    gen: &mut LabelGen,
    stack: &mut Vec<String>,
) -> (r: Result<(), CompileError>)
    requires
        old(out).wf(),
        old(gen).wf(),
        stack_ok(old(stack)@, macros),
    ensures
        final(out).wf(),
        final(gen).wf(),
        final(stack)@ == old(stack)@,
        preserves(*old(out), *final(out)),
        (r is Ok ==> macro_entries(*macros).contains_key(name.content@) && kind_fits(
            macro_entries(*macros)[name.content@].macro_type,
            exits,
        ) && macro_entries(*macros)[name.content@].parameters@.len() == args@.len()
            && call_expanded(
            macro_entries(*macros)[name.content@],
            args@,
            entry@,
            exits,
            *final(out),
        )),
        (r matches Err(e) ==> error_evidence(e, *macros)),
    decreases macro_order(*macros).len() - old(stack)@.len(), 0int,
{
    let mac = match macro_map_get(macros, &name.content) {
        Some(m) => m,
        None => {
            return Err(CompileError::UnknownMacro { name: name.content.clone() });
        },
    };
    let kind_ok = match (&mac.macro_type, &exits) {
        (MacroType::Operation, ExitRule::Operation(_)) => true,
        (MacroType::Test, ExitRule::Test(_, _)) => true,
        _ => false,
    };
    if !kind_ok {
        return Err(CompileError::MacroKindMismatch { name: name.content.clone() });
    }
    proof {
        assert(kind_fits(mac.macro_type, exits));
    }
    if mac.parameters.len() != args.len() {
        return Err(
            CompileError::ArityMismatch {
                name: name.content.clone(),
                expected: mac.parameters.len(),
                found: args.len(),
            },
        );
    }
    let depth = stack.len();
    let mut i: usize = 0;
    while i < depth
        invariant
            *out == *old(out),
            *gen == *old(gen),
            out.wf(),
            gen.wf(),
            stack@ == old(stack)@,
            depth == stack@.len(),
            i <= depth,
            macro_entries(*macros).contains_key(name.content@),
            forall|k: int| 0 <= k < i as int ==> stack@[k]@ != name.content@,
        decreases depth - i,
    {
        if stack[i] == name.content {
            return Err(CompileError::RecursiveMacro { name: name.content.clone() });
        }
        i = i + 1;
    }
    let np = mac.parameters.len();
    let mut subst: Vec<(String, String)> = Vec::new();
    let mut k: usize = 0;
    while k < np
        invariant
            *out == *old(out),
            *gen == *old(gen),
            out.wf(),
            gen.wf(),
            stack@ == old(stack)@,
            np == mac.parameters@.len(),
            np == args@.len(),
            k <= np,
            subst@.len() == k as int,
            forall|q: int|
                0 <= q < k as int ==> subst@[q] == (mac.parameters@[q].content, args@[q]),
        decreases np - k,
    {
        subst.push((mac.parameters[k].content.clone(), args[k].clone()));
        k = k + 1;
    }
    proof {
        assert(subst@ =~= spec_zip_subst(mac.parameters@, args@));
    }
    let mut lmap: Vec<(String, String)> = Vec::new();
    let body_len = block_map_len(&mac.instr);
    let mut j: usize = 0;
    while j < body_len
        invariant
            *out == *old(out),
            out.wf(),
            gen.wf(),
            stack@ == old(stack)@,
            j <= body_len,
            body_len == block_labels(mac.instr).len(),
            lmap@.len() == j as int,
            j as int > 0 ==> lmap@[0].0@ == block_labels(mac.instr)[0] && lmap@[0].1 == entry,
        decreases body_len - j,
    {
        let lbl = match block_map_get_index(&mac.instr, j) {
            Some(p) => p.0,
            None => vstd::pervasive::unreached(),
        };
        let target = if j == 0 {
            entry.clone()
        } else {
            match gen.fresh() {
                Ok(s) => s,
                Err(e) => {
                    return Err(e);
                },
            }
        };
        lmap.push((lbl.clone(), target));
        j = j + 1;
    }
    let ghost stack0 = stack@;
    stack.push(name.content.clone());
    proof {
        assert(stack@ =~= stack0.push(name.content));
        assert forall|a: int, b: int|
            0 <= a < b < stack_views(stack@).len() implies stack_views(stack@)[a] != stack_views(
            stack@,
        )[b] by {
            if b == stack0.len() as int {
                assert(stack_views(stack@)[b] == name.content@);
                assert(stack@[a]@ == stack0[a]@);
                assert(stack0[a]@ != name.content@);
            } else {
                assert(stack_views(stack0)[a] != stack_views(stack0)[b]);
            }
        }
        assert forall|q: int| 0 <= q < stack@.len() implies macro_order(*macros).contains(
            #[trigger] stack@[q]@,
        ) by {
            if q < stack0.len() {
                assert(stack0[q]@ == stack@[q]@);
            } else {
                assert(stack@[q]@ == name.content@);
            }
        }
        lemma_stack_bound(stack@, macros);
    }
    let ctx = BlockCtx { subst, lmap, exits };
    let r = expand_seq(macros, &mac.instr, &ctx, out, gen, stack);
    let _ = stack.pop();
    proof {
        assert(stack@ =~= stack0);
        if r is Ok {
            if block_labels(mac.instr).len() > 0 {
                assert(spec_assoc(ctx.lmap@, block_labels(mac.instr)[0]) == Some(entry@));
            }
            assert(call_expanded(*mac, args@, entry@, ctx.exits, *out)) by {
                assert(ctx.subst@ =~= spec_zip_subst(mac.parameters@, args@));
                assert(block_expanded(mac.instr, &ctx, *out));
            }
        }
    }
    r
}

/// Expands every instruction of one block under its context: built-ins
/// are translated and emitted, macro calls are instantiated in place.
fn expand_seq(
    macros: &MacroBlock,
    code: &InstructionBlock,
    ctx: &BlockCtx,
    out: &mut program::Program,
    gen: &mut LabelGen,
    stack: &mut Vec<String>,
) -> (r: Result<(), CompileError>)
    requires
        old(out).wf(),
        old(gen).wf(),
        stack_ok(old(stack)@, macros),
    ensures
        final(out).wf(),
        final(gen).wf(),
        final(stack)@ == old(stack)@,
        preserves(*old(out), *final(out)),
        (r is Ok ==> block_expanded(*code, ctx, *final(out))),
        (r matches Err(e) ==> error_evidence(e, *macros)),
    decreases macro_order(*macros).len() - old(stack)@.len(), 1int,
{
    let n = block_map_len(code);
    let mut j: usize = 0;
    while j < n
        invariant
            out.wf(),
            gen.wf(),
            stack@ == old(stack)@,
            stack_ok(stack@, macros),
            preserves(*old(out), *out),
            j <= n,
            n == block_labels(*code).len(),
            forall|jj: int| 0 <= jj < j as int ==> block_entry_expanded(*code, ctx, *out, jj),
        decreases n - j,
    {
        let (lbl, instr) = match block_map_get_index(code, j) {
            Some(p) => p,
            None => vstd::pervasive::unreached(),
        };
        let ghost lab = block_labels(*code)[j as int];
        let emit = match assoc_lookup(&ctx.lmap, lbl) {
            Some(s) => s.clone(),
            None => lbl.clone(),
        };
        proof {
            assert(emit@ == spec_emit(ctx, lab));
        }
        let halt = String::from_str("0");
        if emit == halt {
            return Err(CompileError::ReservedLabel { label: emit });
        }
        let ghost out_before = *out;
        match &instr.instruction_type {
            InstructionType::Operation(op) => match &op.oper_type {
                OperationType::BuiltIn(b) => {
                    let fi = match translate_operation(b, &instr.parameters, &op.next_label, emit, ctx) {
                        Ok(fi) => fi,
                        Err(e) => {
                            return Err(e);
                        },
                    };
                    match insert_checked(out, fi) {
                        Ok(u) => u,
                        Err(e) => {
                            return Err(e);
                        },
                    }
                    proof {
                        assert(block_entry_expanded(*code, ctx, *out, j as int));
                    }
                },
                OperationType::Macro(mname) => {
                    let call_args = substituted_args(ctx, &instr.parameters.registers);
                    let exits2 = ExitRule::Operation(resolve_target(ctx, &op.next_label.content));
                    match expand_call(macros, mname, call_args, emit, exits2, out, gen, stack) {
                        Ok(u) => u,
                        Err(e) => {
                            return Err(e);
                        },
                    }
                    proof {
                        assert(block_entry_expanded(*code, ctx, *out, j as int));
                    }
                },
            },
            InstructionType::Test(t) => match &t.test_type {
                TestType::BuiltIn(b) => {
                    let fi = match translate_test(
                        b,
                        &instr.parameters,
                        &t.next_true_label,
                        &t.next_false_label,
                        emit,
                        ctx,
                    ) {
                        Ok(fi) => fi,
                        Err(e) => {
                            return Err(e);
                        },
                    };
                    match insert_checked(out, fi) {
                        Ok(u) => u,
                        Err(e) => {
                            return Err(e);
                        },
                    }
                    proof {
                        assert(block_entry_expanded(*code, ctx, *out, j as int));
                    }
                },
                TestType::Macro(mname) => {
                    let call_args = substituted_args(ctx, &instr.parameters.registers);
                    let exits2 = ExitRule::Test(
                        resolve_target(ctx, &t.next_true_label.content),
                        resolve_target(ctx, &t.next_false_label.content),
                    );
                    match expand_call(macros, mname, call_args, emit, exits2, out, gen, stack) {
                        Ok(u) => u,
                        Err(e) => {
                            return Err(e);
                        },
                    }
                    proof {
                        assert(block_entry_expanded(*code, ctx, *out, j as int));
                    }
                },
            },
        }
        proof {
            lemma_preserves_trans(*old(out), out_before, *out);
            assert forall|jj: int| 0 <= jj < j as int + 1 implies block_entry_expanded(
                *code,
                ctx,
                *out,
                jj,
            ) by {
                if jj < j as int {
                    assert(block_entry_expanded(*code, ctx, out_before, jj));
                    let labjj = block_labels(*code)[jj];
                    if spec_flat_kind(&block_entries(*code)[labjj], ctx) is Some {
                        assert(out_before.has(spec_emit(ctx, labjj)));
                        assert(out.has(spec_emit(ctx, labjj)) && out.entry(spec_emit(ctx, labjj))
                            == out_before.entry(spec_emit(ctx, labjj)));
                    }
                }
            }
        }
        j = j + 1;
    }
    Ok(())
}

/// Compiles an unexpanded program: walks the main block in order, copies
/// built-ins into the flat program, and inlines every macro call.  On a
/// main block of well-shaped built-ins under legal, distinct labels it
/// always succeeds, and every such instruction reappears, translated,
/// under its own label.
pub fn expand(program: &crate::ast::Program) -> (r: Result<program::Program, CompileError>)
    ensures
        (r matches Ok(p) ==> p.wf()),
        (r matches Ok(p) ==> forall|j: int|
            0 <= j < block_labels(program.main.code).len() ==> main_entry_expanded(
                program.main.code,
                j,
                p,
            )),
        (r matches Ok(p) ==> forall|j: int|
            0 <= j < block_labels(program.main.code).len() ==> main_entry_called(
                program.main.code,
                program.macros,
                j,
                p,
            )),
        main_ok(program.main.code) ==> r is Ok,
        (r matches Err(e) ==> error_evidence(e, program.macros)),
{
    let mut out = program::Program::empty();
    let mut gen = LabelGen::new();
    seed_labels(&mut gen, &program.main.code);
    let mlen = macro_map_len(&program.macros);
    let mut mi: usize = 0;
    while mi < mlen
        invariant
            gen.wf(),
            mlen == macro_order(program.macros).len(),
            mi <= mlen,
        decreases mlen - mi,
    {
        let mac = match macro_map_get_index(&program.macros, mi) {
            Some(p) => p.1,
            None => vstd::pervasive::unreached(),
        };
        seed_labels(&mut gen, &mac.instr);
        mi = mi + 1;
    }
    let mut stack: Vec<String> = Vec::new();
    let ctx = BlockCtx { subst: Vec::new(), lmap: Vec::new(), exits: ExitRule::Top };
    let ghost code = program.main.code;
    let n = block_map_len(&program.main.code);
    let mut j: usize = 0;
    while j < n
        invariant
            out.wf(),
            gen.wf(),
            stack@.len() == 0,
            stack_ok(stack@, &program.macros),
            ctx.is_top(),
            code == program.main.code,
            n == block_labels(code).len(),
            j <= n,
            forall|jj: int| 0 <= jj < j as int ==> main_entry_expanded(code, jj, out),
            forall|jj: int|
                0 <= jj < j as int ==> main_entry_called(code, program.macros, jj, out),
            main_ok(code) ==> out.labels() =~= block_labels(code).subrange(0, j as int),
        decreases n - j,
    {
        let (lbl, instr) = match block_map_get_index(&program.main.code, j) {
            Some(p) => p,
            None => vstd::pervasive::unreached(),
        };
        let ghost lab = block_labels(code)[j as int];
        let emit = lbl.clone();
        let halt = String::from_str("0");
        if emit == halt {
            proof {
                if main_ok(code) {
                    assert(main_entry_ok(code, j as int));
                    assert(false);
                }
            }
            return Err(CompileError::ReservedLabel { label: emit });
        }
        let ghost out_before = out;
        match &instr.instruction_type {
            InstructionType::Operation(op) => match &op.oper_type {
                OperationType::BuiltIn(b) => {
                    let fi = match translate_operation(b, &instr.parameters, &op.next_label, emit, &ctx) {
                        Ok(fi) => fi,
                        Err(e) => {
                            proof {
                                if main_ok(code) {
                                    assert(main_entry_ok(code, j as int));
                                    assert(false);
                                }
                            }
                            return Err(e);
                        },
                    };
                    match insert_checked(&mut out, fi) {
                        Ok(u) => u,
                        Err(e) => {
                            proof {
                                if main_ok(code) {
                                    assert(main_entry_ok(code, j as int));
                                    assert(block_labels(code).subrange(0, j as int).contains(lab));
                                    let q = choose|q: int|
                                        0 <= q < j as int && block_labels(code).subrange(
                                            0,
                                            j as int,
                                        )[q] == lab;
                                    assert(block_labels(code)[q] == lab);
                                    assert(false);
                                }
                            }
                            return Err(e);
                        },
                    }
                    proof {
                        lemma_flat_kind_top(instr, &ctx);
                        assert(main_entry_called(code, program.macros, j as int, out));
                    }
                },
                OperationType::Macro(mname) => {
                    proof {
                        if main_ok(code) {
                            assert(main_entry_ok(code, j as int));
                            assert(false);
                        }
                    }
                    let call_args = substituted_args(&ctx, &instr.parameters.registers);
                    let exits2 = ExitRule::Operation(resolve_target(&ctx, &op.next_label.content));
                    let ghost ca = call_args@;
                    let ghost em = emit@;
                    let ghost ex2 = exits2;
                    match expand_call(&program.macros, mname, call_args, emit, exits2, &mut out, &mut gen, &mut stack) {
                        Ok(u) => u,
                        Err(e) => {
                            return Err(e);
                        },
                    }
                    proof {
                        assert(ca =~= instr.parameters.registers@);
                        assert(em == lab);
                        assert(ex2 == ExitRule::Operation(op.next_label.content));
                        assert(main_entry_called(code, program.macros, j as int, out));
                    }
                },
            },
            InstructionType::Test(t) => match &t.test_type {
                TestType::BuiltIn(b) => {
                    let fi = match translate_test(
                        b,
                        &instr.parameters,
                        &t.next_true_label,
                        &t.next_false_label,
                        emit,
                        &ctx,
                    ) {
                        Ok(fi) => fi,
                        Err(e) => {
                            proof {
                                if main_ok(code) {
                                    assert(main_entry_ok(code, j as int));
                                    assert(false);
                                }
                            }
                            return Err(e);
                        },
                    };
                    match insert_checked(&mut out, fi) {
                        Ok(u) => u,
                        Err(e) => {
                            proof {
                                if main_ok(code) {
                                    assert(main_entry_ok(code, j as int));
                                    assert(block_labels(code).subrange(0, j as int).contains(lab));
                                    let q = choose|q: int|
                                        0 <= q < j as int && block_labels(code).subrange(
                                            0,
                                            j as int,
                                        )[q] == lab;
                                    assert(block_labels(code)[q] == lab);
                                    assert(false);
                                }
                            }
                            return Err(e);
                        },
                    }
                    proof {
                        lemma_flat_kind_top(instr, &ctx);
                        assert(main_entry_called(code, program.macros, j as int, out));
                    }
                },
                TestType::Macro(mname) => {
                    proof {
                        if main_ok(code) {
                            assert(main_entry_ok(code, j as int));
                            assert(false);
                        }
                    }
                    let call_args = substituted_args(&ctx, &instr.parameters.registers);
                    let exits2 = ExitRule::Test(
                        resolve_target(&ctx, &t.next_true_label.content),
                        resolve_target(&ctx, &t.next_false_label.content),
                    );
                    let ghost ca = call_args@;
                    let ghost em = emit@;
                    let ghost ex2 = exits2;
                    match expand_call(&program.macros, mname, call_args, emit, exits2, &mut out, &mut gen, &mut stack) {
                        Ok(u) => u,
                        Err(e) => {
                            return Err(e);
                        },
                    }
                    proof {
                        assert(ca =~= instr.parameters.registers@);
                        assert(em == lab);
                        assert(ex2 == ExitRule::Test(
                            t.next_true_label.content,
                            t.next_false_label.content,
                        ));
                        assert(main_entry_called(code, program.macros, j as int, out));
                    }
                },
            },
        }
        proof {
            assert forall|jj: int|
                0 <= jj < j as int + 1 implies main_entry_called(
                code,
                program.macros,
                jj,
                out,
            ) by {
                if jj < j as int {
                    lemma_main_entry_called_mono(code, program.macros, jj, out_before, out);
                }
            }
            assert forall|jj: int| 0 <= jj < j as int + 1 implies main_entry_expanded(
                code,
                jj,
                out,
            ) by {
                if jj < j as int {
                    assert(main_entry_expanded(code, jj, out_before));
                    let lj = block_labels(code)[jj];
                    if flat_convertible(&block_entries(code)[lj]) {
                        assert(out_before.has(lj));
                        assert(out.has(lj) && out.entry(lj) == out_before.entry(lj));
                    }
                } else {
                    assert(block_entries(code).contains_key(lab));
                    assert(lab != "0"@);
                }
            }
            if main_ok(code) {
                assert(main_entry_ok(code, j as int));
                assert(out.labels() =~= block_labels(code).subrange(0, j as int + 1));
            }
        }
        j = j + 1;
    }
    Ok(out)
}

/// Assembles a main block from instructions in order, refusing a
/// duplicate label and the reserved halt label; succeeds exactly when the
/// labels are distinct and legal.
#[verifier::loop_isolation(false)]
pub fn build_main(instructions: Vec<Instruction>) -> (r: Result<Main, CompileError>)
    ensures
        (r matches Ok(m) ==> block_labels(m.code).len() == instructions@.len() && forall|j: int|
            0 <= j < instructions@.len() ==> block_labels(m.code)[j]
                == instructions@[j].label.content@ && block_entries(m.code).contains_key(
                block_labels(m.code)[j],
            ) && block_entries(m.code)[block_labels(m.code)[j]] == instructions@[j]),
        r is Ok <==> labels_legal(instructions@),
        (r matches Err(e) ==> e matches CompileError::DuplicateLabel { .. } || e
            matches CompileError::ReservedLabel { .. }),
{
    let ghost all = instructions@;
    let total = instructions.len();
    let mut rest = instructions;
    let mut code = block_map_new();
    let mut taken: usize = 0;
    while rest.len() > 0
        invariant
            total as int == all.len(),
            taken as int + rest@.len() == all.len(),
            rest@ =~= all.subrange(taken as int, all.len() as int),
            block_labels(code).len() == taken as int,
            forall|j: int|
                0 <= j < taken as int ==> #[trigger] block_labels(code)[j]
                    == all[j].label.content@,
            forall|j: int|
                0 <= j < taken as int ==> block_entries(code).contains_key(
                    #[trigger] block_labels(code)[j],
                ),
            forall|j: int|
                0 <= j < taken as int ==> block_entries(code)[#[trigger] block_labels(code)[j]]
                    == all[j],
            forall|j: int, k: int|
                0 <= j < k < taken as int ==> block_labels(code)[j] != block_labels(code)[k],
            forall|j: int| 0 <= j < taken as int ==> all[j].label.content@ != "0"@,
            forall|l: Seq<char>|
                block_entries(code).contains_key(l) ==> exists|j: int|
                    0 <= j < taken as int && block_labels(code)[j] == l,
        decreases rest@.len(),
    {
        let instr = rest.remove(0);
        proof {
            assert(instr == all[taken as int]);
        }
        let key = instr.label.content.clone();
        let halt = String::from_str("0");
        if key == halt {
            proof {
                assert(all[taken as int].label.content@ == "0"@);
                assert(!labels_legal(all));
            }
            return Err(CompileError::ReservedLabel { label: key });
        }
        let already = match block_map_get(&code, &key) {
            Some(_) => true,
            None => false,
        };
        if already {
            proof {
                assert(block_labels(code).contains(key@)) by {
                    let j = choose|j: int|
                        0 <= j < taken as int && block_labels(code)[j] == key@;
                    assert(block_labels(code)[j] == key@);
                }
                let j = choose|j: int| 0 <= j < taken as int && block_labels(code)[j] == key@;
                assert(all[j].label.content@ == all[taken as int].label.content@);
                assert(!labels_legal(all));
            }
            return Err(CompileError::DuplicateLabel { label: key });
        }
        let ghost pre = code;
        let _ = block_map_insert(&mut code, key, instr);
        proof {
            assert(block_labels(code) == block_labels(pre).push(all[taken as int].label.content@));
            assert forall|j: int| 0 <= j < taken as int implies block_labels(pre)[j]
                != all[taken as int].label.content@ by {
                assert(block_entries(pre).contains_key(block_labels(pre)[j]));
            }
            assert forall|l: Seq<char>| block_entries(code).contains_key(l) implies exists|j: int|
                0 <= j < taken as int + 1 && block_labels(code)[j] == l by {
                if block_entries(pre).contains_key(l) {
                    let j = choose|j: int|
                        0 <= j < taken as int && block_labels(pre)[j] == l;
                    assert(block_labels(code)[j] == l);
                } else {
                    assert(block_labels(code)[taken as int] == l);
                }
            }
        }
        taken = taken + 1;
        proof {
            assert(rest@ =~= all.subrange(taken as int, all.len() as int));
        }
    }
    proof {
        assert(labels_legal(all)) by {
            assert forall|j: int, k: int|
                0 <= j < k < all.len() implies all[j].label.content@ != all[k].label.content@ by {
                assert(block_labels(code)[j] == all[j].label.content@);
                assert(block_labels(code)[k] == all[k].label.content@);
            }
        }
    }
    Ok(Main { code })
}

/// The instruction labels are pairwise distinct and none is the reserved
/// halt label.
pub open spec fn labels_legal(instructions: Seq<Instruction>) -> bool {
    &&& forall|j: int, k: int|
        0 <= j < k < instructions.len() ==> instructions[j].label.content@
            != instructions[k].label.content@
    &&& forall|j: int| 0 <= j < instructions.len() ==> instructions[j].label.content@ != "0"@
}

/// The macro names are pairwise distinct.
pub open spec fn names_distinct(macro_list: Seq<Macro>) -> bool {
    forall|j: int, k: int|
        0 <= j < k < macro_list.len() ==> macro_list[j].name.content@
            != macro_list[k].name.content@
}

/// Assembles a program from a main block and macros in order, refusing a
/// duplicate macro name; succeeds exactly when the names are distinct.
#[verifier::loop_isolation(false)]
pub fn build_program(main: Main, macro_list: Vec<Macro>) -> (r: Result<
    crate::ast::Program,
    CompileError,
>)
    ensures
        (r matches Ok(p) ==> p.main == main && macro_order(p.macros).len() == macro_list@.len()
            && forall|j: int|
            0 <= j < macro_list@.len() ==> macro_order(p.macros)[j]
                == macro_list@[j].name.content@ && macro_entries(p.macros).contains_key(
                macro_order(p.macros)[j],
            ) && macro_entries(p.macros)[macro_order(p.macros)[j]] == macro_list@[j]),
        r is Ok <==> names_distinct(macro_list@),
        (r matches Err(e) ==> e matches CompileError::DuplicateMacro { .. }),
{
    let ghost all = macro_list@;
    let total = macro_list.len();
    let mut rest = macro_list;
    let mut macros = macro_map_new();
    let mut taken: usize = 0;
    while rest.len() > 0
        invariant
            total as int == all.len(),
            taken as int + rest@.len() == all.len(),
            rest@ =~= all.subrange(taken as int, all.len() as int),
            macro_order(macros).len() == taken as int,
            forall|j: int|
                0 <= j < taken as int ==> #[trigger] macro_order(macros)[j]
                    == all[j].name.content@,
            forall|j: int|
                0 <= j < taken as int ==> macro_entries(macros).contains_key(
                    #[trigger] macro_order(macros)[j],
                ),
            forall|j: int|
                0 <= j < taken as int ==> macro_entries(macros)[#[trigger] macro_order(macros)[j]]
                    == all[j],
            forall|j: int, k: int|
                0 <= j < k < taken as int ==> macro_order(macros)[j] != macro_order(macros)[k],
            forall|l: Seq<char>|
                macro_entries(macros).contains_key(l) ==> exists|j: int|
                    0 <= j < taken as int && macro_order(macros)[j] == l,
        decreases rest@.len(),
    {
        let mac = rest.remove(0);
        proof {
            assert(mac == all[taken as int]);
        }
        let key = mac.name.content.clone();
        let already = match macro_map_get(&macros, &key) {
            Some(_) => true,
            None => false,
        };
        if already {
            proof {
                assert(macro_order(macros).contains(key@)) by {
                    let j = choose|j: int|
                        0 <= j < taken as int && macro_order(macros)[j] == key@;
                    assert(macro_order(macros)[j] == key@);
                }
                let j = choose|j: int| 0 <= j < taken as int && macro_order(macros)[j] == key@;
                assert(all[j].name.content@ == all[taken as int].name.content@);
                assert(!names_distinct(all));
            }
            return Err(CompileError::DuplicateMacro { name: key });
        }
        let ghost pre = macros;
        let _ = macro_map_insert(&mut macros, key, mac);
        proof {
            assert(macro_order(macros) == macro_order(pre).push(all[taken as int].name.content@));
            assert forall|j: int| 0 <= j < taken as int implies macro_order(pre)[j]
                != all[taken as int].name.content@ by {
                assert(macro_entries(pre).contains_key(macro_order(pre)[j]));
            }
            assert forall|l: Seq<char>| macro_entries(macros).contains_key(l) implies exists|
                j: int,
            |
                0 <= j < taken as int + 1 && macro_order(macros)[j] == l by {
                if macro_entries(pre).contains_key(l) {
                    let j = choose|j: int| 0 <= j < taken as int && macro_order(pre)[j] == l;
                    assert(macro_order(macros)[j] == l);
                } else {
                    assert(macro_order(macros)[taken as int] == l);
                }
            }
        }
        taken = taken + 1;
        proof {
            assert(rest@ =~= all.subrange(taken as int, all.len() as int));
        }
    }
    proof {
        assert forall|j: int, k: int|
            0 <= j < k < all.len() implies all[j].name.content@ != all[k].name.content@ by {
            assert(macro_order(macros)[j] == all[j].name.content@);
            assert(macro_order(macros)[k] == all[k].name.content@);
        }
    }
    Ok(crate::ast::Program { main, macros })
}

} // verus!
