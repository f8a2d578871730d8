use norma::ast::{
    BuiltInOperation, BuiltInTest, Instruction, InstructionType, Macro, MacroType, Operation,
    OperationType, Parameters, Span, Symbol, Test, TestType,
};
use norma::expander::{build_main, build_program, expand, CompileError};
use norma::interpreter::Interpreter;
use num_bigint::BigUint;

fn sym(s: &str) -> Symbol {
    Symbol { content: String::from(s), span: Span { start: 0, end: 0 } }
}

fn regs(names: &[&str]) -> Vec<String> {
    names.iter().map(|n| String::from(*n)).collect()
}

fn builtin_op(
    label: &str,
    b: BuiltInOperation,
    rs: &[&str],
    constant: Option<u64>,
    next: &str,
) -> Instruction {
    Instruction::new(
        sym(label),
        InstructionType::Operation(Operation {
            oper_type: OperationType::BuiltIn(b),
            next_label: sym(next),
        }),
        Parameters { registers: regs(rs), constant: constant.map(BigUint::from) },
    )
}

fn builtin_test(
    label: &str,
    b: BuiltInTest,
    rs: &[&str],
    constant: Option<u64>,
    next_true: &str,
    next_false: &str,
) -> Instruction {
    Instruction::new(
        sym(label),
        InstructionType::Test(Test {
            test_type: TestType::BuiltIn(b),
            next_true_label: sym(next_true),
            next_false_label: sym(next_false),
        }),
        Parameters { registers: regs(rs), constant: constant.map(BigUint::from) },
    )
}

fn call_op(label: &str, name: &str, rs: &[&str], next: &str) -> Instruction {
    Instruction::new(
        sym(label),
        InstructionType::Operation(Operation {
            oper_type: OperationType::Macro(sym(name)),
            next_label: sym(next),
        }),
        Parameters { registers: regs(rs), constant: None },
    )
}

fn call_test(label: &str, name: &str, rs: &[&str], next_true: &str, next_false: &str) -> Instruction {
    Instruction::new(
        sym(label),
        InstructionType::Test(Test {
            test_type: TestType::Macro(sym(name)),
            next_true_label: sym(next_true),
            next_false_label: sym(next_false),
        }),
        Parameters { registers: regs(rs), constant: None },
    )
}

fn make_macro(name: &str, kind: MacroType, params: &[&str], body: Vec<Instruction>) -> Macro {
    let main = build_main(body).expect("macro body labels");
    Macro {
        macro_type: kind,
        name: sym(name),
        parameters: params.iter().map(|p| sym(*p)).collect(),
        instr: main.code,
    }
}

#[test]
fn expands_builtins_only() {
    // Y = X, written in the unexpanded form with built-ins only.
    let main = build_main(vec![
        builtin_test("1", BuiltInTest::Zero, &["X"], None, "0", "2"),
        builtin_op("2", BuiltInOperation::Dec, &["X"], None, "3"),
        builtin_op("3", BuiltInOperation::Inc, &["Y"], None, "1"),
    ])
    .expect("main");
    let program = build_program(main, vec![]).expect("program");
    let flat = expand(&program).expect("expansion");
    assert_eq!(flat.len(), 3);

    let mut interpreter = Interpreter::new(flat);
    interpreter.input(BigUint::from(7u8));
    interpreter.run_all();
    assert_eq!(interpreter.output(), BigUint::from(7u8));
}

#[test]
fn expands_operation_macro() {
    // inc2 (R) adds two; called twice on Y.
    let inc2 = make_macro(
        "inc2",
        MacroType::Operation,
        &["R"],
        vec![
            builtin_op("m1", BuiltInOperation::Inc, &["R"], None, "m2"),
            builtin_op("m2", BuiltInOperation::Inc, &["R"], None, "0"),
        ],
    );
    let main = build_main(vec![
        call_op("1", "inc2", &["Y"], "2"),
        call_op("2", "inc2", &["Y"], "0"),
    ])
    .expect("main");
    let program = build_program(main, vec![inc2]).expect("program");
    let flat = expand(&program).expect("expansion");
    // two call sites of a macro with two internal labels: four distinct labels
    assert_eq!(flat.len(), 4);

    let mut interpreter = Interpreter::new(flat);
    interpreter.run_all();
    assert_eq!(interpreter.output(), BigUint::from(4u8));
}

#[test]
fn expands_test_macro() {
    // isZero (R) exits through "true"/"false"; picks 1 or 5 for Y.
    let is_zero = make_macro(
        "isZero",
        MacroType::Test,
        &["R"],
        vec![builtin_test("m1", BuiltInTest::Zero, &["R"], None, "true", "false")],
    );
    let main = build_main(vec![
        call_test("1", "isZero", &["X"], "2", "3"),
        builtin_op("2", BuiltInOperation::Inc, &["Y"], None, "0"),
        builtin_op("3", BuiltInOperation::Load, &["Y"], Some(5), "0"),
    ])
    .expect("main");
    let program = build_program(main, vec![is_zero]).expect("program");
    let flat = expand(&program).expect("expansion");

    let mut interpreter = Interpreter::new(flat);
    interpreter.run_all();
    assert_eq!(interpreter.output(), BigUint::from(1u8));

    interpreter.reset();
    interpreter.input(BigUint::from(3u8));
    interpreter.run_all();
    assert_eq!(interpreter.output(), BigUint::from(5u8));
}

#[test]
fn expands_nested_macros() {
    // inc1 (R) adds one; inc3 (S) calls inc1 three times on S.
    let inc1 = make_macro(
        "inc1",
        MacroType::Operation,
        &["R"],
        vec![builtin_op("b1", BuiltInOperation::Inc, &["R"], None, "0")],
    );
    let inc3 = make_macro(
        "inc3",
        MacroType::Operation,
        &["S"],
        vec![
            call_op("n1", "inc1", &["S"], "n2"),
            call_op("n2", "inc1", &["S"], "n3"),
            call_op("n3", "inc1", &["S"], "0"),
        ],
    );
    let main = build_main(vec![call_op("1", "inc3", &["Y"], "0")]).expect("main");
    let program = build_program(main, vec![inc1, inc3]).expect("program");
    let flat = expand(&program).expect("expansion");
    assert_eq!(flat.len(), 3);

    let mut interpreter = Interpreter::new(flat);
    interpreter.run_all();
    assert_eq!(interpreter.output(), BigUint::from(3u8));
}

#[test]
fn fresh_labels_are_distinct() {
    // three call sites of a parameterless macro with two internal labels
    // yield six pairwise-distinct labels and no macro references
    let bump = make_macro(
        "bump",
        MacroType::Operation,
        &[],
        vec![
            builtin_op("p1", BuiltInOperation::Inc, &["Y"], None, "p2"),
            builtin_op("p2", BuiltInOperation::Inc, &["Y"], None, "0"),
        ],
    );
    let main = build_main(vec![
        call_op("1", "bump", &[], "2"),
        call_op("2", "bump", &[], "3"),
        call_op("3", "bump", &[], "0"),
    ])
    .expect("main");
    let program = build_program(main, vec![bump]).expect("program");
    let flat = expand(&program).expect("expansion");
    // the flat map is duplicate-free, so its length counts distinct labels
    assert_eq!(flat.len(), 6);

    let mut labels: Vec<String> = Vec::new();
    let mut i: usize = 0;
    while let Some((label, _)) = flat.get_index(i) {
        assert!(!labels.contains(label));
        labels.push(label.clone());
        i += 1;
    }
    assert_eq!(labels.len(), 6);

    let mut interpreter = Interpreter::new(flat);
    interpreter.run_all();
    assert_eq!(interpreter.output(), BigUint::from(6u8));
}

#[test]
fn unknown_macro_is_reported() {
    let main = build_main(vec![call_op("1", "nothere", &[], "0")]).expect("main");
    let program = build_program(main, vec![]).expect("program");
    assert!(matches!(
        expand(&program),
        Err(CompileError::UnknownMacro { .. })
    ));
}

#[test]
fn macro_kind_mismatch_is_reported() {
    let tester = make_macro(
        "tester",
        MacroType::Test,
        &[],
        vec![builtin_test("m1", BuiltInTest::Zero, &["X"], None, "true", "false")],
    );
    // a test macro called in operation position
    let main = build_main(vec![call_op("1", "tester", &[], "0")]).expect("main");
    let program = build_program(main, vec![tester]).expect("program");
    assert!(matches!(
        expand(&program),
        Err(CompileError::MacroKindMismatch { .. })
    ));
}

#[test]
fn macro_arity_mismatch_is_reported() {
    let inc1 = make_macro(
        "inc1",
        MacroType::Operation,
        &["R"],
        vec![builtin_op("b1", BuiltInOperation::Inc, &["R"], None, "0")],
    );
    let main = build_main(vec![call_op("1", "inc1", &["A", "B"], "0")]).expect("main");
    let program = build_program(main, vec![inc1]).expect("program");
    assert!(matches!(
        expand(&program),
        Err(CompileError::ArityMismatch { expected: 1, found: 2, .. })
    ));
}

#[test]
fn builtin_arity_mismatch_is_reported() {
    let main = build_main(vec![builtin_op("1", BuiltInOperation::Inc, &["X", "Y"], None, "0")])
        .expect("main");
    let program = build_program(main, vec![]).expect("program");
    assert!(matches!(
        expand(&program),
        Err(CompileError::ArityMismatch { expected: 1, found: 2, .. })
    ));
}

#[test]
fn direct_recursion_is_reported() {
    let looper = make_macro(
        "looper",
        MacroType::Operation,
        &[],
        vec![call_op("m1", "looper", &[], "0")],
    );
    let main = build_main(vec![call_op("1", "looper", &[], "0")]).expect("main");
    let program = build_program(main, vec![looper]).expect("program");
    assert!(matches!(
        expand(&program),
        Err(CompileError::RecursiveMacro { .. })
    ));
}

#[test]
fn mutual_recursion_is_reported() {
    let ping = make_macro(
        "ping",
        MacroType::Operation,
        &[],
        vec![call_op("m1", "pong", &[], "0")],
    );
    let pong = make_macro(
        "pong",
        MacroType::Operation,
        &[],
        vec![call_op("m1", "ping", &[], "0")],
    );
    let main = build_main(vec![call_op("1", "ping", &[], "0")]).expect("main");
    let program = build_program(main, vec![ping, pong]).expect("program");
    assert!(matches!(
        expand(&program),
        Err(CompileError::RecursiveMacro { .. })
    ));
}

#[test]
fn duplicate_label_is_reported() {
    let r = build_main(vec![
        builtin_op("1", BuiltInOperation::Inc, &["Y"], None, "1"),
        builtin_op("1", BuiltInOperation::Dec, &["Y"], None, "0"),
    ]);
    assert!(matches!(r, Err(CompileError::DuplicateLabel { .. })));
}

#[test]
fn reserved_label_is_reported() {
    let r = build_main(vec![builtin_op("0", BuiltInOperation::Inc, &["Y"], None, "0")]);
    assert!(matches!(r, Err(CompileError::ReservedLabel { .. })));
}

#[test]
fn duplicate_macro_is_reported() {
    let first = make_macro(
        "twin",
        MacroType::Operation,
        &[],
        vec![builtin_op("m1", BuiltInOperation::Inc, &["Y"], None, "0")],
    );
    let second = make_macro(
        "twin",
        MacroType::Operation,
        &[],
        vec![builtin_op("m1", BuiltInOperation::Dec, &["Y"], None, "0")],
    );
    let main = build_main(vec![call_op("1", "twin", &[], "0")]).expect("main");
    let r = build_program(main, vec![first, second]);
    assert!(matches!(r, Err(CompileError::DuplicateMacro { .. })));
}

#[test]
fn parameter_capture_is_avoided() {
    // sub2 (A, B) computes A - B into A, with C as scratch; the call
    // swaps the arguments, so the formals must not capture the actuals.
    let sub2 = make_macro(
        "sub2",
        MacroType::Operation,
        &["A", "B"],
        vec![builtin_op("m1", BuiltInOperation::Sub, &["A", "B", "C"], None, "0")],
    );
    let main = build_main(vec![
        builtin_op("1", BuiltInOperation::Load, &["A"], Some(3), "2"),
        builtin_op("2", BuiltInOperation::Load, &["B"], Some(10), "3"),
        call_op("3", "sub2", &["B", "A"], "0"),
    ])
    .expect("main");
    let program = build_program(main, vec![sub2]).expect("program");
    let flat = expand(&program).expect("expansion");

    let mut interpreter = Interpreter::new(flat);
    interpreter.run_all();
    // B := B - A = 10 - 3; A stays 3
    let machine = interpreter.machine();
    let registers = machine.registers();
    let a = registers.iter().find(|(name, _, _)| name == "A").expect("A").2.clone();
    let b = registers.iter().find(|(name, _, _)| name == "B").expect("B").2.clone();
    assert_eq!(a, BigUint::from(3u8));
    assert_eq!(b, BigUint::from(7u8));
}
