use norma::machine::{Machine, RegisterId};
use num_bigint::BigUint;
use num_traits::identities::{One, Zero};
use std::cmp::Ordering;

fn a_id() -> RegisterId {
    RegisterId { index: 2 }
}

fn b_id() -> RegisterId {
    RegisterId { index: 3 }
}

fn make_machine() -> Machine {
    let mut machine = Machine::new(BigUint::from(4u8));
    assert_eq!(machine.create_register("A", BigUint::zero()), a_id());
    assert_eq!(machine.create_register("B", BigUint::from(13u8)), b_id());
    machine
}

#[test]
fn test_insert() {
    let mut machine = Machine::new(BigUint::from(4u8));
    assert_eq!(machine.value(RegisterId::x()), BigUint::from(4u8));

    let a = machine.create_register("A", BigUint::zero());
    assert_eq!(a, a_id());
    assert_eq!(machine.value(a), BigUint::zero());
    assert_eq!(machine.value(RegisterId::x()), BigUint::from(4u8));

    let b = machine.create_register("B", BigUint::from(13u8));
    assert_eq!(machine.value(b), BigUint::from(13u8));
    assert_eq!(machine.value(a), BigUint::zero());
    assert_eq!(machine.value(RegisterId::x()), BigUint::from(4u8));
}

#[test]
fn registers() {
    let machine = make_machine();
    let collected = machine.registers();

    assert_eq!(
        collected,
        vec![
            (String::from("X"), RegisterId::x(), BigUint::from(4u8)),
            (String::from("Y"), RegisterId::y(), BigUint::zero()),
            (String::from("A"), a_id(), BigUint::zero()),
            (String::from("B"), b_id(), BigUint::from(13u8)),
        ],
    );
}

#[test]
#[should_panic]
fn invalid_get() {
    let machine = make_machine();
    machine.value(RegisterId { index: 9 });
}

#[test]
fn inc() {
    let mut machine = make_machine();
    machine.inc(RegisterId::x());
    assert_eq!(machine.value(RegisterId::x()), BigUint::from(5u8));
    assert_eq!(machine.value(a_id()), BigUint::zero());
    assert_eq!(machine.value(b_id()), BigUint::from(13u8));
    assert_eq!(machine.value(RegisterId::y()), BigUint::zero());

    machine.inc(b_id());
    assert_eq!(machine.value(RegisterId::x()), BigUint::from(5u8));
    assert_eq!(machine.value(a_id()), BigUint::zero());
    assert_eq!(machine.value(b_id()), BigUint::from(14u8));
    assert_eq!(machine.value(RegisterId::y()), BigUint::zero());

    machine.inc(a_id());
    assert_eq!(machine.value(RegisterId::x()), BigUint::from(5u8));
    assert_eq!(machine.value(a_id()), BigUint::one());
    assert_eq!(machine.value(b_id()), BigUint::from(14u8));
    assert_eq!(machine.value(RegisterId::y()), BigUint::zero());
}

#[test]
fn dec() {
    let mut machine = make_machine();
    machine.dec(RegisterId::x());
    assert_eq!(machine.value(RegisterId::x()), BigUint::from(3u8));
    assert_eq!(machine.value(a_id()), BigUint::zero());
    assert_eq!(machine.value(b_id()), BigUint::from(13u8));
    assert_eq!(machine.value(RegisterId::y()), BigUint::zero());

    machine.dec(b_id());
    assert_eq!(machine.value(RegisterId::x()), BigUint::from(3u8));
    assert_eq!(machine.value(a_id()), BigUint::zero());
    assert_eq!(machine.value(b_id()), BigUint::from(12u8));
    assert_eq!(machine.value(RegisterId::y()), BigUint::zero());

    machine.dec(a_id());
    assert_eq!(machine.value(RegisterId::x()), BigUint::from(3u8));
    assert_eq!(machine.value(a_id()), BigUint::zero());
    assert_eq!(machine.value(b_id()), BigUint::from(12u8));
    assert_eq!(machine.value(RegisterId::y()), BigUint::zero());
}

#[test]
fn is_zero() {
    let mut machine = make_machine();
    assert!(!machine.is_zero(RegisterId::x()));
    assert!(machine.is_zero(a_id()));
    assert!(!machine.is_zero(b_id()));
    assert!(machine.is_zero(RegisterId::y()));

    machine.inc(a_id());
    assert!(!machine.is_zero(RegisterId::x()));
    assert!(!machine.is_zero(a_id()));
    assert!(!machine.is_zero(b_id()));
    assert!(machine.is_zero(RegisterId::y()));

    machine.inc(b_id());
    assert!(!machine.is_zero(RegisterId::x()));
    assert!(!machine.is_zero(a_id()));
    assert!(!machine.is_zero(b_id()));
    assert!(machine.is_zero(RegisterId::y()));

    machine.dec(RegisterId::y());
    assert!(!machine.is_zero(RegisterId::x()));
    assert!(!machine.is_zero(a_id()));
    assert!(!machine.is_zero(b_id()));
    assert!(machine.is_zero(RegisterId::y()));

    for _ in 0..10 {
        machine.dec(RegisterId::x());
    }
    assert!(machine.is_zero(RegisterId::x()));
    assert!(!machine.is_zero(a_id()));
    assert!(!machine.is_zero(b_id()));
    assert!(machine.is_zero(RegisterId::y()));
}

#[test]
fn add_const() {
    let mut machine = make_machine();
    machine.add_const(RegisterId::x(), &BigUint::from(1234567890u64));
    assert_eq!(machine.value(RegisterId::x()), BigUint::from(1234567894u128));
    assert_eq!(machine.value(a_id()), BigUint::zero());
    assert_eq!(machine.value(b_id()), BigUint::from(13u8));
    assert_eq!(machine.value(RegisterId::y()), BigUint::zero());

    machine.add_const(RegisterId::y(), &BigUint::from(2u64));
    assert_eq!(machine.value(RegisterId::x()), BigUint::from(1234567894u128));
    assert_eq!(machine.value(a_id()), BigUint::zero());
    assert_eq!(machine.value(b_id()), BigUint::from(13u8));
    assert_eq!(machine.value(RegisterId::y()), BigUint::from(2u8));

    machine.add_const(a_id(), &BigUint::from(0u64));
    assert_eq!(machine.value(RegisterId::x()), BigUint::from(1234567894u128));
    assert_eq!(machine.value(a_id()), BigUint::zero());
    assert_eq!(machine.value(b_id()), BigUint::from(13u8));
    assert_eq!(machine.value(RegisterId::y()), BigUint::from(2u8));

    machine.add_const(b_id(), &BigUint::from(0u64));
    assert_eq!(machine.value(RegisterId::x()), BigUint::from(1234567894u128));
    assert_eq!(machine.value(a_id()), BigUint::zero());
    assert_eq!(machine.value(b_id()), BigUint::from(13u8));
    assert_eq!(machine.value(RegisterId::y()), BigUint::from(2u8));
}

#[test]
fn sub_const() {
    let mut machine = make_machine();
    machine.sub_const(RegisterId::x(), &BigUint::from(2u64));
    assert_eq!(machine.value(RegisterId::x()), BigUint::from(2u8));
    assert_eq!(machine.value(a_id()), BigUint::zero());
    assert_eq!(machine.value(b_id()), BigUint::from(13u8));
    assert_eq!(machine.value(RegisterId::y()), BigUint::zero());

    machine.sub_const(RegisterId::x(), &BigUint::from(1234567890u64));
    assert_eq!(machine.value(RegisterId::x()), BigUint::zero());
    assert_eq!(machine.value(a_id()), BigUint::zero());
    assert_eq!(machine.value(b_id()), BigUint::from(13u8));
    assert_eq!(machine.value(RegisterId::y()), BigUint::zero());

    machine.sub_const(a_id(), &BigUint::from(1u64));
    assert_eq!(machine.value(RegisterId::x()), BigUint::zero());
    assert_eq!(machine.value(a_id()), BigUint::zero());
    assert_eq!(machine.value(b_id()), BigUint::from(13u8));
    assert_eq!(machine.value(RegisterId::y()), BigUint::zero());

    machine.sub_const(a_id(), &BigUint::from(0u64));
    assert_eq!(machine.value(RegisterId::x()), BigUint::zero());
    assert_eq!(machine.value(a_id()), BigUint::zero());
    assert_eq!(machine.value(b_id()), BigUint::from(13u8));
    assert_eq!(machine.value(RegisterId::y()), BigUint::zero());

    machine.sub_const(b_id(), &BigUint::from(0u64));
    assert_eq!(machine.value(RegisterId::x()), BigUint::zero());
    assert_eq!(machine.value(a_id()), BigUint::zero());
    assert_eq!(machine.value(b_id()), BigUint::from(13u8));
    assert_eq!(machine.value(RegisterId::y()), BigUint::zero());
}

#[test]
fn cmp_const() {
    let machine = make_machine();
    assert_eq!(
        machine.cmp_const(RegisterId::x(), &BigUint::from(4u64)),
        Ordering::Equal
    );
    assert_eq!(machine.cmp_const(a_id(), &BigUint::from(0u64)), Ordering::Equal);
    assert_eq!(machine.cmp_const(b_id(), &BigUint::from(13u64)), Ordering::Equal);
    assert_eq!(
        machine.cmp_const(RegisterId::y(), &BigUint::from(0u64)),
        Ordering::Equal
    );

    assert_eq!(
        machine.cmp_const(RegisterId::x(), &BigUint::from(0u64)),
        Ordering::Greater
    );
    assert_eq!(machine.cmp_const(a_id(), &BigUint::from(1u64)), Ordering::Less);
    assert_eq!(
        machine.cmp_const(b_id(), &BigUint::from(12u64)),
        Ordering::Greater
    );
    assert_eq!(
        machine.cmp_const(RegisterId::y(), &BigUint::from(9u64)),
        Ordering::Less
    );
}

#[test]
fn add_register_clears_scratch() {
    let mut machine = make_machine();
    machine.add(RegisterId::y(), b_id(), a_id());
    assert_eq!(machine.value(RegisterId::y()), BigUint::from(13u8));
    assert_eq!(machine.value(b_id()), BigUint::from(13u8));
    assert_eq!(machine.value(a_id()), BigUint::zero());

    machine.inc(a_id());
    machine.add(RegisterId::y(), RegisterId::x(), a_id());
    assert_eq!(machine.value(RegisterId::y()), BigUint::from(17u8));
    assert_eq!(machine.value(a_id()), BigUint::zero());
}

#[test]
fn sub_register_saturates() {
    let mut machine = make_machine();
    machine.sub(RegisterId::x(), b_id(), a_id());
    assert_eq!(machine.value(RegisterId::x()), BigUint::zero());
    assert_eq!(machine.value(a_id()), BigUint::zero());

    machine.sub(b_id(), RegisterId::y(), a_id());
    assert_eq!(machine.value(b_id()), BigUint::from(13u8));
}

#[test]
fn add_const_twice_is_one_add() {
    let mut once = Machine::new(BigUint::from(7u8));
    let mut twice = Machine::new(BigUint::from(7u8));
    twice.add_const(RegisterId::x(), &BigUint::from(25u64));
    twice.add_const(RegisterId::x(), &BigUint::from(17u64));
    once.add_const(RegisterId::x(), &BigUint::from(42u64));
    assert_eq!(once.value(RegisterId::x()), twice.value(RegisterId::x()));
    assert_eq!(twice.value(RegisterId::x()), BigUint::from(49u8));
}

#[test]
fn clear_all_keeps_names() {
    let mut machine = make_machine();
    machine.clear_all();
    for (_, id, value) in machine.registers() {
        assert_eq!(value, BigUint::zero());
        assert!(id.index < 4);
    }
    assert!(machine.register_exists("A"));
    assert!(machine.register_exists("B"));
    assert_eq!(machine.registers().len(), 4);
}

#[test]
fn export_registers() {
    let machine = make_machine();
    let exported = machine.export_registers();
    assert_eq!(
        exported,
        vec![
            (String::from("X"), String::from("4")),
            (String::from("Y"), String::from("0")),
            (String::from("A"), String::from("0")),
            (String::from("B"), String::from("13")),
        ],
    );
}

#[test]
fn input_output() {
    let mut machine = Machine::new(BigUint::zero());
    machine.input(BigUint::from(21u8));
    assert_eq!(machine.value(RegisterId::x()), BigUint::from(21u8));
    machine.inc(RegisterId::y());
    assert_eq!(machine.output(), BigUint::one());
}

#[test]
fn cmp_registers_clears_scratch() {
    let mut machine = make_machine();
    assert_eq!(machine.cmp(RegisterId::x(), b_id(), a_id()), Ordering::Less);
    assert_eq!(machine.cmp(b_id(), RegisterId::y(), a_id()), Ordering::Greater);
    assert_eq!(machine.cmp(RegisterId::y(), a_id(), b_id()), Ordering::Equal);
    // the auxiliary register is cleared before the comparison
    assert_eq!(machine.value(b_id()), BigUint::zero());
    machine.inc(a_id());
    assert_eq!(machine.cmp(a_id(), RegisterId::y(), a_id()), Ordering::Equal);
    assert_eq!(machine.value(a_id()), BigUint::zero());
}

#[test]
fn default_machine() {
    let machine = Machine::default();
    assert_eq!(machine.value(RegisterId::x()), BigUint::zero());
    assert_eq!(machine.value(RegisterId::y()), BigUint::zero());
    assert_eq!(machine.registers().len(), 2);
}
