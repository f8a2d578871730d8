//! Trusted boundary around `num_bigint::BigUint`, the arbitrary-precision
//! natural numbers stored in registers and instruction constants.
//!
//! The abstract value of a `BigUint` is the mathematical natural `nat_of`;
//! every operation the engine needs is wrapped here with a contract over
//! that abstraction.

use vstd::prelude::*;

verus! {

/// The arbitrary-precision natural number type of num-bigint, kept opaque.
#[verifier::external_type_specification]
#[verifier::external_body]
pub struct ExBigUint(num_bigint::BigUint);

/// The natural number a `BigUint` holds.
pub uninterp spec fn nat_of(b: num_bigint::BigUint) -> nat;

/// The decimal rendering of a natural number, as `BigUint`'s `Display`
/// implementation produces it.
pub uninterp spec fn decimal_of(n: nat) -> Seq<char>;

/// The three-way ordering of two naturals.
pub open spec fn ord_of(a: nat, b: nat) -> core::cmp::Ordering {
    if a < b {
        core::cmp::Ordering::Less
    } else if a == b {
        core::cmp::Ordering::Equal
    } else {
        core::cmp::Ordering::Greater
    }
}

/// Relies on `BigUint: From<u64>`: the result holds exactly `n`.
#[verifier::external_body]
pub(crate) fn big_from_u64(n: u64) -> (r: num_bigint::BigUint)
    ensures
        nat_of(r) == n as nat,
{
    num_bigint::BigUint::from(n)
}

/// Relies on `BigUint: Clone`: the clone holds the same value.
#[verifier::external_body]
pub(crate) fn big_clone(b: &num_bigint::BigUint) -> (r: num_bigint::BigUint)
    ensures
        nat_of(r) == nat_of(*b),
{
    b.clone()
}

/// Relies on `num_traits::Zero::is_zero`: true exactly when the value is zero.
#[verifier::external_body]
pub(crate) fn big_is_zero(b: &num_bigint::BigUint) -> (r: bool)
    ensures
        r == (nat_of(*b) == 0),
{
    num_traits::Zero::is_zero(b)
}

/// Relies on `num_traits::Zero::set_zero`: afterwards the value is zero.
#[verifier::external_body]
pub(crate) fn big_set_zero(b: &mut num_bigint::BigUint)
    ensures
        nat_of(*final(b)) == 0,
{
    num_traits::Zero::set_zero(b);
}

/// Relies on `BigUint: AddAssign<u32>`: adds exactly the scalar.
#[verifier::external_body]
pub(crate) fn big_add_one(b: &mut num_bigint::BigUint)
    ensures
        nat_of(*final(b)) == nat_of(*old(b)) + 1,
{
    *b += 1u32;
}

/// Relies on `BigUint: SubAssign<u32>`, which panics below zero; the caller
/// keeps the value positive.
#[verifier::external_body]
pub(crate) fn big_sub_one(b: &mut num_bigint::BigUint)
    requires
        nat_of(*old(b)) >= 1,
    ensures
        nat_of(*final(b)) == nat_of(*old(b)) - 1,
{
    *b -= 1u32;
}

/// Relies on `BigUint: AddAssign<&BigUint>`: adds exactly the operand.
#[verifier::external_body]
pub(crate) fn big_add_assign(b: &mut num_bigint::BigUint, c: &num_bigint::BigUint)
    ensures
        nat_of(*final(b)) == nat_of(*old(b)) + nat_of(*c),
{
    *b += c;
}

/// Relies on `BigUint: SubAssign<&BigUint>`, which panics below zero; the
/// caller keeps the operand no greater than the stored value.
#[verifier::external_body]
pub(crate) fn big_sub_assign(b: &mut num_bigint::BigUint, c: &num_bigint::BigUint)
    requires
        nat_of(*c) <= nat_of(*old(b)),
    ensures
        nat_of(*final(b)) == nat_of(*old(b)) - nat_of(*c),
{
    *b -= c;
}

/// Relies on `BigUint: Ord::cmp`: returns the ordering of the two values.
#[verifier::external_body]
pub(crate) fn big_cmp(a: &num_bigint::BigUint, b: &num_bigint::BigUint) -> (r: core::cmp::Ordering)
    ensures
        r == ord_of(nat_of(*a), nat_of(*b)),
{
    a.cmp(b)
}

/// Relies on `BigUint`'s `Display` through `ToString`: renders the decimal
/// digits of the value, which depend on the value alone; the digits
/// determine the value, so a different value renders differently.
#[verifier::external_body]
pub(crate) fn big_to_decimal(b: &num_bigint::BigUint) -> (r: String)
    ensures
        r@ == decimal_of(nat_of(*b)),
        forall|m: nat| m != nat_of(*b) ==> decimal_of(m) != r@,
{
    b.to_string()
}

} // verus!
