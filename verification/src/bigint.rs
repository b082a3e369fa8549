//! Arbitrary-precision signed integers, backed by `num_bigint::BigInt`.
//!
//! The mathematical value of an `Integer` is its view (an `int`); every
//! arithmetic operation is specified exactly against that view. The backing
//! crate is reached only through the trusted wrappers in this module.

use vstd::prelude::*;
use core::str::FromStr;
use num_traits::Signed;
use num_traits::ToPrimitive;
use num_traits::Zero;

verus! {

use vstd::arithmetic::power::pow;

/// The mathematical value held by a `num_bigint::BigInt`.
pub uninterp spec fn big_int_value(b: num_bigint::BigInt) -> int;

#[verifier::external_type_specification]
#[verifier::external_body]
pub struct ExBigInt(num_bigint::BigInt);

/// An arbitrary-precision signed integer.
#[derive(Debug)]
pub struct Integer {
    pub(crate) inner: num_bigint::BigInt,
}

impl View for Integer {
    type V = int;

    closed spec fn view(&self) -> int {
        big_int_value(self.inner)
    }
}

/// Truncating division: the quotient of `a` by `b` rounded toward zero.
pub open spec fn tdiv(a: int, b: int) -> int {
    if (a >= 0) == (b >= 0) {
        abs_of(a) / abs_of(b)
    } else {
        -(abs_of(a) / abs_of(b))
    }
}

/// The absolute value of an integer.
pub open spec fn abs_of(a: int) -> int {
    if a < 0 {
        -a
    } else {
        a
    }
}

/// Whether a character is an ASCII decimal digit.
pub open spec fn is_digit(c: char) -> bool {
    48 <= c as u32 && c as u32 <= 57
}

/// The character for one decimal digit value.
pub open spec fn digit_char(d: int) -> char {
    ((48 + d) as u8) as char
}

/// The decimal digits of a non-negative integer, most significant first.
pub open spec fn dec_digits(n: nat) -> Seq<char>
    decreases n,
{
    if n < 10 {
        seq![digit_char(n as int)]
    } else {
        dec_digits(n / 10).push(digit_char((n % 10) as int))
    }
}

/// The base-10 rendering of an integer: a minus sign for negatives, then
/// the digits of its magnitude without leading zeros.
pub open spec fn spec_decimal(v: int) -> Seq<char> {
    if v < 0 {
        seq!['-'] + dec_digits((-v) as nat)
    } else {
        dec_digits(v as nat)
    }
}

/// The value of a sequence of decimal digits, most significant first.
pub open spec fn dec_val(s: Seq<char>) -> int
    decreases s.len(),
{
    if s.len() == 0 {
        0
    } else {
        dec_val(s.drop_last()) * 10 + (s.last() as u32 - 48)
    }
}

impl Integer {
    /// The integer with the given unsigned 64-bit value.
    pub fn from_u64(x: u64) -> (r: Integer)
        ensures
            r@ == x as int,
    {
        big_from_u64(x)
    }

    /// The base-10 rendering of this integer.
    pub fn to_decimal(&self) -> (r: String)
        ensures
            r@ == spec_decimal(self@),
    {
        big_to_decimal(self)
    }

    /// A copy of this integer.
    pub fn dup(&self) -> (r: Integer)
        ensures
            r@ == self@,
    {
        big_clone(self)
    }
}

impl PartialEq for Integer {
    fn eq(&self, other: &Integer) -> (r: bool)
        ensures
            r == (self@ == other@),
    {
        big_eq(self, other)
    }
}

impl vstd::std_specs::cmp::PartialEqSpecImpl for Integer {
    open spec fn obeys_eq_spec() -> bool {
        true
    }

    open spec fn eq_spec(&self, other: &Integer) -> bool {
        self@ == other@
    }
}

/// Relies on `num_bigint::BigInt: From<u64>`: conversion is value-preserving.
#[verifier::external_body]
pub(crate) fn big_from_u64(x: u64) -> (r: Integer)
    ensures
        r@ == x as int,
{
    Integer { inner: num_bigint::BigInt::from(x) }
}

/// Relies on `num_bigint::BigInt as FromStr`: a string of decimal digits
/// parses to the base-10 value of those digits.
#[verifier::external_body]
pub(crate) fn big_from_decimal(s: &str) -> (r: Integer)
    requires
        s@.len() > 0,
        forall|i: int| 0 <= i < s@.len() ==> is_digit(s@[i]),
    ensures
        r@ == dec_val(s@),
{
    Integer { inner: num_bigint::BigInt::from_str(s).unwrap() }
}

/// Relies on `Add for &num_bigint::BigInt`: exact integer addition.
#[verifier::external_body]
pub(crate) fn big_add(a: &Integer, b: &Integer) -> (r: Integer)
    ensures
        r@ == a@ + b@,
{
    Integer { inner: &a.inner + &b.inner }
}

/// Relies on `Sub for &num_bigint::BigInt`: exact integer subtraction.
#[verifier::external_body]
pub(crate) fn big_sub(a: &Integer, b: &Integer) -> (r: Integer)
    ensures
        r@ == a@ - b@,
{
    Integer { inner: &a.inner - &b.inner }
}

/// Relies on `Mul for &num_bigint::BigInt`: exact integer multiplication.
#[verifier::external_body]
pub(crate) fn big_mul(a: &Integer, b: &Integer) -> (r: Integer)
    ensures
        r@ == a@ * b@,
{
    Integer { inner: &a.inner * &b.inner }
}

/// Relies on `Div for &num_bigint::BigInt`: integer division truncating
/// toward zero, as for Rust's primitive integers.
#[verifier::external_body]
pub(crate) fn big_div_trunc(a: &Integer, b: &Integer) -> (r: Integer)
    requires
        b@ != 0,
    ensures
        r@ == tdiv(a@, b@),
{
    Integer { inner: &a.inner / &b.inner }
}

/// Relies on `Neg for &num_bigint::BigInt`: exact negation.
#[verifier::external_body]
pub(crate) fn big_neg(a: &Integer) -> (r: Integer)
    ensures
        r@ == -a@,
{
    Integer { inner: -&a.inner }
}

/// Relies on `num_bigint::BigInt::pow`: exact exponentiation by an
/// unsigned 32-bit exponent, with anything to the zeroth power being one.
#[verifier::external_body]
pub(crate) fn big_pow(a: &Integer, e: u32) -> (r: Integer)
    ensures
        r@ == pow(a@, e as nat),
{
    Integer { inner: a.inner.pow(e) }
}

/// Relies on `num_traits::ToPrimitive::to_u32` for `num_bigint::BigInt`:
/// `Some` exactly when the value fits in a `u32`.
#[verifier::external_body]
pub(crate) fn big_to_u32(a: &Integer) -> (r: Option<u32>)
    ensures
        r is Some <==> 0 <= a@ <= u32::MAX,
        r matches Some(x) ==> x as int == a@,
{
    a.inner.to_u32()
}

/// Relies on `num_traits::Zero::is_zero` for `num_bigint::BigInt`.
#[verifier::external_body]
pub(crate) fn big_is_zero(a: &Integer) -> (r: bool)
    ensures
        r == (a@ == 0),
{
    a.inner.is_zero()
}

/// Relies on `num_traits::Signed::is_negative` for `num_bigint::BigInt`.
#[verifier::external_body]
pub(crate) fn big_is_neg(a: &Integer) -> (r: bool)
    ensures
        r == (a@ < 0),
{
    a.inner.is_negative()
}

/// Relies on `Display for num_bigint::BigInt`: the base-10 digits of the
/// magnitude, preceded by a minus sign for negative values.
#[verifier::external_body]
pub(crate) fn big_to_decimal(a: &Integer) -> (r: String)
    ensures
        r@ == spec_decimal(a@),
{
    format!("{}", a.inner)
}

/// Relies on `PartialEq for num_bigint::BigInt`: equality of values.
#[verifier::external_body]
pub(crate) fn big_eq(a: &Integer, b: &Integer) -> (r: bool)
    ensures
        r == (a@ == b@),
{
    a.inner == b.inner
}

/// Relies on `Clone for num_bigint::BigInt`: the copy has the same value.
#[verifier::external_body]
pub(crate) fn big_clone(a: &Integer) -> (r: Integer)
    ensures
        r@ == a@,
        big_int_value(r.inner) == big_int_value(a.inner),
{
    Integer { inner: a.inner.clone() }
}

} // verus!
