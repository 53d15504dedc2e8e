//! Number types with an additive and a multiplicative identity.

use vstd::prelude::*;

verus! {

/// A number type that names its zero and its one.
pub trait Scalar: Copy {
    /// The additive identity.
    spec fn zero_spec() -> Self;

    /// The multiplicative identity.
    spec fn one_spec() -> Self;

    /// The additive identity.
    fn zero() -> (r: Self)
        ensures
            r == Self::zero_spec(),
    ;

    /// The multiplicative identity.
    fn one() -> (r: Self)
        ensures
            r == Self::one_spec(),
    ;

    /// Whether `self` is the additive identity.
    fn is_zero(&self) -> (r: bool)
        ensures
            r == (*self == Self::zero_spec()),
    ;
}

/// `num_traits::Zero::zero` for `i8`, which is 0.
#[verifier::external_body]
fn zero_i8() -> (r: i8)
    ensures
        r == 0,
{
    <i8 as num_traits::Zero>::zero()
}

/// `num_traits::One::one` for `i8`, which is 1.
#[verifier::external_body]
fn one_i8() -> (r: i8)
    ensures
        r == 1,
{
    <i8 as num_traits::One>::one()
}

/// `num_traits::Zero::is_zero` for `i8`, which compares with 0.
#[verifier::external_body]
fn is_zero_i8(v: &i8) -> (r: bool)
    ensures
        r == (*v == 0),
{
    num_traits::Zero::is_zero(v)
}

/// `num_traits::Zero::zero` for `i16`, which is 0.
#[verifier::external_body]
fn zero_i16() -> (r: i16)
    ensures
        r == 0,
{
    <i16 as num_traits::Zero>::zero()
}

/// `num_traits::One::one` for `i16`, which is 1.
#[verifier::external_body]
fn one_i16() -> (r: i16)
    ensures
        r == 1,
{
    <i16 as num_traits::One>::one()
}

/// `num_traits::Zero::is_zero` for `i16`, which compares with 0.
#[verifier::external_body]
fn is_zero_i16(v: &i16) -> (r: bool)
    ensures
        r == (*v == 0),
{
    num_traits::Zero::is_zero(v)
}

/// `num_traits::Zero::zero` for `i32`, which is 0.
#[verifier::external_body]
fn zero_i32() -> (r: i32)
    ensures
        r == 0,
{
    <i32 as num_traits::Zero>::zero()
}

/// `num_traits::One::one` for `i32`, which is 1.
#[verifier::external_body]
fn one_i32() -> (r: i32)
    ensures
        r == 1,
{
    <i32 as num_traits::One>::one()
}

/// `num_traits::Zero::is_zero` for `i32`, which compares with 0.
#[verifier::external_body]
fn is_zero_i32(v: &i32) -> (r: bool)
    ensures
        r == (*v == 0),
{
    num_traits::Zero::is_zero(v)
}

/// `num_traits::Zero::zero` for `i64`, which is 0.
#[verifier::external_body]
fn zero_i64() -> (r: i64)
    ensures
        r == 0,
{
    <i64 as num_traits::Zero>::zero()
}

/// `num_traits::One::one` for `i64`, which is 1.
#[verifier::external_body]
fn one_i64() -> (r: i64)
    ensures
        r == 1,
{
    <i64 as num_traits::One>::one()
}

/// `num_traits::Zero::is_zero` for `i64`, which compares with 0.
#[verifier::external_body]
fn is_zero_i64(v: &i64) -> (r: bool)
    ensures
        r == (*v == 0),
{
    num_traits::Zero::is_zero(v)
}

/// `num_traits::Zero::zero` for `u8`, which is 0.
#[verifier::external_body]
fn zero_u8() -> (r: u8)
    ensures
        r == 0,
{
    <u8 as num_traits::Zero>::zero()
}

/// `num_traits::One::one` for `u8`, which is 1.
#[verifier::external_body]
fn one_u8() -> (r: u8)
    ensures
        r == 1,
{
    <u8 as num_traits::One>::one()
}

/// `num_traits::Zero::is_zero` for `u8`, which compares with 0.
#[verifier::external_body]
fn is_zero_u8(v: &u8) -> (r: bool)
    ensures
        r == (*v == 0),
{
    num_traits::Zero::is_zero(v)
}

/// `num_traits::Zero::zero` for `u16`, which is 0.
#[verifier::external_body]
fn zero_u16() -> (r: u16)
    ensures
        r == 0,
{
    <u16 as num_traits::Zero>::zero()
}

/// `num_traits::One::one` for `u16`, which is 1.
#[verifier::external_body]
fn one_u16() -> (r: u16)
    ensures
        r == 1,
{
    <u16 as num_traits::One>::one()
}

/// `num_traits::Zero::is_zero` for `u16`, which compares with 0.
#[verifier::external_body]
fn is_zero_u16(v: &u16) -> (r: bool)
    ensures
        r == (*v == 0),
{
    num_traits::Zero::is_zero(v)
}

/// `num_traits::Zero::zero` for `u32`, which is 0.
#[verifier::external_body]
fn zero_u32() -> (r: u32)
    ensures
        r == 0,
{
    <u32 as num_traits::Zero>::zero()
}

/// `num_traits::One::one` for `u32`, which is 1.
#[verifier::external_body]
fn one_u32() -> (r: u32)
    ensures
        r == 1,
{
    <u32 as num_traits::One>::one()
}

/// `num_traits::Zero::is_zero` for `u32`, which compares with 0.
#[verifier::external_body]
fn is_zero_u32(v: &u32) -> (r: bool)
    ensures
        r == (*v == 0),
{
    num_traits::Zero::is_zero(v)
}

/// `num_traits::Zero::zero` for `u64`, which is 0.
#[verifier::external_body]
fn zero_u64() -> (r: u64)
    ensures
        r == 0,
{
    <u64 as num_traits::Zero>::zero()
}

/// `num_traits::One::one` for `u64`, which is 1.
#[verifier::external_body]
fn one_u64() -> (r: u64)
    ensures
        r == 1,
{
    <u64 as num_traits::One>::one()
}

/// `num_traits::Zero::is_zero` for `u64`, which compares with 0.
#[verifier::external_body]
fn is_zero_u64(v: &u64) -> (r: bool)
    ensures
        r == (*v == 0),
{
    num_traits::Zero::is_zero(v)
}

impl Scalar for i8 {
    open spec fn zero_spec() -> i8 {
        0
    }

    open spec fn one_spec() -> i8 {
        1
    }

    fn zero() -> (r: i8) {
        zero_i8()
    }

    fn one() -> (r: i8) {
        one_i8()
    }

    fn is_zero(&self) -> (r: bool) {
        is_zero_i8(self)
    }
}

impl Scalar for i16 {
    open spec fn zero_spec() -> i16 {
        0
    }

    open spec fn one_spec() -> i16 {
        1
    }

    fn zero() -> (r: i16) {
        zero_i16()
    }

    fn one() -> (r: i16) {
        one_i16()
    }

    fn is_zero(&self) -> (r: bool) {
        is_zero_i16(self)
    }
}

impl Scalar for i32 {
    open spec fn zero_spec() -> i32 {
        0
    }

    open spec fn one_spec() -> i32 {
        1
    }

    fn zero() -> (r: i32) {
        zero_i32()
    }

    fn one() -> (r: i32) {
        one_i32()
    }

    fn is_zero(&self) -> (r: bool) {
        is_zero_i32(self)
    }
}

impl Scalar for i64 {
    open spec fn zero_spec() -> i64 {
        0
    }

    open spec fn one_spec() -> i64 {
        1
    }

    fn zero() -> (r: i64) {
        zero_i64()
    }

    fn one() -> (r: i64) {
        one_i64()
    }

    fn is_zero(&self) -> (r: bool) {
        is_zero_i64(self)
    }
}

impl Scalar for u8 {
    open spec fn zero_spec() -> u8 {
        0
    }

    open spec fn one_spec() -> u8 {
        1
    }

    fn zero() -> (r: u8) {
        zero_u8()
    }

    fn one() -> (r: u8) {
        one_u8()
    }

    fn is_zero(&self) -> (r: bool) {
        is_zero_u8(self)
    }
}

impl Scalar for u16 {
    open spec fn zero_spec() -> u16 {
        0
    }

    open spec fn one_spec() -> u16 {
        1
    }

    fn zero() -> (r: u16) {
        zero_u16()
    }

    fn one() -> (r: u16) {
        one_u16()
    }

    fn is_zero(&self) -> (r: bool) {
        is_zero_u16(self)
    }
}

impl Scalar for u32 {
    open spec fn zero_spec() -> u32 {
        0
    }

    open spec fn one_spec() -> u32 {
        1
    }

    fn zero() -> (r: u32) {
        zero_u32()
    }

    fn one() -> (r: u32) {
        one_u32()
    }

    fn is_zero(&self) -> (r: bool) {
        is_zero_u32(self)
    }
}

impl Scalar for u64 {
    open spec fn zero_spec() -> u64 {
        0
    }

    open spec fn one_spec() -> u64 {
        1
    }

    fn zero() -> (r: u64) {
        zero_u64()
    }

    fn one() -> (r: u64) {
        one_u64()
    }

    fn is_zero(&self) -> (r: bool) {
        is_zero_u64(self)
    }
}

} // verus!
