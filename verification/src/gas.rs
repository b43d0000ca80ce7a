//! The gas quantity and its checked arithmetic.

use crate::error::GasError;
use vstd::prelude::*;

verus! {

/// An amount of gas, counted in gas units.
#[derive(Clone, Copy, Debug, PartialEq, Eq, Structural, Ord, Hash)]
pub struct Gas(pub u64);

/// Gas units in one tera-gas.
pub const ONE_TGAS: u64 = 1_000_000_000_000;

impl Gas {
    /// `tgas` tera-gas, unless that is more than 64 bits can count.
    pub open spec fn tera(tgas: u64) -> Result<Gas, GasError> {
        if tgas * ONE_TGAS <= u64::MAX {
            Ok(Gas((tgas * ONE_TGAS) as u64))
        } else {
            Err(GasError::Overflow)
        }
    }

    /// `self + other`, unless that is more than 64 bits can count.
    pub open spec fn sum(self, other: Gas) -> Result<Gas, GasError> {
        if self.0 + other.0 <= u64::MAX {
            Ok(Gas((self.0 + other.0) as u64))
        } else {
            Err(GasError::Overflow)
        }
    }

    /// `self - other`, unless `other` is the larger.
    pub open spec fn difference(self, other: Gas) -> Result<Gas, GasError> {
        if other.0 <= self.0 {
            Ok(Gas((self.0 - other.0) as u64))
        } else {
            Err(GasError::Underflow)
        }
    }

    /// `self * n`, unless that is more than 64 bits can count.
    pub open spec fn product(self, n: u64) -> Result<Gas, GasError> {
        if self.0 * n <= u64::MAX {
            Ok(Gas((self.0 * n) as u64))
        } else {
            Err(GasError::Overflow)
        }
    }

    /// `self / n` rounded down, unless `n` is zero.
    pub open spec fn quotient(self, n: u64) -> Result<Gas, GasError> {
        if n != 0 {
            Ok(Gas(self.0 / n))
        } else {
            Err(GasError::DivisionByZero)
        }
    }

    /// What is left of `self` after division by `n`, unless `n` is zero.
    pub open spec fn remainder(self, n: u64) -> Result<Gas, GasError> {
        if n != 0 {
            Ok(Gas(self.0 % n))
        } else {
            Err(GasError::DivisionByZero)
        }
    }

    /// The amount of `units` gas units.
    pub fn from_raw(units: u64) -> (gas: Gas)
        ensures
            gas == Gas(units),
    {
        Gas(units)
    }

    /// The amount of `tgas` tera-gas. Fails with `Overflow` if that is more
    /// than 64 bits can count.
    pub fn from_tgas(tgas: u64) -> (r: Result<Gas, GasError>)
        ensures
            r == Gas::tera(tgas),
    {
        match tgas.checked_mul(ONE_TGAS) {
            Some(units) => Ok(Gas(units)),
            None => Err(GasError::Overflow),
        }
    }

    /// The sum of two amounts. Fails with `Overflow` if it is more than 64
    /// bits can count.
    pub fn add(self, other: Gas) -> (r: Result<Gas, GasError>)
        ensures
            r == self.sum(other),
    {
        match self.0.checked_add(other.0) {
            Some(units) => Ok(Gas(units)),
            None => Err(GasError::Overflow),
        }
    }

    /// Adds `other` to this amount. On `Overflow` the amount is unchanged.
    pub fn add_in_place(&mut self, other: Gas) -> (r: Result<(), GasError>)
        ensures
            match old(self).sum(other) {
                Ok(total) => r is Ok && *final(self) == total,
                Err(e) => r == Err::<(), GasError>(e) && *final(self) == *old(self),
            },
    {
        match self.0.checked_add(other.0) {
            Some(units) => {
                self.0 = units;
                Ok(())
            },
            None => Err(GasError::Overflow),
        }
    }

    /// The difference of two amounts. Fails with `Underflow` if `other` is
    /// the larger.
    pub fn sub(self, other: Gas) -> (r: Result<Gas, GasError>)
        ensures
            r == self.difference(other),
    {
        match self.0.checked_sub(other.0) {
            Some(units) => Ok(Gas(units)),
            None => Err(GasError::Underflow),
        }
    }

    /// Takes `other` from this amount. On `Underflow` the amount is
    /// unchanged.
    pub fn sub_in_place(&mut self, other: Gas) -> (r: Result<(), GasError>)
        ensures
            match old(self).difference(other) {
                Ok(rest) => r is Ok && *final(self) == rest,
                Err(e) => r == Err::<(), GasError>(e) && *final(self) == *old(self),
            },
    {
        match self.0.checked_sub(other.0) {
            Some(units) => {
                self.0 = units;
                Ok(())
            },
            None => Err(GasError::Underflow),
        }
    }

    /// The amount `n` times over. Fails with `Overflow` if that is more than
    /// 64 bits can count.
    pub fn mul_scalar(self, n: u64) -> (r: Result<Gas, GasError>)
        ensures
            r == self.product(n),
    {
        match self.0.checked_mul(n) {
            Some(units) => Ok(Gas(units)),
            None => Err(GasError::Overflow),
        }
    }

    /// The amount divided by `n`, rounded down. Fails with `DivisionByZero`
    /// if `n` is zero.
    pub fn div_scalar(self, n: u64) -> (r: Result<Gas, GasError>)
        ensures
            r == self.quotient(n),
    {
        if n == 0 {
            Err(GasError::DivisionByZero)
        } else {
            Ok(Gas(self.0 / n))
        }
    }

    /// What is left of the amount after division by `n`. Fails with
    /// `DivisionByZero` if `n` is zero.
    pub fn rem_scalar(self, n: u64) -> (r: Result<Gas, GasError>)
        ensures
            r == self.remainder(n),
    {
        if n == 0 {
            Err(GasError::DivisionByZero)
        } else {
            Ok(Gas(self.0 % n))
        }
    }
}

/// Taking `b` from `a` and adding it back gives `a`, wherever `b` is no
/// larger than `a`: neither step fails.
pub proof fn lemma_sub_then_add(a: Gas, b: Gas)
    requires
        a.0 >= b.0,
    ensures
        a.difference(b) is Ok,
        a.difference(b).unwrap().sum(b) == Ok::<Gas, GasError>(a),
{
}

/// Quotient times divisor plus remainder gives the dividend back, for every
/// divisor but zero: no step fails.
pub proof fn lemma_div_rem(a: Gas, b: u64)
    requires
        b != 0,
    ensures
        a.quotient(b) is Ok,
        a.remainder(b) is Ok,
        a.quotient(b).unwrap().product(b) is Ok,
        a.quotient(b).unwrap().product(b).unwrap().sum(a.remainder(b).unwrap()) == Ok::<
            Gas,
            GasError,
        >(a),
{
    let q = a.0 / b;
    let r = a.0 % b;
    assert(q * b + r == a.0 && 0 <= q * b) by (nonlinear_arith)
        requires
            b > 0,
            q == a.0 / b,
            r == a.0 % b,
    ;
}

/// Dividing by zero fails with `DivisionByZero`, whatever the dividend.
pub proof fn lemma_division_by_zero(a: Gas)
    ensures
        a.quotient(0) == Err::<Gas, GasError>(GasError::DivisionByZero),
        a.remainder(0) == Err::<Gas, GasError>(GasError::DivisionByZero),
{
}

} // verus!
