//! Scalars of the BLS12-381 scalar field, modelled as their canonical
//! integer representatives in `[0, fr_order())`.
use vstd::prelude::*;

verus! {

use ark_bls12_381::Fr;

#[verifier::external_type_specification]
#[verifier::external_body]
#[verifier::reject_recursive_types(P)]
pub struct ExFp256<P>(ark_ff::Fp256<P>);

#[verifier::external_type_specification]
#[verifier::external_body]
pub struct ExFrParameters(ark_bls12_381::FrParameters);

/// The order of the BLS12-381 scalar field, a 255-bit prime.
pub open spec fn fr_order() -> int {
    0x73eda753299d7d483339d80809a1d80553bda402fffe5bfeffffffff00000001int
}

/// `v` is the canonical representative of a field element.
pub open spec fn in_field(v: int) -> bool {
    0 <= v < fr_order()
}

/// The canonical integer in `[0, fr_order())` that a field element
/// represents. Field elements are kept in a canonical form, so this value
/// determines the element and is determined by it.
pub uninterp spec fn fr_val(x: Fr) -> int;

/// One element of the scalar field. Every operation below states its effect
/// on the canonical integer of the element, modulo `fr_order()`.
pub struct Scalar {
    inner: Fr,
}

impl View for Scalar {
    type V = int;

    closed spec fn view(&self) -> int {
        fr_val(self.inner)
    }
}

impl Scalar {
    /// Relies on `Fr: From<u64>`: embeds an integer into the field. Since
    /// the field order exceeds `u64::MAX`, no reduction takes place.
    #[verifier::external_body]
    pub fn from_u64(x: u64) -> (r: Scalar)
        ensures
            r@ == x as int,
            in_field(r@),
    {
        Scalar { inner: Fr::from(x) }
    }

    /// Relies on `Fr: Copy`: a field element is duplicated bitwise.
    #[verifier::external_body]
    pub fn dup(&self) -> (r: Scalar)
        ensures
            r@ == self@,
    {
        Scalar { inner: self.inner }
    }

    /// Relies on `Add for Fr`: field addition modulo the field order.
    #[verifier::external_body]
    pub fn add(&self, other: &Scalar) -> (r: Scalar)
        ensures
            r@ == (self@ + other@) % fr_order(),
    {
        Scalar { inner: self.inner + other.inner }
    }

    /// Relies on `Sub for Fr`: field subtraction modulo the field order.
    #[verifier::external_body]
    pub fn sub(&self, other: &Scalar) -> (r: Scalar)
        ensures
            r@ == (self@ - other@) % fr_order(),
    {
        Scalar { inner: self.inner - other.inner }
    }

    /// Relies on `Mul for Fr`: field multiplication modulo the field order.
    #[verifier::external_body]
    pub fn mul(&self, other: &Scalar) -> (r: Scalar)
        ensures
            r@ == (self@ * other@) % fr_order(),
    {
        Scalar { inner: self.inner * other.inner }
    }

    /// Relies on `ark_ff::Field::inverse`: returns the multiplicative
    /// inverse of a non-zero element and `None` for zero.
    #[verifier::external_body]
    pub fn inverse(&self) -> (r: Option<Scalar>)
        requires
            in_field(self@),
        ensures
            r is None <==> self@ == 0,
            r matches Some(s) ==> in_field(s@) && (self@ * s@) % fr_order() == 1,
    {
        ark_ff::Field::inverse(&self.inner).map(|i| Scalar { inner: i })
    }

    /// Relies on `PartialEq for Fr`: field elements compare equal exactly
    /// when they represent the same canonical integer.
    #[verifier::external_body]
    pub fn eq_value(&self, other: &Scalar) -> (r: bool)
        ensures
            r == (self@ == other@),
    {
        self.inner == other.inner
    }

    pub(crate) fn raw(&self) -> &Fr {
        &self.inner
    }

    /// Wraps an element the outside library produced. Its canonical integer
    /// is in range by construction.
    #[verifier::external_body]
    pub(crate) fn wrap(inner: Fr) -> (r: Scalar)
        ensures
            r@ == fr_val(inner),
            in_field(r@),
    {
        Scalar { inner }
    }
}

} // verus!
