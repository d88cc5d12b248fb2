//! The commitment scheme boundary: opaque carriers for the outside curve
//! and KZG values, and trusted wrappers around the calls the protocol
//! makes. Everything cryptographic is computed by the outside library; the
//! wrappers only state what the registry and identities may assume of it.
use vstd::prelude::*;

verus! {

use ark_bls12_381::{Bls12_381, Fr};
use ark_ec::{AffineCurve, PairingEngine, ProjectiveCurve};
use ark_poly::univariate::DensePolynomial;
use ark_poly::UVPolynomial;
use ark_poly_commit::kzg10::{Commitment, Powers, Proof as EvalProof, UniversalParams,
    VerifierKey, KZG10};
use ark_serialize::{CanonicalDeserialize, CanonicalSerialize};
use ark_std::borrow::Cow;
use ark_std::rand::rngs::StdRng;
use ark_std::rand::SeedableRng;
use crate::field::{in_field, Scalar};

/// The universal parameters of the commitment scheme together with the
/// verification key read off them. Opaque: the protocol only hands it to
/// the scheme's own operations.
#[verifier::external_body]
pub struct PublicParams {
    pp: UniversalParams<Bls12_381>,
    vk: VerifierKey<Bls12_381>,
}

/// A commitment to a secret polynomial. Opaque: compared and stored, never
/// inspected.
#[verifier::external_body]
pub struct PolyCommitment {
    inner: Commitment<Bls12_381>,
}

/// An opening proof for one evaluation of a committed polynomial. Opaque.
#[verifier::external_body]
pub struct OpeningProof {
    inner: EvalProof<Bls12_381>,
}

/// A secret polynomial over the scalar field. Opaque: it never leaves the
/// identity that owns it.
#[verifier::external_body]
pub struct SecretPolynomial {
    inner: DensePolynomial<Fr>,
}

/// The commitment the scheme produces for a polynomial under given
/// parameters, or `None` where the parameters support a lower degree.
/// `KZG10::commit` is deterministic for a non-hiding commitment, so the
/// result depends on the arguments alone.
pub uninterp spec fn commit_of(params: PublicParams, poly: SecretPolynomial) -> Option<
    PolyCommitment,
>;

/// The opening proof produced for a polynomial at a point, or `None`
/// where the parameters support a lower degree. Deterministic: no
/// randomness enters a non-hiding opening.
pub uninterp spec fn open_of(params: PublicParams, poly: SecretPolynomial, point: int) -> Option<
    OpeningProof,
>;

/// The verifier's verdict on one `(commitment, point, value, proof)`
/// tuple. `KZG10::check` is a pure pairing equation: deterministic.
pub uninterp spec fn kzg_ok(
    params: PublicParams,
    comm: PolyCommitment,
    point: int,
    value: int,
    proof: OpeningProof,
) -> bool;

/// The verdict of the registration pairing equation on a commitment, an
/// opening proof at zero and the claimed public identity bytes.
/// Deterministic: a pure pairing computation.
pub uninterp spec fn reg_ok(
    params: PublicParams,
    comm: PolyCommitment,
    proof: OpeningProof,
    pubkey: Seq<u8>,
) -> bool;

/// The public identity bytes derived from a secret key: generator times
/// the key, serialized canonically. Deterministic in the parameters and
/// the key's canonical integer.
pub uninterp spec fn pk_bytes_of(params: PublicParams, secret: int) -> Seq<u8>;

/// The canonical integer a polynomial evaluates to at a point.
/// Deterministic: exact field arithmetic.
pub uninterp spec fn eval_of(poly: SecretPolynomial, point: int) -> int;

/// The polynomial sampled for a degree and a seed. The generator is
/// seeded, so the result depends on the two arguments alone.
pub uninterp spec fn poly_of(degree: int, seed: u64) -> SecretPolynomial;

impl PublicParams {
    /// Relies on the `Clone` of the scheme's parameter and key types: the
    /// duplicate is a faithful copy, equal to the original.
    #[verifier::external_body]
    pub fn dup(&self) -> (r: PublicParams)
        ensures
            r == *self,
    {
        PublicParams { pp: self.pp.clone(), vk: self.vk.clone() }
    }
}

/// Relies on `KZG10::setup`: builds universal parameters for polynomials of
/// degree at most `max_degree` from a seeded generator, and reads the
/// verification key off them as the scheme's `trim` does. `setup` fails
/// only when `max_degree` is zero; the elements read off exist for every
/// successful setup.
#[verifier::external_body]
pub(crate) fn kzg_setup(max_degree: usize, seed: u64) -> (r: Option<PublicParams>)
    ensures
        max_degree >= 1 ==> r is Some,
{
    let mut rng = StdRng::seed_from_u64(seed);
    let pp = KZG10::<Bls12_381, DensePolynomial<Fr>>::setup(max_degree, false, &mut rng).ok()?;
    let vk = VerifierKey {
        g: *pp.powers_of_g.get(0)?,
        gamma_g: *pp.powers_of_gamma_g.get(&0)?,
        h: pp.h,
        beta_h: pp.beta_h,
        prepared_h: pp.prepared_h.clone(),
        prepared_beta_h: pp.prepared_beta_h.clone(),
    };
    Some(PublicParams { pp, vk })
}

/// Builds the shared public parameters for an epoch limit: the committed
/// polynomials have degree `limit`, so the parameters support degree
/// `limit` (at least one, since the scheme refuses degree zero).
pub fn setup_params(limit: usize, seed: u64) -> (r: PublicParams)
{
    let degree: usize = if limit < 1 {
        1
    } else {
        limit
    };
    kzg_setup(degree, seed).unwrap()
}

/// Relies on `KZG10::commit` (non-hiding): commits to the polynomial under
/// the powers carried by the universal parameters; fails when the degree
/// exceeds what the parameters support.
#[verifier::external_body]
pub(crate) fn kzg_commit(
    params: &PublicParams,
    poly: &SecretPolynomial,
) -> (r: Option<PolyCommitment>)
    ensures
        r == commit_of(*params, *poly),
{
    let powers = Powers::<Bls12_381> {
        powers_of_g: Cow::Borrowed(params.pp.powers_of_g.as_slice()),
        powers_of_gamma_g: Cow::Owned(vec![
            *params.pp.powers_of_gamma_g.get(&0)?,
            *params.pp.powers_of_gamma_g.get(&1)?,
        ]),
    };
    let (c, _) = KZG10::<Bls12_381, DensePolynomial<Fr>>::commit(&powers, &poly.inner, None, None)
        .ok()?;
    Some(PolyCommitment { inner: c })
}

/// Relies on `KZG10::commit` and polynomial division: produces the opening
/// proof for `poly` at `point`, committing to the witness quotient
/// `(poly - poly(point)) / (x - point)` as the scheme's non-hiding `open`
/// does, with the same degree precheck (`open` itself is `pub(crate)` in
/// the scheme and cannot be called).
#[verifier::external_body]
pub(crate) fn kzg_open(
    params: &PublicParams,
    poly: &SecretPolynomial,
    point: &Scalar,
) -> (r: Option<OpeningProof>)
    ensures
        r == open_of(*params, *poly, point@),
{
    let powers = Powers::<Bls12_381> {
        powers_of_g: Cow::Borrowed(params.pp.powers_of_g.as_slice()),
        powers_of_gamma_g: Cow::Owned(vec![
            *params.pp.powers_of_gamma_g.get(&0)?,
            *params.pp.powers_of_gamma_g.get(&1)?,
        ]),
    };
    if ark_poly::Polynomial::degree(&poly.inner) + 1 > powers.size() {
        return None;
    }
    let divisor = DensePolynomial::from_coefficients_vec(vec![-*point.raw(), Fr::from(1u64)]);
    let witness = &poly.inner / &divisor;
    let (c, _) = KZG10::<Bls12_381, DensePolynomial<Fr>>::commit(&powers, &witness, None, None)
        .ok()?;
    Some(OpeningProof { inner: EvalProof { w: c.0, random_v: None } })
}

/// Relies on `KZG10::check`: decides whether `proof` opens `comm` to
/// `value` at `point` under the verification key.
#[verifier::external_body]
pub(crate) fn kzg_check(
    params: &PublicParams,
    comm: &PolyCommitment,
    point: &Scalar,
    value: &Scalar,
    proof: &OpeningProof,
) -> (r: bool)
    ensures
        r == kzg_ok(*params, *comm, point@, value@, *proof),
{
    KZG10::<Bls12_381, DensePolynomial<Fr>>::check(
        &params.vk,
        &comm.inner,
        *point.raw(),
        *value.raw(),
        &proof.inner,
    ).unwrap_or(false)
}

/// Relies on `Bls12_381::pairing` and the curve group operations: checks
/// the registration pairing equation
/// `e(comm - pubkey, H) == e(proof, beta H - 0 H)`, that is, that the
/// commitment opens at zero to the exponent of the claimed public
/// identity. An undecodable public identity never verifies.
#[verifier::external_body]
pub(crate) fn registration_check(
    params: &PublicParams,
    comm: &PolyCommitment,
    proof: &OpeningProof,
    pubkey: &Vec<u8>,
) -> (r: bool)
    ensures
        r == reg_ok(*params, *comm, *proof, pubkey@),
{
    let pk = match ark_bls12_381::G1Affine::deserialize(&pubkey[..]) {
        Ok(p) => p.into_projective(),
        Err(_) => return false,
    };
    let lhs = Bls12_381::pairing(comm.inner.0.into_projective() - pk, params.vk.h);
    let inner = params.vk.beta_h.into_projective() - params.vk.h.mul(Fr::from(0u64));
    let rhs = Bls12_381::pairing(proof.inner.w, inner);
    lhs == rhs
}

/// Relies on `AffineCurve::mul` and `CanonicalSerialize`: derives the
/// public identity bytes, generator times `secret` in compressed canonical
/// form. Serializing into a byte vector cannot fail.
#[verifier::external_body]
pub(crate) fn derive_pubkey_bytes(params: &PublicParams, secret: &Scalar) -> (r: Vec<u8>)
    ensures
        r@ == pk_bytes_of(*params, secret@),
{
    let pk = params.vk.g.mul(*secret.raw()).into_affine();
    let mut bytes: Vec<u8> = Vec::new();
    match pk.serialize(&mut bytes) {
        Ok(()) => bytes,
        Err(_) => Vec::new(),
    }
}

/// Relies on `DensePolynomial::rand`: samples `degree + 1` uniformly
/// random coefficients from a generator seeded with `seed`.
#[verifier::external_body]
pub(crate) fn poly_rand(degree: usize, seed: u64) -> (r: SecretPolynomial)
    ensures
        r == poly_of(degree as int, seed),
{
    let mut rng = StdRng::seed_from_u64(seed);
    SecretPolynomial { inner: DensePolynomial::rand(degree, &mut rng) }
}

/// Relies on `Polynomial::evaluate`: evaluates the polynomial at the
/// point; the result is a field element in canonical form.
#[verifier::external_body]
pub(crate) fn poly_eval(poly: &SecretPolynomial, point: &Scalar) -> (r: Scalar)
    ensures
        r@ == eval_of(*poly, point@),
        in_field(r@),
{
    Scalar::wrap(ark_poly::Polynomial::evaluate(&poly.inner, point.raw()))
}

} // verus!
