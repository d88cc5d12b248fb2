//! A registrant-held identity: a secret polynomial of degree equal to the
//! epoch limit. The secret key is the polynomial at zero; the public
//! identity is the group generator raised to the secret key, in canonical
//! bytes. The polynomial itself never leaves this type.
use vstd::prelude::*;

verus! {

use crate::errors::RlnError;
use crate::field::{in_field, Scalar};
use crate::kzg::{commit_of, derive_pubkey_bytes, eval_of, kzg_commit, kzg_open, open_of,
    pk_bytes_of, poly_eval, poly_of, poly_rand, OpeningProof, PolyCommitment, PublicParams,
    SecretPolynomial};

/// An anonymous party's identity.
pub struct Identity {
    poly: SecretPolynomial,
}

/// What an identity hands the registry to register: the commitment to its
/// polynomial, the opening proof at zero, and its public identity bytes.
pub struct RegistrationBundle {
    pub commitment: PolyCommitment,
    pub proof: OpeningProof,
    pub public_id: Vec<u8>,
}

/// What an identity attaches to one message: the evaluation of its
/// polynomial at the message's point, and the opening proof for it.
pub struct MessageBundle {
    pub value: Scalar,
    pub proof: OpeningProof,
}

impl Identity {
    /// The secret polynomial this identity holds.
    pub closed spec fn polynomial(self) -> SecretPolynomial {
        self.poly
    }

    /// Creates an identity whose secret polynomial has degree `limit`,
    /// with coefficients drawn from a generator seeded with `seed`: the
    /// polynomial is a function of those two arguments.
    pub fn new(limit: usize, seed: u64) -> (r: Identity)
        ensures
            r.polynomial() == poly_of(limit as int, seed),
    {
        Identity { poly: poly_rand(limit, seed) }
    }

    /// The secret key: the polynomial evaluated at zero. Pure: every call
    /// returns the same canonical field element.
    pub fn secret_key(&self) -> (r: Scalar)
        ensures
            r@ == eval_of(self.polynomial(), 0),
            in_field(r@),
    {
        poly_eval(&self.poly, &Scalar::from_u64(0))
    }

    /// The public identity bytes: generator times the secret key.
    pub fn public_id(&self, params: &PublicParams) -> (r: Vec<u8>)
        ensures
            r@ == pk_bytes_of(*params, eval_of(self.polynomial(), 0)),
    {
        derive_pubkey_bytes(params, &self.secret_key())
    }

    /// Commits to the secret polynomial and proves that it opens at zero
    /// to the secret key. Succeeds exactly when the scheme produces both
    /// the commitment and the opening proof (it refuses a polynomial of
    /// higher degree than the parameters support); any failure is
    /// `ProofConstructionError`.
    pub fn build_registration(&self, params: &PublicParams) -> (r: Result<
        RegistrationBundle,
        RlnError,
    >)
        ensures
            r is Ok <==> commit_of(*params, self.polynomial()) is Some && open_of(
                *params,
                self.polynomial(),
                0,
            ) is Some,
            r matches Ok(b) ==> commit_of(*params, self.polynomial()) == Some(b.commitment)
                && open_of(*params, self.polynomial(), 0) == Some(b.proof) && b.public_id@
                == pk_bytes_of(*params, eval_of(self.polynomial(), 0)),
            r matches Err(e) ==> e == RlnError::ProofConstructionError,
    {
        let commitment = match kzg_commit(params, &self.poly) {
            Some(c) => c,
            None => {
                return Err(RlnError::ProofConstructionError);
            },
        };
        let proof = match kzg_open(params, &self.poly, &Scalar::from_u64(0)) {
            Some(p) => p,
            None => {
                return Err(RlnError::ProofConstructionError);
            },
        };
        Ok(RegistrationBundle { commitment, proof, public_id: self.public_id(params) })
    }

    /// Evaluates the secret polynomial at `point` and proves the
    /// evaluation against the identity's commitment. Succeeds exactly
    /// when the scheme produces the opening proof; any failure is
    /// `ProofConstructionError`.
    pub fn build_message(&self, params: &PublicParams, point: &Scalar) -> (r: Result<
        MessageBundle,
        RlnError,
    >)
        ensures
            r is Ok <==> open_of(*params, self.polynomial(), point@) is Some,
            r matches Ok(b) ==> b.value@ == eval_of(self.polynomial(), point@) && in_field(
                b.value@,
            ) && open_of(*params, self.polynomial(), point@) == Some(b.proof),
            r matches Err(e) ==> e == RlnError::ProofConstructionError,
    {
        let value = poly_eval(&self.poly, point);
        match kzg_open(params, &self.poly, point) {
            Some(proof) => Ok(MessageBundle { value, proof }),
            None => Err(RlnError::ProofConstructionError),
        }
    }
}

} // verus!
