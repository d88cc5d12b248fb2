//! Error taxonomy of the registration, messaging and recovery protocol.
use vstd::prelude::*;

verus! {

use crate::field::Scalar;

/// Everything that can go wrong while registering, submitting a message,
/// or recovering a secret key.
#[derive(Clone, Copy, Debug, PartialEq, Eq, Structural)]
pub enum RlnError {
    /// The registration opening proof does not match the claimed identity.
    InvalidRegistrationProof,
    /// The public identity is already registered; the state is unchanged.
    AlreadyRegistered,
    /// No record exists for the public identity.
    UnknownIdentity,
    /// The message opening proof does not verify against the stored commitment.
    InvalidMessageProof,
    /// The evaluation point repeats one already recorded for this identity.
    DuplicateSharePoint,
    /// Two sample points coincide, so interpolation is ill-defined.
    SingularShareSet,
    /// The recovered key does not reproduce the stored public identity.
    RecoveryMismatch,
    /// The commitment scheme could not produce a commitment or proof.
    ProofConstructionError,
}

/// The outcome of a message that was accepted by the registry.
pub enum MessageOutcome {
    /// The share was recorded; the identity stays registered.
    Accepted,
    /// The share pushed the identity over the epoch limit; the record was
    /// evicted and the secret key recovered.
    Slashed(Scalar),
}

} // verus!
