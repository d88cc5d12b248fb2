//! A rate-limiting nullifier (RLN) registry.
//!
//! An anonymous party registers a one-time identity commitment and may then
//! send a bounded number of messages per epoch. Each message discloses one
//! share of the party's secret polynomial; once the number of distinct shares
//! exceeds the epoch limit, the registry recovers the secret key by exact
//! polynomial interpolation over the scalar field and evicts the identity.

pub mod errors;
pub mod field;
pub mod interp;
pub mod identity;
pub mod kzg;
pub mod registry;

pub use errors::{MessageOutcome, RlnError};
pub use field::Scalar;
pub use identity::{Identity, MessageBundle, RegistrationBundle};
pub use kzg::{setup_params, PublicParams};
pub use registry::Registry;
