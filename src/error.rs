//! Failures of the engine's operations.
use vstd::prelude::*;

verus! {

/// Why an operation was refused or aborted.
#[derive(Clone, Copy, Debug, PartialEq, Eq, Structural)]
pub enum AggregatorError {
    /// The identity is already in the registry.
    DuplicateRegistration,
    /// The identity is not in the registry.
    NotRegistered,
    /// A client id has no identity in the registry.
    UnknownClientId,
    /// Derived key material is not a 256-bit key.
    InvalidKeyMaterial,
    /// The key-derivation service failed.
    KeyServiceUnavailable,
    /// A decrypted update is not a well-formed vector.
    DeserializationFailed,
}

} // verus!
