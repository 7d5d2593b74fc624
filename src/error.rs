use vstd::prelude::*;

verus! {

/// Every way in which a light-client operation can fail.
#[derive(Clone, Copy, Debug, PartialEq, Eq, Structural)]
pub enum ClientError {
    /// The proof is structurally invalid.
    ProofMalformed,
    /// A hash in the proof does not match the commitment it should open.
    ProofInvalid,
    /// The proof is valid, but the key holds another value.
    ValueMismatch,
    /// The proof is valid, but shows that the key is absent.
    KeyNotFound,
    /// The proof is valid, but shows that the key is present.
    KeyPresent,
    /// No consensus state is recorded at the height queried.
    HeightNotFound,
    /// A header's timestamp does not exceed that of the latest consensus state.
    HeaderTimestampNotMonotonic,
    /// A header is not above the latest height and matches no recorded state.
    HeightNotNewer,
    /// Another consensus state is already recorded at this height.
    DuplicateHeight,
    /// The client was frozen after misbehaviour.
    ClientFrozen,
}

} // verus!
