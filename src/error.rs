use vstd::prelude::*;

verus! {

/// Why a withdrawal was refused. Every kind is terminal for the call.
#[derive(Debug, Clone, Copy, PartialEq, Eq, Structural)]
pub enum WithdrawalError {
    /// A trie proof does not prove the claimed value.
    InvalidProof,
    /// The proof bundle is for another account than the pool contract.
    AddressMismatch,
    /// The bundle does not hold exactly two storage proofs.
    MalformedProofShape,
    /// The account is not proved under the state root.
    InvalidAccountProof,
    /// The array length is not proved under the storage root.
    InvalidLengthProof,
    /// The array index is not below the proved length.
    IndexOutOfRange,
    /// The commitment is not proved at the array element's slot.
    InvalidElementProof,
    /// An inclusion path does not lead to the expected inclusion-set root.
    /// Computing a root never fails, so no function here returns it; it is
    /// for callers that hold the root the path must reach.
    InvalidInclusionProof,
    /// An encoded header or output record could not be decoded.
    MalformedInput,
}

} // verus!
