//! The errors of proving and verifying.

use vstd::prelude::*;

verus! {

/// The reason why a Merkle tree does not open, carried as stwo gives it.
#[verifier::external_type_specification]
#[verifier::external_body]
pub struct ExMerkleVerificationError(stwo::core::vcs::verifier::MerkleVerificationError);

/// The reason why FRI fails, carried as stwo gives it.
#[verifier::external_type_specification]
#[verifier::external_body]
pub struct ExFriVerificationError(stwo::core::fri::FriVerificationError);

/// Why a proof could not be made.
#[derive(Clone, Copy, Debug, PartialEq, Eq, Structural)]
pub enum ProvingError {
    /// The trace does not satisfy the constraints at the sampled point.
    ConstraintsNotSatisfied,
}

/// Why a proof was not accepted.
#[derive(Debug)]
pub enum VerificationError {
    /// The sampled values do not have the structure of a proof.
    InvalidStructure(String),
    /// A committed tree does not open to the queried values.
    Merkle(stwo::core::vcs::verifier::MerkleVerificationError),
    /// The composition polynomial does not take the sampled value at the sampled point.
    OodsNotMatching,
    /// The sampled values do not lie on polynomials of low degree.
    Fri(stwo::core::fri::FriVerificationError),
    /// The proof of work is too small.
    ProofOfWork,
    /// The arguments cannot be checked to the end: there are no components, trees or commitments
    /// to start from, the components' answers make up no mask, the channel draws no point, the
    /// row of the composition polynomial cannot be combined, FRI cannot read its commitments or
    /// draw its queries, or the trees open but the samples and columns do not lead to a verdict.
    NotCheckable,
}

} // verus!
