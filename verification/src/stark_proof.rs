//! Proofs and the parts of them that are read before they are opened.

use vstd::prelude::*;
use crate::field::P;
use crate::field::SecureField;

verus! {

type Hasher = stwo::core::vcs::blake2_merkle::Blake2sMerkleHasher;

/// A proof: for each committed tree its root, the values sampled from its columns, and what
/// opens it at the queried positions; and the FRI proof that ties them together.
///
/// Holds `proof::StarkProof` over the Blake2s Merkle hasher.
#[verifier::external_body]
pub struct StarkProof {
    pub(crate) inner: stwo::core::proof::StarkProof<Hasher>,
}

/// The parts of a proof that the verifier looks at before it opens the commitments.
#[verifier::ext_equal]
pub struct ProofParts {
    /// The root of each tree.
    pub commitments: Seq<Seq<u8>>,
    /// The sampled values, for each tree and each of its columns.
    pub sampled_values: Seq<Seq<Seq<SecureField>>>,
    /// The number of trees with a decommitment.
    pub n_decommitments: nat,
    /// The number of trees with queried values.
    pub n_queried: nat,
    /// The coordinates of the field elements of the FRI proof: its witnesses and its last layer.
    pub fri_coordinates: Seq<u32>,
    /// The nonce of the proof of work.
    pub proof_of_work: u64,
    /// The number of inner FRI layers.
    pub n_inner_layers: nat,
    /// The number of coefficients of the last FRI layer.
    pub last_layer_len: nat,
    /// The logarithm of that number that the proof itself states.
    pub last_layer_log_size: Option<u64>,
}

impl ProofParts {
    /// Any two words of the FRI proof can be added in 32 bits.
    pub open spec fn fri_addable(self) -> bool {
        forall|i: int|
            0 <= i < self.fri_coordinates.len() ==> #[trigger] self.fri_coordinates[i] <= P
    }

    /// The last FRI layer has as many coefficients as the proof states.
    pub open spec fn last_layer_consistent(self) -> bool {
        self.last_layer_log_size matches Some(k) && self.last_layer_len
            == vstd::arithmetic::power2::pow2(k as nat)
    }
}

/// The parts of a proof.
pub uninterp spec fn proof_parts(proof: StarkProof) -> ProofParts;

/// The proof that `serde_json::from_str` reads from a text.
pub uninterp spec fn parsed_proof(text: Seq<char>) -> Option<StarkProof>;

/// Parses a proof with `serde_json::from_str`; what it returns is a function of the text.
#[verifier::external_body]
fn parse_proof(text: &str) -> (r: Option<StarkProof>)
    ensures
        r == parsed_proof(text@),
{
    serde_json::from_str(text).ok().map(|inner| StarkProof { inner })
}

/// Reads the proof's field `commitments`.
#[verifier::external_body]
fn commitments_of(proof: &StarkProof) -> (r: Vec<[u8; 32]>)
    ensures
        r@.len() == proof_parts(*proof).commitments.len(),
        forall|t: int|
            0 <= t < r@.len() ==> (#[trigger] r@[t])@ == proof_parts(*proof).commitments[t],
{
    proof.inner.commitments.iter().map(|root| root.0).collect()
}

/// Reads the proof's field `sampled_values`.
#[verifier::external_body]
fn sampled_values_of(proof: &StarkProof) -> (r: Vec<Vec<Vec<SecureField>>>)
    ensures
        crate::oods::nested(r@) == proof_parts(*proof).sampled_values,
{
    let read = |v: &stwo::core::fields::qm31::QM31| {
        let [a, b, c, d] = v.to_m31_array();
        SecureField { a: a.0, b: b.0, c: c.0, d: d.0 }
    };
    let trees = proof.inner.sampled_values.iter();
    trees.map(|t| t.iter().map(|c| c.iter().map(read).collect()).collect()).collect()
}

/// Counts the trees in the proof's fields `decommitments` and `queried_values`.
#[verifier::external_body]
pub(crate) fn opened_trees_of(proof: &StarkProof) -> (r: (usize, usize))
    ensures
        r.0 == proof_parts(*proof).n_decommitments,
        r.1 == proof_parts(*proof).n_queried,
{
    (proof.inner.decommitments.len(), proof.inner.queried_values.len())
}

/// Reads the proof's field `proof_of_work`.
#[verifier::external_body]
pub(crate) fn proof_of_work_of(proof: &StarkProof) -> (r: u64)
    ensures
        r == proof_parts(*proof).proof_of_work,
{
    proof.inner.proof_of_work
}

/// Counts the inner layers of the proof's `fri_proof`.
#[verifier::external_body]
pub(crate) fn inner_layers_of(proof: &StarkProof) -> (r: usize)
    ensures
        r == proof_parts(*proof).n_inner_layers,
{
    proof.inner.fri_proof.inner_layers.len()
}

/// Reads the coordinates in the witnesses `fri_witness` of the layers of the proof's `fri_proof`,
/// and in the coefficients of its last layer.
#[verifier::external_body]
fn fri_coordinates_of(proof: &StarkProof) -> (r: Vec<u32>)
    ensures
        r@ == proof_parts(*proof).fri_coordinates,
{
    let fri = &proof.inner.fri_proof;
    let layers = core::iter::once(&fri.first_layer).chain(&fri.inner_layers);
    let felts = layers.flat_map(|layer| &layer.fri_witness).chain(fri.last_layer_poly.iter());
    felts.flat_map(|felt| felt.to_m31_array()).map(|word| word.0).collect()
}

/// Reads the length of the coefficients of `LinePoly` in the proof's last FRI layer, and its
/// private field `log_size` by `serde_json::to_value`.
#[verifier::external_body]
fn last_layer_of(proof: &StarkProof) -> (r: (usize, Option<u64>))
    ensures
        r.0 == proof_parts(*proof).last_layer_len,
        r.1 == proof_parts(*proof).last_layer_log_size,
{
    let poly = &proof.inner.fri_proof.last_layer_poly;
    let value = serde_json::to_value(poly).ok();
    let log_size = value.and_then(|v| v.get("log_size").and_then(|size| size.as_u64()));
    (poly.iter().len(), log_size)
}

impl StarkProof {
    /// Reads a proof from its JSON text.
    pub fn from_json(text: &str) -> (r: Option<StarkProof>)
        ensures
            r == parsed_proof(text@),
    {
        parse_proof(text)
    }

    /// The root of each tree.
    pub fn commitments(&self) -> (r: Vec<[u8; 32]>)
        ensures
            r@.len() == proof_parts(*self).commitments.len(),
            forall|t: int|
                0 <= t < r@.len() ==> (#[trigger] r@[t])@ == proof_parts(*self).commitments[t],
    {
        commitments_of(self)
    }

    /// The sampled values, for each tree and each of its columns.
    pub fn sampled_values(&self) -> (r: Vec<Vec<Vec<SecureField>>>)
        ensures
            crate::oods::nested(r@) == proof_parts(*self).sampled_values,
    {
        sampled_values_of(self)
    }
}

/// Tests whether a number is a given power of two.
fn is_power_of_two(n: usize, exponent: u64) -> (r: bool)
    ensures
        r == (n == vstd::arithmetic::power2::pow2(exponent as nat)),
{
    let mut rest: usize = n;
    let mut k: u64 = exponent;
    while k > 0
        invariant
            n == vstd::arithmetic::power2::pow2(exponent as nat) <==> rest
                == vstd::arithmetic::power2::pow2(k as nat),
        decreases k,
    {
        proof {
            vstd::arithmetic::power2::lemma_pow2_unfold(k as nat);
            vstd::arithmetic::power2::lemma_pow2_pos((k - 1) as nat);
        }
        if rest == 0 || rest % 2 != 0 {
            return false;
        }
        rest = rest / 2;
        k = k - 1;
    }
    proof {
        vstd::arithmetic::power2::lemma2_to64();
    }
    rest == 1
}

/// Tests whether any two words of the FRI proof can be added in 32 bits.
pub(crate) fn is_fri_addable(proof: &StarkProof) -> (r: bool)
    ensures
        r == proof_parts(*proof).fri_addable(),
{
    let coordinates: Vec<u32> = fri_coordinates_of(proof);
    let mut i: usize = 0;
    while i < coordinates.len()
        invariant
            coordinates@ == proof_parts(*proof).fri_coordinates,
            i <= coordinates@.len(),
            forall|j: int| 0 <= j < i ==> #[trigger] coordinates@[j] <= P,
        decreases coordinates@.len() - i,
    {
        if coordinates[i] > P {
            return false;
        }
        i = i + 1;
    }
    true
}

/// Tests whether the last FRI layer is of the stated size.
pub(crate) fn is_last_layer_consistent(proof: &StarkProof) -> (r: bool)
    ensures
        r == proof_parts(*proof).last_layer_consistent(),
{
    let (len, log_size) = last_layer_of(proof);
    match log_size {
        Some(k) => is_power_of_two(len, k),
        None => false,
    }
}

} // verus!
