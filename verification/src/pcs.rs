//! The verifier's side of the polynomial commitment scheme, and the proofs it opens.

use vstd::prelude::*;
use crate::channel::ChannelState;
use crate::circle::CirclePoint;
use crate::error::VerificationError;
use crate::field::SecureField;
use crate::stark_proof::ProofParts;
use crate::stark_proof::StarkProof;

verus! {

type OutsideFelt = stwo::core::fields::qm31::QM31;

type OutsidePoint = stwo::core::circle::CirclePoint<OutsideFelt>;

type OutsideTrees<T> = stwo::core::pcs::TreeVec<T>;

type OutsideError = stwo::core::verifier::VerificationError;

/// The parameters of the commitment scheme.
#[derive(Clone, Copy, Debug, PartialEq, Eq, Structural)]
pub struct PcsConfig {
    /// Leading zeros asked of the proof of work.
    pub pow_bits: u32,
    /// Logarithm of the ratio between a commitment domain and the degree bound.
    pub log_blowup_factor: u32,
    /// Logarithm of the degree bound of the last FRI layer.
    pub log_last_layer_degree_bound: u32,
    /// Number of FRI queries.
    pub n_queries: usize,
}

impl PcsConfig {
    /// The parameters lie in the ranges that FRI supports.
    pub open spec fn wf(self) -> bool {
        &&& 1 <= self.log_blowup_factor <= 16
        &&& self.log_last_layer_degree_bound <= 10
    }
}

/// A committed tree: its root and the log sizes of its extended columns.
#[verifier::ext_equal]
pub struct Tree {
    pub root: Seq<u8>,
    pub column_log_sizes: Seq<u32>,
}

/// The trees of a commitment scheme in the order in which they were committed.
///
/// Holds `pcs::CommitmentSchemeVerifier` over the Blake2s Merkle channel.
#[verifier::external_body]
pub struct CommitmentSchemeVerifier {
    inner: stwo::core::pcs::CommitmentSchemeVerifier<
        stwo::core::vcs::blake2_merkle::Blake2sMerkleChannel,
    >,
}

/// The committed trees.
pub uninterp spec fn scheme_trees(scheme: CommitmentSchemeVerifier) -> Seq<Tree>;

/// The parameters that the scheme was made with.
pub uninterp spec fn scheme_config(scheme: CommitmentSchemeVerifier) -> PcsConfig;

/// The log sizes of columns extended by the blowup factor.
pub open spec fn extended(log_sizes: Seq<u32>, config: PcsConfig) -> Seq<u32> {
    log_sizes.map_values(|s: u32| (s + config.log_blowup_factor) as u32)
}

/// Makes an empty scheme with `CommitmentSchemeVerifier::new` and `FriConfig::new`, which
/// panics on parameters out of range.
#[verifier::external_body]
fn new_scheme(config: PcsConfig) -> (r: CommitmentSchemeVerifier)
    requires
        config.wf(),
    ensures
        scheme_trees(r) == Seq::<Tree>::empty(),
        scheme_config(r) == config,
{
    let fri_config = stwo::core::fri::FriConfig::new(
        config.log_last_layer_degree_bound,
        config.log_blowup_factor,
        config.n_queries,
    );
    let config = stwo::core::pcs::PcsConfig { pow_bits: config.pow_bits, fri_config };
    CommitmentSchemeVerifier { inner: stwo::core::pcs::CommitmentSchemeVerifier::new(config) }
}

/// Commits with `CommitmentSchemeVerifier::commit`, which lets the channel absorb the root,
/// adds the blowup factor to each log size and appends the tree.
#[verifier::external_body]
fn commit_tree(
    scheme: &mut CommitmentSchemeVerifier,
    commitment: [u8; 32],
    log_sizes: &Vec<u32>,
    channel: &mut stwo::core::channel::Blake2sChannel,
)
    requires
        forall|i: int|
            0 <= i < log_sizes@.len() ==> #[trigger] log_sizes@[i] + scheme_config(
                *old(scheme),
            ).log_blowup_factor <= u32::MAX,
        crate::channel::state(*old(channel)).can_mix(1),
    ensures
        scheme_trees(*final(scheme)) == scheme_trees(*old(scheme)).push(
            (Tree {
                root: commitment@,
                column_log_sizes: extended(log_sizes@, scheme_config(*old(scheme))),
            }),
        ),
        scheme_config(*final(scheme)) == scheme_config(*old(scheme)),
        crate::channel::channel_digest(*final(channel)) == crate::channel::mixed_root(
            crate::channel::channel_digest(*old(channel)),
            commitment@,
        ),
        crate::channel::channel_draws(*final(channel)) == 0,
        crate::channel::channel_challenges(*final(channel)) == crate::channel::channel_challenges(
            *old(channel),
        ) + 1,
{
    let commitment = stwo::core::vcs::blake2_hash::Blake2sHash(commitment);
    scheme.inner.commit(commitment, log_sizes, channel);
}

impl CommitmentSchemeVerifier {
    /// Makes a scheme without trees.
    pub fn new(config: PcsConfig) -> (r: CommitmentSchemeVerifier)
        requires
            config.wf(),
        ensures
            scheme_trees(r) == Seq::<Tree>::empty(),
            scheme_config(r) == config,
    {
        new_scheme(config)
    }

    /// Reads a commitment: the channel absorbs the root and a tree with columns of the given log
    /// sizes, extended by the blowup factor, is appended.
    pub fn commit(
        &mut self,
        commitment: [u8; 32],
        log_sizes: &Vec<u32>,
        channel: &mut stwo::core::channel::Blake2sChannel,
    )
        requires
            forall|i: int|
                0 <= i < log_sizes@.len() ==> #[trigger] log_sizes@[i] + scheme_config(
                    *old(self),
                ).log_blowup_factor <= u32::MAX,
            crate::channel::state(*old(channel)).can_mix(1),
        ensures
            scheme_trees(*final(self)) == scheme_trees(*old(self)).push(
                (Tree {
                    root: commitment@,
                    column_log_sizes: extended(log_sizes@, scheme_config(*old(self))),
                }),
            ),
            scheme_config(*final(self)) == scheme_config(*old(self)),
            crate::channel::state(*final(channel)) == crate::channel::state(
                *old(channel),
            ).after_root(commitment@),
    {
        commit_tree(self, commitment, log_sizes, channel)
    }
}

/// Reads the scheme's public field `config`.
#[verifier::external_body]
fn config_of(scheme: &CommitmentSchemeVerifier) -> (r: PcsConfig)
    ensures
        r == scheme_config(*scheme),
{
    let config = scheme.inner.config;
    PcsConfig {
        pow_bits: config.pow_bits,
        log_blowup_factor: config.fri_config.log_blowup_factor,
        log_last_layer_degree_bound: config.fri_config.log_last_layer_degree_bound,
        n_queries: config.fri_config.n_queries,
    }
}

/// Reads the field `column_log_sizes` of each of the scheme's trees.
#[verifier::external_body]
fn log_sizes_of(scheme: &CommitmentSchemeVerifier) -> (r: Vec<Vec<u32>>)
    ensures
        r@.len() == scheme_trees(*scheme).len(),
        forall|t: int|
            0 <= t < r@.len() ==> (#[trigger] r@[t])@ == scheme_trees(*scheme)[t].column_log_sizes,
{
    scheme.inner.trees.iter().map(|tree| tree.column_log_sizes.clone()).collect()
}

/// The number of queries that a channel can serve: eight for each of the hashes that it can count
/// in 32 bits.
pub const MAX_QUERIES: u64 = 34359738360;

/// The most that opening lets the channel absorb: the sampled values, the first layer, at most 29
/// inner layers and the last layer of FRI, and the nonce.
pub const MAX_MIXES: usize = 33;

/// The log sizes of all columns, tree after tree.
pub open spec fn all_sizes(trees: Seq<Tree>) -> Seq<u32> {
    crate::oods::concat(trees.map_values(|tree: Tree| tree.column_log_sizes))
}

/// The log degree bounds of the columns whose log size is at most `top`: from the greatest to the
/// least, each once.
pub open spec fn bounds_up_to(sizes: Seq<u32>, log_blowup_factor: u32, top: nat) -> Seq<u32>
    decreases top,
{
    let rest = if top == 0 {
        Seq::empty()
    } else {
        bounds_up_to(sizes, log_blowup_factor, (top - 1) as nat)
    };
    if sizes.contains(top as u32) {
        seq![(top - log_blowup_factor) as u32] + rest
    } else {
        rest
    }
}

/// The log degree bounds of all columns, from the greatest to the least, each once.
pub open spec fn degree_bounds(trees: Seq<Tree>, config: PcsConfig) -> Seq<u32> {
    bounds_up_to(all_sizes(trees), config.log_blowup_factor, 30)
}

/// The proof has as many inner layers as fold the greatest bound to the last layer.
pub open spec fn right_layers(bounds: Seq<u32>, config: PcsConfig, parts: ProofParts) -> bool {
    bounds[0] - 1 == config.log_last_layer_degree_bound + parts.n_inner_layers
}

/// FRI can read the commitments of its layers: there are columns, they lie on domains that the
/// base field has, the greatest folds once, and the last layer, if it is looked at, is of the size
/// that the proof states.
pub open spec fn committable(trees: Seq<Tree>, config: PcsConfig, parts: ProofParts) -> bool {
    let sizes = all_sizes(trees);
    &&& config.wf()
    &&& forall|i: int|
        0 <= i < sizes.len() ==> config.log_blowup_factor <= #[trigger] sizes[i] <= 30
    &&& exists|i: int| 0 <= i < sizes.len() && #[trigger] sizes[i] > config.log_blowup_factor
    &&& right_layers(degree_bounds(trees, config), config, parts) ==> parts.last_layer_consistent()
}

/// The number of queries can be served.
pub open spec fn servable(config: PcsConfig) -> bool {
    1 <= config.n_queries <= MAX_QUERIES
}

/// Each column folds to the last layer in at least one inner layer.
pub open spec fn foldable(trees: Seq<Tree>, config: PcsConfig) -> bool {
    forall|i: int|
        0 <= i < all_sizes(trees).len() ==> config.log_blowup_factor
            + config.log_last_layer_degree_bound + 2 <= #[trigger] all_sizes(trees)[i]
}

/// The proof opens each of the trees.
pub open spec fn opens_each_tree(trees: Seq<Tree>, parts: ProofParts) -> bool {
    parts.n_decommitments == trees.len() && parts.n_queried == trees.len()
}

/// The size occurs among the first `n`.
pub open spec fn occurs(sizes: Seq<u32>, n: nat, size: u32) -> bool {
    exists|i: int| 0 <= i < n && i < sizes.len() && #[trigger] sizes[i] == size
}

/// Each size occurs among the first `n`.
pub open spec fn covers(sizes: Seq<u32>, n: nat) -> bool {
    forall|j: int| 0 <= j < sizes.len() ==> occurs(sizes, n, #[trigger] sizes[j])
}

/// What a scheme can open: on these arguments opening comes to a verdict. Columns are matched with
/// samples in order, tree after tree, so of each size there has to be one with samples.
pub open spec fn openable(
    trees: Seq<Tree>,
    config: PcsConfig,
    points: Seq<Seq<Seq<CirclePoint>>>,
    parts: ProofParts,
) -> bool {
    &&& committable(trees, config, parts)
    &&& servable(config)
    &&& foldable(trees, config)
    &&& parts.fri_addable()
    &&& opens_each_tree(trees, parts)
    &&& crate::oods::same_columns(points, parts.sampled_values)
    &&& covers(all_sizes(trees), crate::oods::concat(points).len())
    &&& crate::oods::proper_samples(points, parts.sampled_values)
}

/// What `CommitmentSchemeVerifier::verify_values` returns, and the channel it leaves.
pub uninterp spec fn opening_outcome(
    trees: Seq<Tree>,
    config: PcsConfig,
    points: Seq<Seq<Seq<CirclePoint>>>,
    proof: StarkProof,
    channel: ChannelState,
) -> (Result<(), VerificationError>, ChannelState);

/// Opens the trees with `CommitmentSchemeVerifier::verify_values`.
///
/// The verdict and the channel's state are a function of trees, parameters, points, proof and
/// channel, and an error is one of the Merkle trees, of FRI or of the proof of work.
///
/// The call panics on arguments of differing shapes, on columns that FRI does not fold, on a last
/// layer whose stated size is not its size, and on sums of words that do not fit into 32 bits;
/// without queries it does not return. It also panics on a point that is its own conjugate, or
/// when a domain point lies on the line through a point and its conjugate: that line meets the
/// circle in these two only, so it does not happen for points of the circle.
#[verifier::external_body]
fn open_values(
    scheme: &CommitmentSchemeVerifier,
    points: Vec<Vec<Vec<CirclePoint>>>,
    proof: StarkProof,
    channel: &mut stwo::core::channel::Blake2sChannel,
) -> (r: Result<(), VerificationError>)
    requires
        openable(
            scheme_trees(*scheme),
            scheme_config(*scheme),
            crate::oods::nested(points@),
            crate::stark_proof::proof_parts(proof),
        ),
        crate::channel::state(*old(channel)).can_mix(MAX_MIXES as nat),
    ensures
        (r, crate::channel::state(*final(channel))) == opening_outcome(
            scheme_trees(*scheme),
            scheme_config(*scheme),
            crate::oods::nested(points@),
            proof,
            crate::channel::state(*old(channel)),
        ),
        r matches Err(e) ==> e is Merkle || e is Fri || e is ProofOfWork,
{
    let felt = |v: SecureField| OutsideFelt::from_u32_unchecked(v.a, v.b, v.c, v.d);
    let point = |p: CirclePoint| OutsidePoint { x: felt(p.x), y: felt(p.y) };
    let points = points.into_iter().map(
        |t| t.into_iter().map(|c| c.into_iter().map(point).collect()).collect(),
    ).collect();
    scheme.inner.verify_values(OutsideTrees::new(points), proof.inner.0, channel).map_err(|e| match e {
        OutsideError::InvalidStructure(reason) => VerificationError::InvalidStructure(reason),
        OutsideError::Merkle(error) => VerificationError::Merkle(error),
        OutsideError::OodsNotMatching => VerificationError::OodsNotMatching,
        OutsideError::Fri(error) => VerificationError::Fri(error),
        OutsideError::ProofOfWork => VerificationError::ProofOfWork,
    })
}

/// FRI after it read the commitments of its layers.
///
/// Holds `fri::FriVerifier` over the Blake2s Merkle channel.
#[verifier::external_body]
pub struct FriRun {
    inner: stwo::core::fri::FriVerifier<stwo::core::vcs::blake2_merkle::Blake2sMerkleChannel>,
}

/// What queries are drawn for.
#[verifier::ext_equal]
pub struct FriParts {
    /// The log sizes of the columns' domains, from the greatest to the least.
    pub log_sizes: Seq<u32>,
    /// The number of queries.
    pub n_queries: nat,
}

/// What queries of a run of FRI are drawn for.
pub uninterp spec fn fri_parts(run: FriRun) -> FriParts;

/// What `FriVerifier::commit` returns for a proof's `fri_proof`, and the channel it leaves.
pub uninterp spec fn fri_commitment(
    config: PcsConfig,
    proof: StarkProof,
    bounds: Seq<u32>,
    channel: ChannelState,
) -> (Result<FriRun, stwo::core::fri::FriVerificationError>, ChannelState);

/// Reads the commitments of FRI's layers with `FriVerifier::commit`.
///
/// The result and the channel's state are a function of parameters, proof, bounds and channel. The
/// channel absorbs the first layer, inner layers until there are too many of them, and the last
/// layer. The call panics without bounds, on bounds that are not descending, on domains that the
/// base field does not have, on a greatest bound of zero, and when it comes to a last layer whose
/// stated size is not its size.
#[verifier::external_body]
fn commit_fri(
    config: PcsConfig,
    proof: &StarkProof,
    bounds: &Vec<u32>,
    channel: &mut stwo::core::channel::Blake2sChannel,
) -> (r: Result<FriRun, stwo::core::fri::FriVerificationError>)
    requires
        config.wf(),
        bounds@.len() > 0,
        forall|i: int, j: int| 0 <= i < j < bounds@.len() ==> bounds@[i] > bounds@[j],
        1 <= bounds@[0] <= 30 - config.log_blowup_factor,
        right_layers(bounds@, config, crate::stark_proof::proof_parts(*proof))
            ==> crate::stark_proof::proof_parts(*proof).last_layer_consistent(),
        crate::channel::state(*old(channel)).can_mix(31),
    ensures
        (r, crate::channel::state(*final(channel))) == fri_commitment(
            config,
            *proof,
            bounds@,
            crate::channel::state(*old(channel)),
        ),
        crate::channel::state(*final(channel)).challenges <= crate::channel::state(
            *old(channel),
        ).challenges + 31,
        r matches Ok(run) ==> fri_parts(run) == (FriParts {
            log_sizes: extended(bounds@, config),
            n_queries: config.n_queries as nat,
        }),
{
    let config = stwo::core::fri::FriConfig::new(
        config.log_last_layer_degree_bound,
        config.log_blowup_factor,
        config.n_queries,
    );
    let bounds = bounds.iter().map(|b| stwo::core::fri::CirclePolyDegreeBound::new(*b)).collect();
    let fri_proof = proof.inner.fri_proof.clone();
    let run = stwo::core::fri::FriVerifier::commit(channel, config, fri_proof, bounds);
    run.map(|inner| FriRun { inner })
}

/// The positions that are queried, for each log size.
pub open spec fn positions_of(positions: Seq<(u32, Vec<usize>)>) -> Seq<(u32, Seq<usize>)> {
    positions.map_values(|at: (u32, Vec<usize>)| (at.0, at.1@))
}

/// Positions are queried for columns of the size.
pub open spec fn has_positions(positions: Seq<(u32, Seq<usize>)>, size: u32) -> bool {
    exists|j: int| 0 <= j < positions.len() && (#[trigger] positions[j]).0 == size
}

/// For each of the sizes positions are queried, in ascending order and within the domain.
pub open spec fn proper_positions(positions: Seq<(u32, Seq<usize>)>, sizes: Seq<u32>) -> bool {
    &&& forall|i: int| 0 <= i < sizes.len() ==> has_positions(positions, #[trigger] sizes[i])
    &&& forall|j: int, k: int| 0 <= j < k < positions.len() ==> positions[j].0 < positions[k].0
    &&& forall|j: int|
        0 <= j < positions.len() ==> ascends_below(
            (#[trigger] positions[j]).1,
            vstd::arithmetic::power2::pow2(positions[j].0 as nat),
        )
}

/// There are positions, they ascend, and they lie below a limit.
pub open spec fn ascends_below(positions: Seq<usize>, limit: nat) -> bool {
    &&& positions.len() > 0
    &&& forall|j: int, k: int| 0 <= j < k < positions.len() ==> positions[j] < positions[k]
    &&& forall|j: int| 0 <= j < positions.len() ==> #[trigger] positions[j] < limit
}

/// The positions that `FriVerifier::sample_query_positions` returns, and the channel it leaves.
pub uninterp spec fn query_positions(run: FriRun, channel: ChannelState) -> (
    Seq<(u32, Seq<usize>)>,
    ChannelState,
);

/// Draws the queried positions with `FriVerifier::sample_query_positions`.
///
/// Positions and the channel's state are a function of run and channel. For each log size the
/// positions are a nonempty ascending list within the domain. The call draws a hash for each eight
/// queries, and does not return when there are none.
#[verifier::external_body]
fn sample_positions(run: FriRun, channel: &mut stwo::core::channel::Blake2sChannel) -> (r: Vec<
    (u32, Vec<usize>),
>)
    requires
        1 <= fri_parts(run).n_queries <= MAX_QUERIES,
        fri_parts(run).log_sizes.len() > 0,
        forall|i: int|
            0 <= i < fri_parts(run).log_sizes.len() ==> #[trigger] fri_parts(run).log_sizes[i]
                <= 30,
        crate::channel::state(*old(channel)).draws == 0,
    ensures
        (positions_of(r@), crate::channel::state(*final(channel))) == query_positions(
            run,
            crate::channel::state(*old(channel)),
        ),
        proper_positions(positions_of(r@), fri_parts(run).log_sizes),
{
    let mut inner = run.inner;
    inner.sample_query_positions(channel).into_iter().collect()
}

/// What `MerkleVerifier::verify` returns for a tree and what tree `t` of a proof opens it with.
pub uninterp spec fn tree_outcome(
    tree: Tree,
    positions: Seq<(u32, Seq<usize>)>,
    proof: StarkProof,
    t: nat,
) -> Result<(), stwo::core::vcs::verifier::MerkleVerificationError>;

/// Opens one tree at the queried positions with `MerkleVerifier::verify`, which is given the
/// values and the decommitment that the proof has for the tree. The call panics where the queries
/// do not lead to one root.
#[verifier::external_body]
fn open_tree(
    scheme: &CommitmentSchemeVerifier,
    t: usize,
    positions: &Vec<(u32, Vec<usize>)>,
    proof: &StarkProof,
) -> (r: Result<(), stwo::core::vcs::verifier::MerkleVerificationError>)
    requires
        t < scheme_trees(*scheme).len(),
        t < crate::stark_proof::proof_parts(*proof).n_decommitments,
        t < crate::stark_proof::proof_parts(*proof).n_queried,
        proper_positions(positions_of(positions@), all_sizes(scheme_trees(*scheme))),
    ensures
        r == tree_outcome(
            scheme_trees(*scheme)[t as int],
            positions_of(positions@),
            *proof,
            t as nat,
        ),
{
    let positions = positions.iter().cloned().collect();
    let queried_values = proof.inner.queried_values[t].clone();
    let decommitment = proof.inner.decommitments[t].clone();
    scheme.inner.trees[t].verify(&positions, queried_values, decommitment)
}

/// The first of `n` trees that does not open refuses the proof.
pub open spec fn first_refusal(
    trees: Seq<Tree>,
    positions: Seq<(u32, Seq<usize>)>,
    proof: StarkProof,
    n: nat,
) -> Option<stwo::core::vcs::verifier::MerkleVerificationError>
    decreases n,
{
    if n == 0 {
        None
    } else {
        match first_refusal(trees, positions, proof, (n - 1) as nat) {
            Some(error) => Some(error),
            None => match tree_outcome(trees[n - 1], positions, proof, (n - 1) as nat) {
                Err(error) => Some(error),
                Ok(_) => None,
            },
        }
    }
}

/// What is found before the samples are looked at, in the order in which opening finds it: FRI
/// reads the commitments of its layers, the proof of work is checked, and the trees are opened at
/// the queried positions. Where nothing is found, or the next step cannot be taken, the arguments
/// cannot be checked.
pub open spec fn finds(
    trees: Seq<Tree>,
    config: PcsConfig,
    proof: StarkProof,
    channel: ChannelState,
    verdict: Result<(), VerificationError>,
    after: ChannelState,
) -> bool {
    let parts = crate::stark_proof::proof_parts(proof);
    let not_checkable = Err::<(), VerificationError>(VerificationError::NotCheckable);
    let sampled = channel.after_felts(
        crate::oods::all_values(parts.sampled_values),
    ).after_draw();
    let (committed, read) = fri_commitment(
        config,
        proof,
        degree_bounds(trees, config),
        sampled,
    );
    let worked = read.after_u64(parts.proof_of_work);
    if !committable(trees, config, parts) {
        verdict == not_checkable && after == channel
    } else {
        match committed {
            Err(error) => {
                verdict == Err::<(), VerificationError>(VerificationError::Fri(error)) && after
                    == read
            },
            Ok(run) => if crate::channel::digest_zeros(worked.digest) < config.pow_bits {
                verdict == Err::<(), VerificationError>(VerificationError::ProofOfWork) && after
                    == worked
            } else if !servable(config) || !opens_each_tree(trees, parts) {
                verdict == not_checkable && after == worked
            } else {
                let (positions, queried) = query_positions(run, worked);
                &&& after == queried
                &&& match first_refusal(trees, positions, proof, trees.len()) {
                    Some(error) => verdict == Err::<(), VerificationError>(
                        VerificationError::Merkle(error),
                    ),
                    None => verdict == not_checkable,
                }
            },
        }
    }
}

/// The verdict of opening the trees, and the channel that is left. Where opening as a whole would
/// come to no verdict, it is what is found before the samples are looked at.
pub open spec fn opens(
    trees: Seq<Tree>,
    config: PcsConfig,
    points: Seq<Seq<Seq<CirclePoint>>>,
    proof: StarkProof,
    channel: ChannelState,
    verdict: Result<(), VerificationError>,
    after: ChannelState,
) -> bool {
    if openable(trees, config, points, crate::stark_proof::proof_parts(proof)) {
        &&& (verdict, after) == opening_outcome(trees, config, points, proof, channel)
        &&& verdict matches Err(e) ==> e is Merkle || e is Fri || e is ProofOfWork
    } else {
        finds(trees, config, proof, channel, verdict, after)
    }
}

/// The bounds descend, come from sizes up to `top`, and leave none of these out.
proof fn lemma_bounds(sizes: Seq<u32>, log_blowup_factor: u32, top: nat)
    requires
        top <= 30,
        forall|i: int| 0 <= i < sizes.len() ==> log_blowup_factor <= #[trigger] sizes[i] <= 30,
    ensures
        ({
            let bounds = bounds_up_to(sizes, log_blowup_factor, top);
            &&& forall|i: int, j: int| 0 <= i < j < bounds.len() ==> bounds[i] > bounds[j]
            &&& forall|i: int|
                0 <= i < bounds.len() ==> #[trigger] bounds[i] + log_blowup_factor <= top
            &&& forall|i: int|
                0 <= i < sizes.len() && #[trigger] sizes[i] <= top ==> bounds.contains(
                    (sizes[i] - log_blowup_factor) as u32,
                )
        }),
    decreases top,
{
    let bounds = bounds_up_to(sizes, log_blowup_factor, top);
    let rest = if top == 0 {
        Seq::empty()
    } else {
        bounds_up_to(sizes, log_blowup_factor, (top - 1) as nat)
    };
    if top > 0 {
        lemma_bounds(sizes, log_blowup_factor, (top - 1) as nat);
    }
    if sizes.contains(top as u32) {
        let k = choose|k: int| 0 <= k < sizes.len() && sizes[k] == top as u32;
        assert(log_blowup_factor <= sizes[k]);
        let first = (top - log_blowup_factor) as u32;
        assert(bounds == seq![first] + rest);
        assert forall|i: int| 0 <= i < sizes.len() && #[trigger] sizes[i] <= top implies bounds.contains(
            (sizes[i] - log_blowup_factor) as u32,
        ) by {
            if sizes[i] == top {
                assert(bounds[0] == first);
            } else {
                let bound = (sizes[i] - log_blowup_factor) as u32;
                assert(rest.contains(bound));
                let m = choose|m: int| 0 <= m < rest.len() && rest[m] == bound;
                assert(bounds[m + 1] == bound);
            }
        }
    } else {
        assert forall|i: int| 0 <= i < sizes.len() && #[trigger] sizes[i] <= top implies bounds.contains(
            (sizes[i] - log_blowup_factor) as u32,
        ) by {
            assert(sizes[i] != top as u32);
        }
    }
}

/// What the bounds of columns are, where FRI can read its commitments.
proof fn lemma_degree_bounds(trees: Seq<Tree>, config: PcsConfig, parts: ProofParts)
    requires
        committable(trees, config, parts),
    ensures
        ({
            let bounds = degree_bounds(trees, config);
            &&& bounds.len() > 0
            &&& forall|i: int, j: int| 0 <= i < j < bounds.len() ==> bounds[i] > bounds[j]
            &&& 1 <= bounds[0] <= 30 - config.log_blowup_factor
            &&& forall|i: int|
                0 <= i < bounds.len() ==> #[trigger] bounds[i] + config.log_blowup_factor <= 30
            &&& forall|i: int|
                0 <= i < all_sizes(trees).len() ==> extended(bounds, config).contains(
                    #[trigger] all_sizes(trees)[i],
                )
        }),
{
    let sizes = all_sizes(trees);
    let bounds = degree_bounds(trees, config);
    lemma_bounds(sizes, config.log_blowup_factor, 30);
    let i = choose|i: int| 0 <= i < sizes.len() && #[trigger] sizes[i] > config.log_blowup_factor;
    let bound = (sizes[i] - config.log_blowup_factor) as u32;
    assert(bounds.contains(bound));
    let m = choose|m: int| 0 <= m < bounds.len() && bounds[m] == bound;
    if m > 0 {
        assert(bounds[0] > bounds[m]);
    }
    assert(bounds[0] + config.log_blowup_factor <= 30);
    assert forall|j: int| 0 <= j < sizes.len() implies extended(bounds, config).contains(
        #[trigger] sizes[j],
    ) by {
        let b = (sizes[j] - config.log_blowup_factor) as u32;
        assert(bounds.contains(b));
        let k = choose|k: int| 0 <= k < bounds.len() && bounds[k] == b;
        assert(extended(bounds, config)[k] == sizes[j]);
    }
}

/// Positions for sizes are positions for others that are all among them.
proof fn lemma_positions(positions: Seq<(u32, Seq<usize>)>, sizes: Seq<u32>, others: Seq<u32>)
    requires
        proper_positions(positions, sizes),
        forall|i: int| 0 <= i < others.len() ==> sizes.contains(#[trigger] others[i]),
    ensures
        proper_positions(positions, others),
{
    assert forall|i: int| 0 <= i < others.len() implies has_positions(
        positions,
        #[trigger] others[i],
    ) by {
        let k = choose|k: int| 0 <= k < sizes.len() && sizes[k] == others[i];
        assert(has_positions(positions, sizes[k]));
    }
}

/// Beyond the number of sizes, all are covered.
proof fn lemma_covers_limit(sizes: Seq<u32>, n: nat)
    ensures
        n >= sizes.len() ==> covers(sizes, n) && covers(sizes, sizes.len()),
{
    if n >= sizes.len() {
        assert forall|j: int| 0 <= j < sizes.len() implies occurs(sizes, n, #[trigger] sizes[j])
            && occurs(sizes, sizes.len(), sizes[j]) by {
        }
    }
}

fn has_size(sizes: &Vec<u32>, size: u32) -> (r: bool)
    ensures
        r == sizes@.contains(size),
{
    let mut i: usize = 0;
    while i < sizes.len()
        invariant
            i <= sizes@.len(),
            forall|k: int| 0 <= k < i ==> #[trigger] sizes@[k] != size,
        decreases sizes@.len() - i,
    {
        if sizes[i] == size {
            assert(sizes@[i as int] == size);
            return true;
        }
        i = i + 1;
    }
    false
}

/// Lists the log degree bounds of columns with the given log sizes.
fn list_bounds(sizes: &Vec<u32>, config: PcsConfig) -> (r: Vec<u32>)
    requires
        forall|i: int|
            0 <= i < sizes@.len() ==> config.log_blowup_factor <= #[trigger] sizes@[i] <= 30,
    ensures
        r@ == bounds_up_to(sizes@, config.log_blowup_factor, 30),
{
    let ghost all = bounds_up_to(sizes@, config.log_blowup_factor, 30);
    let mut r: Vec<u32> = Vec::new();
    let mut above: u32 = 31;
    assert(r@ + all =~= all);
    while above > 0
        invariant
            above <= 31,
            forall|i: int|
                0 <= i < sizes@.len() ==> config.log_blowup_factor <= #[trigger] sizes@[i] <= 30,
            all == bounds_up_to(sizes@, config.log_blowup_factor, 30),
            all == r@ + if above == 0 {
                Seq::empty()
            } else {
                bounds_up_to(sizes@, config.log_blowup_factor, (above - 1) as nat)
            },
        decreases above,
    {
        let top: u32 = above - 1;
        let ghost before = r@;
        let ghost rest = if top == 0 {
            Seq::empty()
        } else {
            bounds_up_to(sizes@, config.log_blowup_factor, (top - 1) as nat)
        };
        if has_size(sizes, top) {
            let ghost k = choose|k: int| 0 <= k < sizes@.len() && sizes@[k] == top;
            assert(config.log_blowup_factor <= sizes@[k]);
            r.push(top - config.log_blowup_factor);
            assert(before + (seq![(top - config.log_blowup_factor) as u32] + rest) =~= r@ + rest);
        }
        above = top;
    }
    assert(all =~= r@);
    r
}

/// The number of columns that the points are for, if it is less than a limit, and the limit
/// otherwise.
fn count_columns(points: &Vec<Vec<Vec<CirclePoint>>>, limit: usize) -> (r: usize)
    ensures
        r == if crate::oods::concat(crate::oods::nested(points@)).len() < limit {
            crate::oods::concat(crate::oods::nested(points@)).len() as int
        } else {
            limit as int
        },
{
    let ghost all = crate::oods::nested(points@);
    let mut n: usize = 0;
    let mut t: usize = 0;
    while t < points.len()
        invariant
            t <= points@.len(),
            all == crate::oods::nested(points@),
            n <= limit,
            n == if crate::oods::concat(all.take(t as int)).len() < limit {
                crate::oods::concat(all.take(t as int)).len() as int
            } else {
                limit as int
            },
        decreases points@.len() - t,
    {
        proof {
            crate::oods::lemma_concat_take(all, t as int);
            assert(all[t as int].len() == points@[t as int]@.len());
        }
        if points[t].len() >= limit - n {
            n = limit;
        } else {
            n = n + points[t].len();
        }
        t = t + 1;
    }
    assert(all.take(t as int) =~= all);
    n
}

/// Tests whether each size occurs among the first `n`.
fn is_covering(sizes: &Vec<u32>, n: usize) -> (r: bool)
    requires
        n <= sizes@.len(),
    ensures
        r == covers(sizes@, n as nat),
{
    let mut j: usize = 0;
    while j < sizes.len()
        invariant
            j <= sizes@.len(),
            n <= sizes@.len(),
            forall|k: int| 0 <= k < j ==> occurs(sizes@, n as nat, #[trigger] sizes@[k]),
        decreases sizes@.len() - j,
    {
        let mut i: usize = 0;
        while i < n && sizes[i] != sizes[j]
            invariant
                i <= n,
                n <= sizes@.len(),
                j < sizes@.len(),
                forall|k: int| 0 <= k < i ==> #[trigger] sizes@[k] != sizes@[j as int],
            decreases n - i,
        {
            i = i + 1;
        }
        if i == n {
            assert(!occurs(sizes@, n as nat, sizes@[j as int]));
            return false;
        }
        assert(sizes@[i as int] == sizes@[j as int]);
        j = j + 1;
    }
    true
}

impl CommitmentSchemeVerifier {
    /// The parameters that the scheme was made with.
    pub fn config(&self) -> (r: PcsConfig)
        ensures
            r == scheme_config(*self),
    {
        config_of(self)
    }

    /// The log sizes of the columns of each tree, extended by the blowup factor.
    pub fn column_log_sizes(&self) -> (r: Vec<Vec<u32>>)
        ensures
            r@.len() == scheme_trees(*self).len(),
            forall|t: int|
                0 <= t < r@.len() ==> (#[trigger] r@[t])@ == scheme_trees(
                    *self,
                )[t].column_log_sizes,
    {
        log_sizes_of(self)
    }

    /// The log sizes of all columns, tree after tree.
    fn all_log_sizes(&self) -> (r: Vec<u32>)
        ensures
            r@ == all_sizes(scheme_trees(*self)),
    {
        let log_sizes: Vec<Vec<u32>> = log_sizes_of(self);
        assert(crate::oods::rows(log_sizes@) =~= scheme_trees(*self).map_values(
            |tree: Tree| tree.column_log_sizes,
        ));
        crate::oods::flatten(&log_sizes)
    }

    /// Tests whether FRI can read the commitments of its layers.
    pub fn is_committable(&self, proof: &StarkProof) -> (r: bool)
        ensures
            r == committable(
                scheme_trees(*self),
                scheme_config(*self),
                crate::stark_proof::proof_parts(*proof),
            ),
    {
        let config: PcsConfig = config_of(self);
        if config.log_blowup_factor < 1 || config.log_blowup_factor > 16
            || config.log_last_layer_degree_bound > 10 {
            return false;
        }
        let sizes: Vec<u32> = self.all_log_sizes();
        let mut folds: bool = false;
        let mut i: usize = 0;
        while i < sizes.len()
            invariant
                i <= sizes@.len(),
                sizes@ == all_sizes(scheme_trees(*self)),
                config == scheme_config(*self),
                forall|k: int|
                    0 <= k < i ==> config.log_blowup_factor <= #[trigger] sizes@[k] <= 30,
                folds == exists|k: int|
                    0 <= k < i && #[trigger] sizes@[k] > config.log_blowup_factor,
            decreases sizes@.len() - i,
        {
            if sizes[i] < config.log_blowup_factor || sizes[i] > 30 {
                assert(!(config.log_blowup_factor <= sizes@[i as int] <= 30));
                return false;
            }
            folds = folds || sizes[i] > config.log_blowup_factor;
            i = i + 1;
        }
        if !folds {
            return false;
        }
        let bounds: Vec<u32> = list_bounds(&sizes, config);
        proof {
            let parts = crate::stark_proof::proof_parts(*proof);
            // The last condition has no part in what the bounds are.
            let other = ProofParts { last_layer_len: 1, last_layer_log_size: Some(0), ..parts };
            vstd::arithmetic::power2::lemma2_to64();
            assert(committable(scheme_trees(*self), config, other));
            lemma_degree_bounds(scheme_trees(*self), config, other);
        }
        let inner: usize = crate::stark_proof::inner_layers_of(proof);
        let folded: u32 = bounds[0] - 1;
        let right: bool = folded >= config.log_last_layer_degree_bound && inner == (folded
            - config.log_last_layer_degree_bound) as usize;
        !right || crate::stark_proof::is_last_layer_consistent(proof)
    }

    /// Tests whether each column folds to the last layer in at least one inner layer.
    fn is_foldable(&self) -> (r: bool)
        requires
            scheme_config(*self).wf(),
        ensures
            r == foldable(scheme_trees(*self), scheme_config(*self)),
    {
        let config: PcsConfig = config_of(self);
        let least: u32 = config.log_blowup_factor + config.log_last_layer_degree_bound + 2;
        let sizes: Vec<u32> = self.all_log_sizes();
        let mut i: usize = 0;
        while i < sizes.len()
            invariant
                i <= sizes@.len(),
                sizes@ == all_sizes(scheme_trees(*self)),
                config == scheme_config(*self),
                least == config.log_blowup_factor + config.log_last_layer_degree_bound + 2,
                forall|k: int| 0 <= k < i ==> least <= #[trigger] sizes@[k],
            decreases sizes@.len() - i,
        {
            if sizes[i] < least {
                assert(!(least <= all_sizes(scheme_trees(*self))[i as int]));
                return false;
            }
            i = i + 1;
        }
        true
    }

    /// Tests whether the number of queries can be served.
    fn is_servable(&self) -> (r: bool)
        ensures
            r == servable(scheme_config(*self)),
    {
        let config: PcsConfig = config_of(self);
        config.n_queries >= 1 && config.n_queries as u64 <= MAX_QUERIES
    }

    /// Tests whether the proof opens each of the trees.
    fn is_each_tree_opened(&self, proof: &StarkProof) -> (r: bool)
        ensures
            r == opens_each_tree(
                scheme_trees(*self),
                crate::stark_proof::proof_parts(*proof),
            ),
    {
        let n: usize = log_sizes_of(self).len();
        let (n_decommitments, n_queried) = crate::stark_proof::opened_trees_of(proof);
        n_decommitments == n && n_queried == n
    }

    /// Tests whether opening comes to a verdict on these arguments.
    pub fn is_openable(&self, points: &Vec<Vec<Vec<CirclePoint>>>, proof: &StarkProof) -> (r: bool)
        ensures
            r == openable(
                scheme_trees(*self),
                scheme_config(*self),
                crate::oods::nested(points@),
                crate::stark_proof::proof_parts(*proof),
            ),
    {
        if !self.is_committable(proof) || !self.is_servable() || !self.is_foldable()
            || !crate::stark_proof::is_fri_addable(proof) || !self.is_each_tree_opened(proof) {
            return false;
        }
        let values: Vec<Vec<Vec<SecureField>>> = proof.sampled_values();
        if !crate::oods::have_same_columns(points, &values) {
            return false;
        }
        let sizes: Vec<u32> = self.all_log_sizes();
        let n: usize = count_columns(points, sizes.len());
        proof {
            let count = crate::oods::concat(crate::oods::nested(points@)).len();
            lemma_covers_limit(sizes@, count);
        }
        is_covering(&sizes, n) && crate::oods::samples_are_proper(points, &values)
    }

    /// Opens the trees one after another at the queried positions, up to the first that does not
    /// open.
    fn open_trees(&self, positions: &Vec<(u32, Vec<usize>)>, proof: &StarkProof) -> (r: Result<
        (),
        VerificationError,
    >)
        requires
            opens_each_tree(scheme_trees(*self), crate::stark_proof::proof_parts(*proof)),
            proper_positions(positions_of(positions@), all_sizes(scheme_trees(*self))),
        ensures
            match first_refusal(
                scheme_trees(*self),
                positions_of(positions@),
                *proof,
                scheme_trees(*self).len(),
            ) {
                Some(error) => r == Err::<(), VerificationError>(VerificationError::Merkle(error)),
                None => r is Ok,
            },
    {
        let n: usize = log_sizes_of(self).len();
        let mut t: usize = 0;
        while t < n
            invariant
                t <= n,
                n == scheme_trees(*self).len(),
                opens_each_tree(scheme_trees(*self), crate::stark_proof::proof_parts(*proof)),
                proper_positions(positions_of(positions@), all_sizes(scheme_trees(*self))),
                first_refusal(scheme_trees(*self), positions_of(positions@), *proof, t as nat)
                    is None,
            decreases n - t,
        {
            match open_tree(self, t, positions, proof) {
                Err(error) => {
                    proof {
                        lemma_refusal_stays(
                            scheme_trees(*self),
                            positions_of(positions@),
                            *proof,
                            (t + 1) as nat,
                            n as nat,
                        );
                    }
                    return Err(VerificationError::Merkle(error));
                },
                Ok(_) => {},
            }
            t = t + 1;
        }
        Ok(())
    }

    /// Finds what is wrong before the samples are looked at.
    fn find_early(
        &self,
        proof: &StarkProof,
        channel: &mut stwo::core::channel::Blake2sChannel,
    ) -> (r: Result<(), VerificationError>)
        requires
            crate::channel::state(*old(channel)).can_mix(MAX_MIXES as nat),
        ensures
            finds(
                scheme_trees(*self),
                scheme_config(*self),
                *proof,
                crate::channel::state(*old(channel)),
                r,
                crate::channel::state(*final(channel)),
            ),
    {
        if !self.is_committable(proof) {
            return Err(VerificationError::NotCheckable);
        }
        let config: PcsConfig = config_of(self);
        let values: Vec<SecureField> = crate::oods::flatten_values(&proof.sampled_values());
        crate::channel::mix_felts(channel, &values);
        let _random_coeff: SecureField = crate::channel::draw_secure_felt(channel);
        let sizes: Vec<u32> = self.all_log_sizes();
        let bounds: Vec<u32> = list_bounds(&sizes, config);
        proof {
            lemma_degree_bounds(
                scheme_trees(*self),
                config,
                crate::stark_proof::proof_parts(*proof),
            );
        }
        let run: FriRun = match commit_fri(config, proof, &bounds, channel) {
            Err(error) => {
                return Err(VerificationError::Fri(error));
            },
            Ok(run) => run,
        };
        crate::channel::mix_u64(channel, crate::stark_proof::proof_of_work_of(proof));
        if crate::channel::trailing_zeros(channel) < config.pow_bits {
            return Err(VerificationError::ProofOfWork);
        }
        if !self.is_servable() || !self.is_each_tree_opened(proof) {
            return Err(VerificationError::NotCheckable);
        }
        let ghost log_sizes = fri_parts(run).log_sizes;
        let positions: Vec<(u32, Vec<usize>)> = sample_positions(run, channel);
        proof {
            lemma_positions(positions_of(positions@), log_sizes, all_sizes(scheme_trees(*self)));
        }
        match self.open_trees(&positions, proof) {
            Err(error) => Err(error),
            Ok(_) => Err(VerificationError::NotCheckable),
        }
    }

    /// Opens the committed columns at the points and checks the proof's values there.
    pub fn verify_values(
        &self,
        points: Vec<Vec<Vec<CirclePoint>>>,
        proof: StarkProof,
        channel: &mut stwo::core::channel::Blake2sChannel,
    ) -> (r: Result<(), VerificationError>)
        requires
            crate::channel::state(*old(channel)).can_mix(MAX_MIXES as nat),
        ensures
            opens(
                scheme_trees(*self),
                scheme_config(*self),
                crate::oods::nested(points@),
                proof,
                crate::channel::state(*old(channel)),
                r,
                crate::channel::state(*final(channel)),
            ),
    {
        if self.is_openable(&points, &proof) {
            open_values(self, points, proof, channel)
        } else {
            self.find_early(&proof, channel)
        }
    }
}

/// A refusal by one tree is not changed by later ones.
proof fn lemma_refusal_stays(
    trees: Seq<Tree>,
    positions: Seq<(u32, Seq<usize>)>,
    proof: StarkProof,
    n: nat,
    m: nat,
)
    requires
        n <= m,
        first_refusal(trees, positions, proof, n) is Some,
    ensures
        first_refusal(trees, positions, proof, m) == first_refusal(trees, positions, proof, n),
    decreases m,
{
    if n < m {
        lemma_refusal_stays(trees, positions, proof, n, (m - 1) as nat);
    }
}

} // verus!
