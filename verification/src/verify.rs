//! Verification of a proof with the composition polynomial in hand.
//!
//! The verifier draws the coefficient of the constraints, reads the commitment of the composition
//! polynomial, draws a point out of the domain, compares the polynomial with the sampled values
//! there, and opens the committed trees.

use vstd::prelude::*;
use crate::channel::ChannelState;
use crate::circle::CirclePoint;
use crate::error::VerificationError;
use crate::field::SecureField;
use crate::pcs::CommitmentSchemeVerifier;
use crate::pcs::PcsConfig;
use crate::pcs::Tree;
use crate::poly::SecureCirclePoly;
use crate::stark_proof::StarkProof;

verus! {

/// The tree of the preprocessed columns.
pub const PREPROCESSED_TRACE_IDX: usize = 0;

/// What a scheme and a channel hold.
pub struct VerifierState {
    pub trees: Seq<Tree>,
    pub config: PcsConfig,
    pub channel: ChannelState,
}

/// The state of a verifier.
pub open spec fn verifier_state(
    scheme: CommitmentSchemeVerifier,
    channel: stwo::core::channel::Blake2sChannel,
) -> VerifierState {
    VerifierState {
        trees: crate::pcs::scheme_trees(scheme),
        config: crate::pcs::scheme_config(scheme),
        channel: crate::channel::state(channel),
    }
}

/// The trees once the composition polynomial is committed: four more columns, all of the degree
/// bound extended by the blowup factor.
pub open spec fn with_composition_tree(
    trees: Seq<Tree>,
    config: PcsConfig,
    root: Seq<u8>,
    bound: u32,
) -> Seq<Tree> {
    trees.push(
        Tree {
            root,
            column_log_sizes: crate::pcs::extended(seq![bound, bound, bound, bound], config),
        },
    )
}

/// The channel when the out-of-domain point is drawn: it has handed out the coefficient of the
/// constraints and absorbed the root of the composition polynomial.
pub open spec fn before_point(channel: ChannelState, root: Seq<u8>) -> ChannelState {
    channel.after_draw().after_root(root)
}

/// The bound can be extended by the blowup factor.
pub open spec fn extendable(config: PcsConfig, bound: u32) -> bool {
    bound + config.log_blowup_factor <= u32::MAX
}

/// The channel's counts leave room for a verification.
pub open spec fn has_room(channel: ChannelState) -> bool {
    channel.can_draw() && channel.can_mix(crate::pcs::MAX_MIXES as nat + 1)
}

/// Draws the coefficient of the constraints, reads the commitment of the composition polynomial
/// and draws the out-of-domain point, unless the channel hands out no parameter of one. Where the
/// bound cannot be extended, nothing is done.
pub fn read_composition(
    scheme: &mut CommitmentSchemeVerifier,
    commitment: [u8; 32],
    bound: u32,
    channel: &mut stwo::core::channel::Blake2sChannel,
) -> (r: Option<CirclePoint>)
    requires
        crate::channel::state(*old(channel)).can_draw(),
        crate::channel::state(*old(channel)).can_mix(1),
    ensures
        ({
            let start = verifier_state(*old(scheme), *old(channel));
            let end = verifier_state(*final(scheme), *final(channel));
            let before = before_point(start.channel, commitment@);
            if !extendable(start.config, bound) {
                r is None && end == start
            } else {
                &&& end.config == start.config
                &&& end.trees == with_composition_tree(
                    start.trees,
                    start.config,
                    commitment@,
                    bound,
                )
                &&& if before.gives_point() {
                    r == Some(before.point()) && end.channel == before.after_draw()
                } else {
                    r is None && end.channel == before
                }
            }
        }),
        r matches Some(point) ==> point.wf() && point.on_circle(),
{
    if bound > u32::MAX - scheme.config().log_blowup_factor {
        return None;
    }
    let _random_coeff: SecureField = crate::channel::draw_secure_felt(channel);
    let log_sizes: Vec<u32> = vec![bound, bound, bound, bound];
    assert(log_sizes@ =~= seq![bound, bound, bound, bound]);
    scheme.commit(commitment, &log_sizes, channel);
    let ghost before = crate::channel::state(*channel);
    let r: Option<CirclePoint> = crate::channel::draw_point(channel);
    proof {
        if before.gives_point() {
            crate::circle::lemma_on_circle(before.point(), before.felt()@);
        }
    }
    r
}

/// The verdict on a proof once the out-of-domain point is drawn and the mask is known: the
/// sampled values have a row for the composition polynomial, it takes their value at the point,
/// and the trees open to them. `after` is the channel that is left.
pub open spec fn decides(
    trees: Seq<Tree>,
    config: PcsConfig,
    mask: Seq<Seq<Seq<CirclePoint>>>,
    point: CirclePoint,
    proof: StarkProof,
    composition_polynomial: SecureCirclePoly,
    channel: ChannelState,
    verdict: Result<(), VerificationError>,
    after: ChannelState,
) -> bool {
    let parts = crate::stark_proof::proof_parts(proof);
    if !crate::oods::has_composition_row(parts.sampled_values) {
        &&& verdict matches Err(VerificationError::InvalidStructure(reason))
        &&& reason@ == "Unexpected sampled_values structure"@
        &&& after == channel
    } else if !crate::oods::combinable_row(parts.sampled_values) {
        verdict == Err::<(), VerificationError>(VerificationError::NotCheckable) && after == channel
    } else if crate::oods::composition_eval(parts.sampled_values)@ != composition_polynomial.at(
        point,
    ) {
        &&& verdict == Err::<(), VerificationError>(VerificationError::OodsNotMatching)
        &&& after == channel
    } else {
        crate::pcs::opens(
            trees,
            config,
            crate::oods::with_composition(mask, point),
            proof,
            channel,
            verdict,
            after,
        )
    }
}

/// Decides on a proof once the out-of-domain point is drawn and the mask is known.
pub fn check_samples(
    scheme: &CommitmentSchemeVerifier,
    mask: Vec<Vec<Vec<CirclePoint>>>,
    point: CirclePoint,
    proof: StarkProof,
    composition_polynomial: &SecureCirclePoly,
    channel: &mut stwo::core::channel::Blake2sChannel,
) -> (r: Result<(), VerificationError>)
    requires
        point.wf(),
        crate::channel::state(*old(channel)).can_mix(crate::pcs::MAX_MIXES as nat),
    ensures
        decides(
            crate::pcs::scheme_trees(*scheme),
            crate::pcs::scheme_config(*scheme),
            crate::oods::nested(mask@),
            point,
            proof,
            *composition_polynomial,
            crate::channel::state(*old(channel)),
            r,
            crate::channel::state(*final(channel)),
        ),
{
    let sample_points: Vec<Vec<Vec<CirclePoint>>> = crate::oods::sample_points(mask, point);
    let values: Vec<Vec<Vec<SecureField>>> = proof.sampled_values();
    if crate::oods::is_composition_row_present(&values) && !crate::oods::is_row_combinable(
        &values,
    ) {
        return Err(VerificationError::NotCheckable);
    }
    match crate::oods::extract_composition_oods_eval(&values) {
        None => Err(
            VerificationError::InvalidStructure("Unexpected sampled_values structure".to_string()),
        ),
        Some(composition_oods_eval) => {
            let eval: SecureField = composition_polynomial.eval_at_point(point);
            proof {
                crate::field::lemma_view_injective(composition_oods_eval, eval);
            }
            if composition_oods_eval != eval {
                return Err(VerificationError::OodsNotMatching);
            }
            scheme.verify_values(sample_points, proof, channel)
        },
    }
}

/// There is what verification starts from: a tree of preprocessed columns, a component, and a
/// commitment in the proof.
pub open spec fn ready(
    components: stwo::core::air::Components<'_>,
    trees: Seq<Tree>,
    proof: StarkProof,
) -> bool {
    &&& trees.len() > PREPROCESSED_TRACE_IDX
    &&& crate::air::component_count(components) > 0
    &&& crate::stark_proof::proof_parts(proof).commitments.len() > 0
}

/// Tests whether there is what verification starts from.
pub fn is_ready(
    components: &stwo::core::air::Components<'_>,
    commitment_scheme: &CommitmentSchemeVerifier,
    proof: &StarkProof,
) -> (r: bool)
    ensures
        r == ready(*components, crate::pcs::scheme_trees(*commitment_scheme), *proof),
{
    commitment_scheme.column_log_sizes().len() > PREPROCESSED_TRACE_IDX
        && crate::air::count_components(components) > 0 && proof.commitments().len() > 0
}

/// The channel when the out-of-domain point of a proof is drawn.
pub open spec fn before_point_of(start: VerifierState, proof: StarkProof) -> ChannelState {
    before_point(start.channel, crate::stark_proof::proof_parts(proof).commitments.last())
}

/// The run of verification from one state to another, with the degree bound and the mask that
/// the components gave, or with no mask if their answers made up none.
pub open spec fn verification_run(
    start: VerifierState,
    bound: u32,
    mask: Option<Seq<Seq<Seq<CirclePoint>>>>,
    proof: StarkProof,
    composition_polynomial: SecureCirclePoly,
    verdict: Result<(), VerificationError>,
    end: VerifierState,
) -> bool {
    let root = crate::stark_proof::proof_parts(proof).commitments.last();
    let before = before_point_of(start, proof);
    if !extendable(start.config, bound) {
        verdict == Err::<(), VerificationError>(VerificationError::NotCheckable) && end == start
    } else {
        &&& end.config == start.config
        &&& end.trees == with_composition_tree(start.trees, start.config, root, bound)
        &&& if !before.gives_point() {
            &&& verdict == Err::<(), VerificationError>(VerificationError::NotCheckable)
            &&& end.channel == before
        } else {
            match mask {
                None => {
                    &&& verdict == Err::<(), VerificationError>(VerificationError::NotCheckable)
                    &&& end.channel == before.after_draw()
                },
                Some(points) => decides(
                    end.trees,
                    end.config,
                    points,
                    before.point(),
                    proof,
                    composition_polynomial,
                    before.after_draw(),
                    verdict,
                    end.channel,
                ),
            }
        }
    }
}

/// The components can state this bound, and, if a point is drawn, can offer this mask at it for
/// the preprocessed columns that are committed.
pub open spec fn answered(
    components: stwo::core::air::Components<'_>,
    start: VerifierState,
    proof: StarkProof,
    bound: u32,
    mask: Option<Seq<Seq<Seq<CirclePoint>>>>,
) -> bool {
    let before = before_point_of(start, proof);
    &&& crate::air::states_bound(components, bound)
    &&& extendable(start.config, bound) && before.gives_point() ==> crate::air::offers(
        components,
        start.trees[PREPROCESSED_TRACE_IDX as int].column_log_sizes.len(),
        before.point(),
        mask,
    )
}

/// What verification comes to: a run with a bound and a mask that the components can give.
pub open spec fn verifies(
    components: stwo::core::air::Components<'_>,
    start: VerifierState,
    proof: StarkProof,
    composition_polynomial: SecureCirclePoly,
    verdict: Result<(), VerificationError>,
    end: VerifierState,
) -> bool {
    exists|bound: u32, mask: Option<Seq<Seq<Seq<CirclePoint>>>>|
        #[trigger] answered(components, start, proof, bound, mask) && verification_run(
            start,
            bound,
            mask,
            proof,
            composition_polynomial,
            verdict,
            end,
        )
}

/// Verifies a proof with the composition polynomial in hand.
///
/// The components give a degree bound and a mask, and these and the arguments determine verdict,
/// scheme and channel. The queries that the opening draws and the sizes it reads are not handed
/// out, since `CommitmentSchemeVerifier::verify_values` of stwo keeps them to itself.
pub fn verify_with_queries(
    components: &stwo::core::air::Components<'_>,
    channel: &mut stwo::core::channel::Blake2sChannel,
    commitment_scheme: &mut CommitmentSchemeVerifier,
    proof: StarkProof,
    composition_polynomial: SecureCirclePoly,
) -> (r: Result<(), VerificationError>)
    requires
        ready(*components, crate::pcs::scheme_trees(*old(commitment_scheme)), proof),
        has_room(crate::channel::state(*old(channel))),
    ensures
        verifies(
            *components,
            verifier_state(*old(commitment_scheme), *old(channel)),
            proof,
            composition_polynomial,
            r,
            verifier_state(*final(commitment_scheme), *final(channel)),
        ),
{
    let ghost start = verifier_state(*commitment_scheme, *channel);
    let log_sizes: Vec<Vec<u32>> = commitment_scheme.column_log_sizes();
    let commitments: Vec<[u8; 32]> = proof.commitments();
    let n_preprocessed_columns: usize = log_sizes[PREPROCESSED_TRACE_IDX].len();
    let bound: u32 = crate::air::composition_log_degree_bound(components);
    let commitment: [u8; 32] = commitments[commitments.len() - 1];
    match read_composition(commitment_scheme, commitment, bound, channel) {
        None => {
            assert(answered(*components, start, proof, bound, None));
            Err(VerificationError::NotCheckable)
        },
        Some(oods_point) => {
            match crate::air::mask_points(components, n_preprocessed_columns, oods_point) {
                None => {
                    assert(answered(*components, start, proof, bound, None));
                    Err(VerificationError::NotCheckable)
                },
                Some(mask) => {
                    let ghost points = crate::oods::nested(mask@);
                    assert(answered(*components, start, proof, bound, Some(points)));
                    check_samples(
                        commitment_scheme,
                        mask,
                        oods_point,
                        proof,
                        &composition_polynomial,
                        channel,
                    )
                },
            }
        },
    }
}

/// Verifies a proof with the composition polynomial in hand, if there is what verification starts
/// from. Otherwise the proof cannot be checked and nothing changes.
pub fn verify(
    components: &stwo::core::air::Components<'_>,
    channel: &mut stwo::core::channel::Blake2sChannel,
    commitment_scheme: &mut CommitmentSchemeVerifier,
    proof: StarkProof,
    composition_polynomial: SecureCirclePoly,
) -> (r: Result<(), VerificationError>)
    requires
        has_room(crate::channel::state(*old(channel))),
    ensures
        ({
            let start = verifier_state(*old(commitment_scheme), *old(channel));
            let end = verifier_state(*final(commitment_scheme), *final(channel));
            if ready(*components, start.trees, proof) {
                verifies(*components, start, proof, composition_polynomial, r, end)
            } else {
                &&& r == Err::<(), VerificationError>(VerificationError::NotCheckable)
                &&& end == start
            }
        }),
{
    if !is_ready(components, commitment_scheme, &proof) {
        return Err(VerificationError::NotCheckable);
    }
    verify_with_queries(components, channel, commitment_scheme, proof, composition_polynomial)
}

} // verus!
