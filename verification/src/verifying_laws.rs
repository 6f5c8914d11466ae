//! Laws on verifying a proof.

use vstd::prelude::*;
use crate::channel::ChannelState;
use crate::circle::CirclePoint;
use crate::error::VerificationError;
use crate::field::Qm31;
use crate::pcs::Tree;
use crate::poly::SecureCirclePoly;
use crate::stark_proof::StarkProof;
use crate::verify::VerifierState;

verus! {

/// The last root that the proof has.
pub open spec fn last_root(proof: StarkProof) -> Seq<u8> {
    let roots = crate::stark_proof::proof_parts(proof).commitments;
    roots[roots.len() - 1]
}

/// The channel that the out-of-domain point is drawn from: it has absorbed the root.
pub open spec fn absorbed(channel: ChannelState, root: Seq<u8>) -> ChannelState {
    ChannelState {
        digest: crate::channel::mixed_root(channel.digest, root),
        draws: 0,
        challenges: channel.challenges + 1,
    }
}

/// The channel after one more element is drawn from it.
pub open spec fn drawn_from(channel: ChannelState) -> ChannelState {
    ChannelState {
        digest: channel.digest,
        draws: crate::channel::drawn_felt(channel.digest, channel.draws).1,
        challenges: channel.challenges,
    }
}

/// The element that is drawn next has minus one as its square, so that no point has it as its
/// parameter.
pub open spec fn draws_no_point(channel: ChannelState) -> bool {
    let t = crate::channel::drawn_felt(channel.digest, channel.draws).0@;
    t.times(t) == Qm31::base(0x7fff_fffe)
}

/// One tree is appended: it has the root and four columns of the size.
pub open spec fn is_appended(after: Seq<Tree>, trees: Seq<Tree>, root: Seq<u8>, size: int) -> bool {
    &&& after.len() == trees.len() + 1
    &&& forall|t: int| 0 <= t < trees.len() ==> #[trigger] after[t] == trees[t]
    &&& after[trees.len() as int].root == root
    &&& after[trees.len() as int].column_log_sizes.len() == 4
    &&& forall|c: int|
        0 <= c < 4 ==> #[trigger] after[trees.len() as int].column_log_sizes[c] == size
}

/// There is what verification starts from if and only if there are a tree, a component and a root.
pub proof fn law_ready(
    components: stwo::core::air::Components<'_>,
    trees: Seq<Tree>,
    proof: StarkProof,
)
    ensures
        crate::verify::ready(components, trees, proof) <==> {
            &&& trees.len() > 0
            &&& crate::air::component_count(components) > 0
            &&& crate::stark_proof::proof_parts(proof).commitments.len() > 0
        },
{
}

/// The composition polynomial's tree is committed with the last root of the proof and with four
/// columns of the bound and the blowup factor together, if that fits into 32 bits; the channel that
/// the point is drawn from has absorbed that root.
pub proof fn law_composition_is_read(start: VerifierState, proof: StarkProof, bound: u32)
    requires
        crate::stark_proof::proof_parts(proof).commitments.len() > 0,
    ensures
        crate::verify::before_point_of(start, proof) == absorbed(start.channel, last_root(proof)),
        crate::verify::before_point(start.channel, last_root(proof)) == absorbed(
            start.channel,
            last_root(proof),
        ),
        crate::verify::extendable(start.config, bound) <==> bound + start.config.log_blowup_factor
            <= 0xffff_ffff,
        bound + start.config.log_blowup_factor <= 0xffff_ffff ==> is_appended(
            crate::verify::with_composition_tree(
                start.trees,
                start.config,
                last_root(proof),
                bound,
            ),
            start.trees,
            last_root(proof),
            bound + start.config.log_blowup_factor,
        ),
{
}

/// An appended tree is determined.
proof fn lemma_appended(
    after: Seq<Tree>,
    other: Seq<Tree>,
    trees: Seq<Tree>,
    root: Seq<u8>,
    size: int,
)
    requires
        is_appended(after, trees, root, size),
        is_appended(other, trees, root, size),
    ensures
        after == other,
{
    let n = trees.len() as int;
    assert forall|t: int| 0 <= t < after.len() implies after[t] == other[t] by {
        if t < n {
            assert(after[t] == trees[t]);
            assert(other[t] == trees[t]);
        } else {
            assert forall|c: int| 0 <= c < 4 implies after[n].column_log_sizes[c]
                == other[n].column_log_sizes[c] by {
                assert(after[n].column_log_sizes[c] == size);
                assert(other[n].column_log_sizes[c] == size);
            }
            assert(after[n].column_log_sizes =~= other[n].column_log_sizes);
        }
    }
    assert(after =~= other);
}

/// Once the point is drawn and the mask is known, the verdict comes in this order: samples that do
/// not end in a row are refused for their structure, a row that does not fit is not checkable, a
/// row that gives another value than the polynomial takes is refused, and otherwise it is that of
/// opening the trees at the mask and the point.
pub open spec fn is_judged(
    trees: Seq<Tree>,
    start: VerifierState,
    mask: Seq<Seq<Seq<CirclePoint>>>,
    point: CirclePoint,
    proof: StarkProof,
    composition_polynomial: SecureCirclePoly,
    channel: ChannelState,
    verdict: Result<(), VerificationError>,
    after: ChannelState,
) -> bool {
    let values = crate::stark_proof::proof_parts(proof).sampled_values;
    let matches = crate::oods::composition_eval(values)@ == composition_polynomial.at(point);
    &&& !crate::sample_laws::ends_in_row(values) ==> {
        &&& verdict matches Err(VerificationError::InvalidStructure(reason))
        &&& reason@ == "Unexpected sampled_values structure"@
        &&& after == channel
    }
    &&& crate::sample_laws::ends_in_row(values) && !crate::sample_laws::row_fits(values) ==> {
        &&& verdict == Err::<(), VerificationError>(VerificationError::NotCheckable)
        &&& after == channel
    }
    &&& crate::sample_laws::ends_in_row(values) && crate::sample_laws::row_fits(values) && !matches
        ==> {
        &&& verdict == Err::<(), VerificationError>(VerificationError::OodsNotMatching)
        &&& after == channel
    }
    &&& crate::sample_laws::ends_in_row(values) && crate::sample_laws::row_fits(values) && matches
        ==> crate::pcs::opens(
        trees,
        start.config,
        crate::oods::with_composition(mask, point),
        proof,
        channel,
        verdict,
        after,
    )
}

proof fn lemma_decides(
    trees: Seq<Tree>,
    start: VerifierState,
    mask: Seq<Seq<Seq<CirclePoint>>>,
    point: CirclePoint,
    proof: StarkProof,
    composition_polynomial: SecureCirclePoly,
    channel: ChannelState,
    verdict: Result<(), VerificationError>,
    after: ChannelState,
)
    ensures
        crate::verify::decides(
            trees,
            start.config,
            mask,
            point,
            proof,
            composition_polynomial,
            channel,
            verdict,
            after,
        ) <==> is_judged(
            trees,
            start,
            mask,
            point,
            proof,
            composition_polynomial,
            channel,
            verdict,
            after,
        ),
{
    let values = crate::stark_proof::proof_parts(proof).sampled_values;
    crate::sample_laws::law_composition_row(values);
    if values.len() > 0 {
        crate::sample_laws::law_row_words(values);
    }
}

/// Checking the samples comes to a verdict in the stated order, whatever the arguments are.
pub proof fn law_samples_are_judged(
    start: VerifierState,
    mask: Seq<Seq<Seq<CirclePoint>>>,
    point: CirclePoint,
    proof: StarkProof,
    composition_polynomial: SecureCirclePoly,
    verdict: Result<(), VerificationError>,
    after: ChannelState,
)
    ensures
        crate::verify::decides(
            start.trees,
            start.config,
            mask,
            point,
            proof,
            composition_polynomial,
            start.channel,
            verdict,
            after,
        ) <==> is_judged(
            start.trees,
            start,
            mask,
            point,
            proof,
            composition_polynomial,
            start.channel,
            verdict,
            after,
        ),
{
    lemma_decides(
        start.trees,
        start,
        mask,
        point,
        proof,
        composition_polynomial,
        start.channel,
        verdict,
        after,
    );
}

/// The verdict once the components have stated a bound that can be extended and a point is drawn,
/// with a mask that they make up for as many preprocessed columns as the first committed tree has,
/// or with none.
pub open spec fn is_masked(
    start: VerifierState,
    mask: Option<Seq<Seq<Seq<CirclePoint>>>>,
    proof: StarkProof,
    composition_polynomial: SecureCirclePoly,
    verdict: Result<(), VerificationError>,
    end: VerifierState,
) -> bool {
    let before = absorbed(start.channel, last_root(proof));
    match mask {
        None => {
            &&& verdict == Err::<(), VerificationError>(VerificationError::NotCheckable)
            &&& end.channel == drawn_from(before)
        },
        Some(points) => is_judged(
            end.trees,
            start,
            points,
            before.point(),
            proof,
            composition_polynomial,
            drawn_from(before),
            verdict,
            end.channel,
        ),
    }
}

/// What verification comes to with a bound that the components state.
pub open spec fn comes_to(
    components: stwo::core::air::Components<'_>,
    start: VerifierState,
    bound: u32,
    proof: StarkProof,
    composition_polynomial: SecureCirclePoly,
    verdict: Result<(), VerificationError>,
    end: VerifierState,
) -> bool {
    let before = absorbed(start.channel, last_root(proof));
    let size = bound + start.config.log_blowup_factor;
    &&& size > 0xffff_ffff ==> {
        &&& verdict == Err::<(), VerificationError>(VerificationError::NotCheckable)
        &&& end == start
    }
    &&& size <= 0xffff_ffff ==> {
        &&& end.config == start.config
        &&& is_appended(end.trees, start.trees, last_root(proof), size)
    }
    &&& size <= 0xffff_ffff && draws_no_point(before) ==> {
        &&& verdict == Err::<(), VerificationError>(VerificationError::NotCheckable)
        &&& end.channel == before
    }
    &&& size <= 0xffff_ffff && !draws_no_point(before) ==> exists|
        mask: Option<Seq<Seq<Seq<CirclePoint>>>>,
    |
        #[trigger] crate::mask_laws::can_make_up(
            components,
            start.trees[0].column_log_sizes.len(),
            before.point(),
            mask,
        ) && is_masked(start, mask, proof, composition_polynomial, verdict, end)
}

/// What verification comes to: with some bound that the components state, the composition
/// polynomial's tree is appended, the point is drawn, and the samples are judged with a mask that
/// the components make up there for the preprocessed columns of the first committed tree.
pub proof fn law_verification(
    components: stwo::core::air::Components<'_>,
    start: VerifierState,
    proof: StarkProof,
    composition_polynomial: SecureCirclePoly,
    verdict: Result<(), VerificationError>,
    end: VerifierState,
)
    requires
        crate::stark_proof::proof_parts(proof).commitments.len() > 0,
    ensures
        crate::verify::verifies(components, start, proof, composition_polynomial, verdict, end)
            <==> exists|bound: u32|
            #[trigger] crate::air::states_bound(components, bound) && comes_to(
                components,
                start,
                bound,
                proof,
                composition_polynomial,
                verdict,
                end,
            ),
{
    let before = absorbed(start.channel, last_root(proof));
    let n = start.trees[0].column_log_sizes.len();
    crate::channel_laws::law_gives_point(before);
    if crate::verify::verifies(components, start, proof, composition_polynomial, verdict, end) {
        let (bound, mask) = choose|bound: u32, mask: Option<Seq<Seq<Seq<CirclePoint>>>>|
            #[trigger] crate::verify::answered(components, start, proof, bound, mask)
                && crate::verify::verification_run(
                start,
                bound,
                mask,
                proof,
                composition_polynomial,
                verdict,
                end,
            );
        law_composition_is_read(start, proof, bound);
        if bound + start.config.log_blowup_factor <= 0xffff_ffff && !draws_no_point(before) {
            crate::mask_laws::law_offered_masks(components, n, before.point(), mask);
            if mask is Some {
                lemma_decides(
                    end.trees,
                    start,
                    mask->0,
                    before.point(),
                    proof,
                    composition_polynomial,
                    drawn_from(before),
                    verdict,
                    end.channel,
                );
            }
            assert(is_masked(start, mask, proof, composition_polynomial, verdict, end));
        }
        assert(crate::air::states_bound(components, bound));
        assert(comes_to(components, start, bound, proof, composition_polynomial, verdict, end));
    }
    if exists|bound: u32|
        #[trigger] crate::air::states_bound(components, bound) && comes_to(
            components,
            start,
            bound,
            proof,
            composition_polynomial,
            verdict,
            end,
        ) {
        let bound = choose|bound: u32|
            #[trigger] crate::air::states_bound(components, bound) && comes_to(
                components,
                start,
                bound,
                proof,
                composition_polynomial,
                verdict,
                end,
            );
        law_composition_is_read(start, proof, bound);
        let size = bound + start.config.log_blowup_factor;
        if size <= 0xffff_ffff {
            lemma_appended(
                end.trees,
                crate::verify::with_composition_tree(
                    start.trees,
                    start.config,
                    last_root(proof),
                    bound,
                ),
                start.trees,
                last_root(proof),
                size,
            );
        }
        if size <= 0xffff_ffff && !draws_no_point(before) {
            let mask = choose|mask: Option<Seq<Seq<Seq<CirclePoint>>>>|
                #[trigger] crate::mask_laws::can_make_up(components, n, before.point(), mask)
                    && is_masked(start, mask, proof, composition_polynomial, verdict, end);
            crate::mask_laws::law_offered_masks(components, n, before.point(), mask);
            if mask is Some {
                lemma_decides(
                    end.trees,
                    start,
                    mask->0,
                    before.point(),
                    proof,
                    composition_polynomial,
                    drawn_from(before),
                    verdict,
                    end.channel,
                );
            }
            assert(crate::verify::answered(components, start, proof, bound, mask));
            assert(crate::verify::verification_run(
                start,
                bound,
                mask,
                proof,
                composition_polynomial,
                verdict,
                end,
            ));
        } else {
            assert(crate::verify::answered(components, start, proof, bound, None));
            assert(crate::verify::verification_run(
                start,
                bound,
                None,
                proof,
                composition_polynomial,
                verdict,
                end,
            ));
        }
    }
}

/// An accepted proof is opened at a mask whose first tree has as many columns as the first tree
/// that was committed, each sampled nowhere or at the drawn point alone; the mask is made up of
/// the components' answers there, and is followed by the four columns of the composition
/// polynomial.
pub proof fn law_preprocessed_columns_are_opened(
    components: stwo::core::air::Components<'_>,
    start: VerifierState,
    proof: StarkProof,
    composition_polynomial: SecureCirclePoly,
    verdict: Result<(), VerificationError>,
    end: VerifierState,
)
    requires
        crate::stark_proof::proof_parts(proof).commitments.len() > 0,
        crate::verify::verifies(components, start, proof, composition_polynomial, verdict, end),
        verdict is Ok,
    ensures
        ({
            let before = absorbed(start.channel, last_root(proof));
            exists|points: Seq<Seq<Seq<CirclePoint>>>|
                {
                    &&& (#[trigger] crate::pcs::opening_outcome(
                        end.trees,
                        start.config,
                        points,
                        proof,
                        drawn_from(before),
                    )).0 is Ok
                    &&& crate::opening_laws::fits(
                        end.trees,
                        start.config,
                        points,
                        crate::stark_proof::proof_parts(proof),
                    )
                    &&& points.len() >= 2
                    &&& points[0].len() == start.trees[0].column_log_sizes.len()
                    &&& crate::mask_laws::can_make_up(
                        components,
                        start.trees[0].column_log_sizes.len(),
                        before.point(),
                        Some(points.take(points.len() - 1)),
                    )
                    &&& points[points.len() - 1].len() == 4
                }
        }),
{
    let before = absorbed(start.channel, last_root(proof));
    let n = start.trees[0].column_log_sizes.len();
    law_verification(components, start, proof, composition_polynomial, verdict, end);
    let bound = choose|bound: u32|
        #[trigger] crate::air::states_bound(components, bound) && comes_to(
            components,
            start,
            bound,
            proof,
            composition_polynomial,
            verdict,
            end,
        );
    let mask = choose|mask: Option<Seq<Seq<Seq<CirclePoint>>>>|
        #[trigger] crate::mask_laws::can_make_up(components, n, before.point(), mask) && is_masked(
            start,
            mask,
            proof,
            composition_polynomial,
            verdict,
            end,
        );
    let points = crate::oods::with_composition(mask->0, before.point());
    crate::opening_laws::law_accepted_arguments_fit(
        end.trees,
        start.config,
        points,
        proof,
        drawn_from(before),
        verdict,
        end.channel,
    );
    crate::mask_laws::law_offered_masks(components, n, before.point(), mask);
    crate::mask_laws::law_first_tree_is_preprocessed(components, n, before.point(), mask->0);
    assert(points.take(points.len() - 1) =~= mask->0);
    assert(crate::pcs::opening_outcome(
        end.trees,
        start.config,
        points,
        proof,
        drawn_from(before),
    ).0 is Ok);
}

/// Components that always answer the same: they state one bound, and at the point one mask and one
/// list of indices for each component.
pub open spec fn always_answer(
    components: stwo::core::air::Components<'_>,
    bound: u32,
    point: CirclePoint,
    masks: Seq<Seq<Seq<Seq<CirclePoint>>>>,
    indices: Seq<Seq<usize>>,
) -> bool {
    &&& forall|other: u32| #[trigger] crate::air::states_bound(components, other) ==> other == bound
    &&& forall|other: Seq<Seq<Seq<Seq<CirclePoint>>>>, named: Seq<Seq<usize>>|
        #[trigger] crate::mask_laws::stated(components, point, other, named) ==> other == masks
            && named == indices
}

/// A proof that should be accepted is: with components that always answer the same, where the
/// bound can be extended, a point is drawn, the answers make up a mask for the preprocessed
/// columns of the first committed tree, the samples end in a row that fits and gives the value of
/// the polynomial at the point, and the arguments of opening fit, the verdict is that of
/// `CommitmentSchemeVerifier::verify_values` at the mask and the point.
pub proof fn law_good_proofs_are_opened(
    components: stwo::core::air::Components<'_>,
    start: VerifierState,
    proof: StarkProof,
    composition_polynomial: SecureCirclePoly,
    verdict: Result<(), VerificationError>,
    end: VerifierState,
    bound: u32,
    masks: Seq<Seq<Seq<Seq<CirclePoint>>>>,
    indices: Seq<Seq<usize>>,
    mask: Seq<Seq<Seq<CirclePoint>>>,
)
    requires
        crate::stark_proof::proof_parts(proof).commitments.len() > 0,
        crate::verify::verifies(components, start, proof, composition_polynomial, verdict, end),
        always_answer(
            components,
            bound,
            absorbed(start.channel, last_root(proof)).point(),
            masks,
            indices,
        ),
        bound + start.config.log_blowup_factor <= 0xffff_ffff,
        !draws_no_point(absorbed(start.channel, last_root(proof))),
        crate::mask_laws::made_up_of(
            masks,
            indices,
            start.trees[0].column_log_sizes.len(),
            absorbed(start.channel, last_root(proof)).point(),
            Some(mask),
        ),
        crate::sample_laws::ends_in_row(crate::stark_proof::proof_parts(proof).sampled_values),
        crate::sample_laws::row_fits(crate::stark_proof::proof_parts(proof).sampled_values),
        crate::oods::composition_eval(crate::stark_proof::proof_parts(proof).sampled_values)@
            == composition_polynomial.at(absorbed(start.channel, last_root(proof)).point()),
        crate::opening_laws::fits(
            end.trees,
            start.config,
            crate::oods::with_composition(
                mask,
                absorbed(start.channel, last_root(proof)).point(),
            ),
            crate::stark_proof::proof_parts(proof),
        ),
    ensures
        is_appended(
            end.trees,
            start.trees,
            last_root(proof),
            bound + start.config.log_blowup_factor,
        ),
        end.config == start.config,
        (verdict, end.channel) == crate::pcs::opening_outcome(
            end.trees,
            start.config,
            crate::oods::with_composition(
                mask,
                absorbed(start.channel, last_root(proof)).point(),
            ),
            proof,
            drawn_from(absorbed(start.channel, last_root(proof))),
        ),
{
    let before = absorbed(start.channel, last_root(proof));
    let n = start.trees[0].column_log_sizes.len();
    law_verification(components, start, proof, composition_polynomial, verdict, end);
    let stated = choose|bound: u32|
        #[trigger] crate::air::states_bound(components, bound) && comes_to(
            components,
            start,
            bound,
            proof,
            composition_polynomial,
            verdict,
            end,
        );
    assert(stated == bound);
    let other = choose|mask: Option<Seq<Seq<Seq<CirclePoint>>>>|
        #[trigger] crate::mask_laws::can_make_up(components, n, before.point(), mask) && is_masked(
            start,
            mask,
            proof,
            composition_polynomial,
            verdict,
            end,
        );
    let (answered, named) = choose|
        answered: Seq<Seq<Seq<Seq<CirclePoint>>>>,
        named: Seq<Seq<usize>>,
    |
        #[trigger] crate::mask_laws::stated(components, before.point(), answered, named)
            && crate::mask_laws::made_up_of(answered, named, n, before.point(), other);
    crate::mask_laws::law_mask_is_determined(masks, indices, n, before.point(), other);
    crate::mask_laws::law_mask_is_determined(masks, indices, n, before.point(), Some(mask));
    assert(other == Some(mask));
    crate::opening_laws::law_fitting_arguments_are_opened(
        end.trees,
        start.config,
        crate::oods::with_composition(mask, before.point()),
        proof,
        drawn_from(before),
        verdict,
        end.channel,
    );
}

/// The state of a verifier is that of its scheme and its channel.
pub proof fn law_verifier_state(
    scheme: crate::pcs::CommitmentSchemeVerifier,
    channel: stwo::core::channel::Blake2sChannel,
)
    ensures
        ({
            let state = crate::verify::verifier_state(scheme, channel);
            &&& state.trees == crate::pcs::scheme_trees(scheme)
            &&& state.config == crate::pcs::scheme_config(scheme)
            &&& state.channel.digest == crate::channel::channel_digest(channel)
            &&& state.channel.draws == crate::channel::channel_draws(channel)
            &&& state.channel.challenges == crate::channel::channel_challenges(channel)
        }),
{
}

} // verus!
