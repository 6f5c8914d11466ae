//! Laws that tie proving and verifying together.

use vstd::prelude::*;
use crate::channel::ChannelState;
use crate::circle::CirclePoint;
use crate::error::VerificationError;
use crate::field::SecureField;
use crate::pcs::PcsConfig;
use crate::pcs::Tree;
use crate::poly::SecureCirclePoly;
use crate::prove::ProveAction;
use crate::prove::ProveEvent;
use crate::prove::ProveStage;
use crate::stark_proof::StarkProof;
use crate::verify::VerifierState;

verus! {

/// Prover and verifier sample alike: from the same channel and the same root of the composition
/// polynomial, both draw the same coefficient and the same out-of-domain point. Where the
/// components give both the same mask, the verifier decides at the prover's point, from the
/// channel state that the prover's opening starts from, and opens the trees at the very points
/// that the prover was told to open them at.
pub proof fn law_prover_and_verifier_sample_alike(
    components: stwo::core::air::Components<'_>,
    start: VerifierState,
    n_preprocessed_columns: usize,
    committing: ProveStage,
    commit: ProveAction,
    drawn: ChannelState,
    composition_polynomial: SecureCirclePoly,
    opening: ProveStage,
    open: ProveAction,
    opened: ChannelState,
    bound: u32,
    mask: Option<Seq<Seq<Seq<CirclePoint>>>>,
    proof: StarkProof,
    verdict: Result<(), VerificationError>,
    end: VerifierState,
)
    requires
        crate::prove::step(
            components,
            start.channel,
            ProveStage::Start,
            ProveEvent::Begin { n_preprocessed_columns },
            committing,
            commit,
            drawn,
        ),
        crate::prove::step(
            components,
            drawn.after_root(crate::stark_proof::proof_parts(proof).commitments.last()),
            committing,
            ProveEvent::CompositionCommitted { composition_polynomial },
            opening,
            open,
            opened,
        ),
        opening is Opening,
        crate::verify::extendable(start.config, bound),
        crate::verify::verification_run(
            start,
            bound,
            mask,
            proof,
            composition_polynomial,
            verdict,
            end,
        ),
    ensures
        opening->Opening_random_coeff == start.channel.felt(),
        opening->oods_point == crate::verify::before_point_of(start, proof).point(),
        opened == crate::verify::before_point_of(start, proof).after_draw(),
        open is ProveValues,
        mask matches Some(points) ==> {
            &&& crate::verify::decides(
                end.trees,
                end.config,
                points,
                opening->oods_point,
                proof,
                composition_polynomial,
                opened,
                verdict,
                end.channel,
            )
            &&& crate::oods::nested(open->sample_points@) == crate::oods::with_composition(
                points,
                opening->oods_point,
            ) && verdict is Ok ==> crate::pcs::opens(
                end.trees,
                end.config,
                crate::oods::nested(open->sample_points@),
                proof,
                opened,
                verdict,
                end.channel,
            )
        },
{
}

/// A proof is accepted if and only if its samples have a row for the
/// composition polynomial that can be combined, the polynomial takes the value that they give at the out-of-domain
/// point, and the trees, with that of the composition polynomial appended, open at the mask and
/// the point.
pub proof fn law_accepted(
    start: VerifierState,
    bound: u32,
    mask: Seq<Seq<Seq<CirclePoint>>>,
    proof: StarkProof,
    composition_polynomial: SecureCirclePoly,
    verdict: Result<(), VerificationError>,
    end: VerifierState,
)
    requires
        crate::verify::verification_run(
            start,
            bound,
            Some(mask),
            proof,
            composition_polynomial,
            verdict,
            end,
        ),
        crate::verify::extendable(start.config, bound),
        crate::verify::before_point_of(start, proof).gives_point(),
    ensures
        ({
            let parts = crate::stark_proof::proof_parts(proof);
            let before = crate::verify::before_point_of(start, proof);
            let points = crate::oods::with_composition(mask, before.point());
            let trees = crate::verify::with_composition_tree(
                start.trees,
                start.config,
                parts.commitments.last(),
                bound,
            );
            verdict is Ok <==> {
                &&& crate::oods::has_composition_row(parts.sampled_values)
                &&& crate::oods::combinable_row(parts.sampled_values)
                &&& crate::oods::composition_eval(parts.sampled_values)@
                    == composition_polynomial.at(before.point())
                &&& crate::pcs::openable(trees, start.config, points, parts)
                &&& crate::pcs::opening_outcome(
                    trees,
                    start.config,
                    points,
                    proof,
                    before.after_draw(),
                ).0 is Ok
            }
        }),
{
}

/// When each refusal comes before the trees are opened: the structure is refused if and only if
/// the samples have no row for the composition polynomial, and the polynomial is refused if and
/// only if there is such a row that can be combined and it gives another value than the polynomial
/// takes.
pub proof fn law_refused(
    start: VerifierState,
    bound: u32,
    mask: Seq<Seq<Seq<CirclePoint>>>,
    proof: StarkProof,
    composition_polynomial: SecureCirclePoly,
    verdict: Result<(), VerificationError>,
    end: VerifierState,
)
    requires
        crate::verify::verification_run(
            start,
            bound,
            Some(mask),
            proof,
            composition_polynomial,
            verdict,
            end,
        ),
        crate::verify::extendable(start.config, bound),
        crate::verify::before_point_of(start, proof).gives_point(),
    ensures
        ({
            let parts = crate::stark_proof::proof_parts(proof);
            let point = crate::verify::before_point_of(start, proof).point();
            &&& (verdict matches Err(e) && e is InvalidStructure)
                <==> !crate::oods::has_composition_row(parts.sampled_values)
            &&& (verdict matches Err(e) && e is OodsNotMatching) <==> {
                &&& crate::oods::has_composition_row(parts.sampled_values)
                &&& crate::oods::combinable_row(parts.sampled_values)
                &&& crate::oods::composition_eval(parts.sampled_values)@
                    != composition_polynomial.at(point)
            }
        }),
{
}

/// Samples whose last row holds the values of a polynomial's coordinates at a point have a row
/// for the composition polynomial, and give the value of the polynomial at the point.
pub proof fn law_own_samples_match(
    values: Seq<Seq<Seq<SecureField>>>,
    composition_polynomial: SecureCirclePoly,
    point: CirclePoint,
)
    requires
        values.len() > 0,
        values.last().len() == 4,
        forall|k: int|
            0 <= k < 4 ==> (#[trigger] values.last()[k]).len() == 1 && values.last()[k][0]@
                == composition_polynomial.0@[k].at(point),
    ensures
        crate::oods::has_composition_row(values),
        crate::oods::combinable_row(values),
        crate::oods::composition_eval(values)@ == composition_polynomial.at(point),
{
    let first = values.last()[0][0];
    crate::poly::lemma_value_reduced(composition_polynomial.0@[0], point);
    crate::field::lemma_view_injective(first, first);
    crate::field::lemma_combined(
        first,
        values.last()[1][0],
        values.last()[2][0],
        values.last()[3][0],
    );
    assert(values.last()[0].len() == 1);
    assert(values.last()[1].len() == 1);
    assert(values.last()[2].len() == 1);
    assert(values.last()[3].len() == 1);
}

/// What proving delivers, verifying does not hold against the polynomial: where proving ran from
/// the channel that verifying starts from, handed out a polynomial, and the opened values hold the
/// values of the committed polynomial's coordinates at the out-of-domain point, the handed out
/// polynomial is the committed one, and the verifier's verdict is that of opening the trees.
pub proof fn law_delivered_is_opened(
    components: stwo::core::air::Components<'_>,
    start: VerifierState,
    n_preprocessed_columns: usize,
    committing: ProveStage,
    commit: ProveAction,
    drawn: ChannelState,
    composition_polynomial: SecureCirclePoly,
    opening: ProveStage,
    open: ProveAction,
    opened: ChannelState,
    sampled_values: Vec<Vec<Vec<SecureField>>>,
    proved: ChannelState,
    finished: ProveStage,
    delivered: SecureCirclePoly,
    bound: u32,
    mask: Seq<Seq<Seq<CirclePoint>>>,
    proof: StarkProof,
    verdict: Result<(), VerificationError>,
    end: VerifierState,
)
    requires
        crate::prove::step(
            components,
            start.channel,
            ProveStage::Start,
            ProveEvent::Begin { n_preprocessed_columns },
            committing,
            commit,
            drawn,
        ),
        crate::prove::step(
            components,
            drawn.after_root(crate::stark_proof::proof_parts(proof).commitments.last()),
            committing,
            ProveEvent::CompositionCommitted { composition_polynomial },
            opening,
            open,
            opened,
        ),
        crate::prove::step(
            components,
            proved,
            opening,
            ProveEvent::ValuesProved { sampled_values },
            finished,
            ProveAction::Deliver { composition_polynomial: delivered },
            proved,
        ),
        crate::stark_proof::proof_parts(proof).sampled_values == crate::oods::nested(
            sampled_values@,
        ),
        forall|k: int|
            0 <= k < 4 ==> (#[trigger] crate::oods::nested(sampled_values@).last()[k])[0]@
                == composition_polynomial.0@[k].at(opening->oods_point),
        crate::verify::extendable(start.config, bound),
        crate::verify::verification_run(
            start,
            bound,
            Some(mask),
            proof,
            delivered,
            verdict,
            end,
        ),
    ensures
        delivered == composition_polynomial,
        crate::pcs::opens(
            end.trees,
            end.config,
            crate::oods::with_composition(mask, opening->oods_point),
            proof,
            opened,
            verdict,
            end.channel,
        ),
{
    law_own_samples_match(
        crate::oods::nested(sampled_values@),
        composition_polynomial,
        opening->oods_point,
    );
}

/// Proving hands out a polynomial if and only if the opened values have a row for the composition
/// polynomial that can be combined, and it gives the value that the components compute; and then it
/// hands out the polynomial that was committed. The constraints are said not to be satisfied if
/// and only if there is such a row and it gives another value.
pub proof fn law_delivered(
    values: Seq<Seq<Seq<SecureField>>>,
    expected: SecureField,
    composition_polynomial: SecureCirclePoly,
    action: ProveAction,
)
    requires
        crate::prove::concludes(values, expected, composition_polynomial, action),
    ensures
        action is Deliver <==> {
            &&& crate::oods::has_composition_row(values)
            &&& crate::oods::combinable_row(values)
            &&& crate::oods::composition_eval(values)@ == expected@
        },
        action is Reject <==> {
            &&& crate::oods::has_composition_row(values)
            &&& crate::oods::combinable_row(values)
            &&& crate::oods::composition_eval(values)@ != expected@
        },
        action is Deliver ==> action == (ProveAction::Deliver { composition_polynomial }),
{
}

/// Delivered values are shaped as the mask that the components can offer at the out-of-domain
/// point, with one value for each point and the row of the composition polynomial last; all are
/// canonical, and the row gives a value that the components can compute from them at that point
/// with the coefficient that was drawn first.
pub proof fn law_delivered_values_fit(
    components: stwo::core::air::Components<'_>,
    channel: ChannelState,
    opening: ProveStage,
    sampled_values: Vec<Vec<Vec<SecureField>>>,
    next: ProveStage,
    action: ProveAction,
    after: ChannelState,
)
    requires
        opening is Opening,
        opening.wf(components),
        crate::prove::step(
            components,
            channel,
            opening,
            ProveEvent::ValuesProved { sampled_values },
            next,
            action,
            after,
        ),
        action is Deliver,
    ensures
        ({
            let values = crate::oods::nested(sampled_values@);
            &&& crate::air::values_fit(components, opening->oods_point, values)
            &&& crate::oods::canonical_values(values)
            &&& crate::oods::has_composition_row(values)
            &&& exists|expected: SecureField|
                #[trigger] crate::air::states_value(
                    components,
                    opening->oods_point,
                    values,
                    opening->Opening_random_coeff,
                    expected,
                ) && crate::oods::composition_eval(values)@ == expected@
        }),
{
    let points = crate::oods::nested(opening->sample_points@);
    let n = opening->Opening_n_preprocessed_columns as nat;
    let mask = choose|mask: Seq<Seq<Seq<CirclePoint>>>|
        #[trigger] crate::air::offers(components, n, opening->oods_point, Some(mask)) && points
            == crate::oods::with_composition(mask, opening->oods_point);
    assert(crate::air::offers(components, n, opening->oods_point, Some(mask)));
}

/// Values with the shape of the sample points, one value for each point, always have a row for
/// the composition polynomial.
pub proof fn law_shaped_values_have_row(
    mask: Seq<Seq<Seq<CirclePoint>>>,
    point: CirclePoint,
    values: Seq<Seq<Seq<SecureField>>>,
)
    requires
        crate::oods::same_samples(crate::oods::with_composition(mask, point), values),
    ensures
        crate::oods::has_composition_row(values),
{
    let points = crate::oods::with_composition(mask, point);
    let last = values.len() - 1;
    assert(points[last].len() == values[last].len());
    assert forall|c: int| 0 <= c < 4 implies (#[trigger] values.last()[c]).len() == 1 by {
        assert(points[last][c].len() == values[last][c].len());
    }
}

/// Committing to the composition polynomial appends one tree of four columns of the extended
/// bound, under the given root, and leaves the earlier trees as they are.
pub proof fn law_composition_tree_is_appended(
    trees: Seq<Tree>,
    config: PcsConfig,
    root: Seq<u8>,
    bound: u32,
)
    requires
        crate::verify::extendable(config, bound),
    ensures
        ({
            let after = crate::verify::with_composition_tree(trees, config, root, bound);
            &&& after.len() == trees.len() + 1
            &&& after.take(trees.len() as int) == trees
            &&& after.last().root == root
            &&& after.last().column_log_sizes.len() == 4
            &&& forall|c: int|
                0 <= c < 4 ==> #[trigger] after.last().column_log_sizes[c] == bound
                    + config.log_blowup_factor
        }),
{
    let after = crate::verify::with_composition_tree(trees, config, root, bound);
    assert(after.take(trees.len() as int) =~= trees);
}

/// Two verdicts say the same: both accept, or both refuse for the same reason.
pub open spec fn same_verdict(
    verdict: Result<(), VerificationError>,
    other: Result<(), VerificationError>,
) -> bool {
    match (verdict, other) {
        (
            Err(VerificationError::InvalidStructure(reason)),
            Err(VerificationError::InvalidStructure(other_reason)),
        ) => reason@ == other_reason@,
        _ => verdict == other,
    }
}

/// Nothing else decides: two runs from the same state on the same proof and polynomial, with the
/// same bound and mask, end in the same state with the same verdict.
pub proof fn law_run_is_determined(
    start: VerifierState,
    bound: u32,
    mask: Option<Seq<Seq<Seq<CirclePoint>>>>,
    proof: StarkProof,
    composition_polynomial: SecureCirclePoly,
    verdict: Result<(), VerificationError>,
    end: VerifierState,
    other_verdict: Result<(), VerificationError>,
    other_end: VerifierState,
)
    requires
        crate::verify::verification_run(
            start,
            bound,
            mask,
            proof,
            composition_polynomial,
            verdict,
            end,
        ),
        crate::verify::verification_run(
            start,
            bound,
            mask,
            proof,
            composition_polynomial,
            other_verdict,
            other_end,
        ),
    ensures
        end == other_end,
        same_verdict(verdict, other_verdict),
{
}

/// Two sets of components can state the same bounds and offer the same masks.
pub open spec fn answer_alike(
    components: stwo::core::air::Components<'_>,
    other: stwo::core::air::Components<'_>,
) -> bool {
    &&& forall|bound: u32|
        #[trigger] crate::air::states_bound(components, bound) == crate::air::states_bound(
            other,
            bound,
        )
    &&& forall|n: nat, point: CirclePoint, mask: Option<Seq<Seq<Seq<CirclePoint>>>>|
        #[trigger] crate::air::offers(components, n, point, mask) == crate::air::offers(
            other,
            n,
            point,
            mask,
        )
}

/// Components can state one bound only, and offer one mask only at a point.
pub open spec fn answer_once(components: stwo::core::air::Components<'_>) -> bool {
    &&& forall|bound: u32, other: u32|
        #[trigger] crate::air::states_bound(components, bound)
            && #[trigger] crate::air::states_bound(components, other) ==> bound == other
    &&& forall|
        n: nat,
        point: CirclePoint,
        mask: Option<Seq<Seq<Seq<CirclePoint>>>>,
        other: Option<Seq<Seq<Seq<CirclePoint>>>>,
    |
        #[trigger] crate::air::offers(components, n, point, mask)
            && #[trigger] crate::air::offers(components, n, point, other) ==> mask == other
}

/// To verification, components count only through the bounds and masks that they give: what it can
/// come to with one set of components, it can come to with another that answers alike.
pub proof fn law_components_count_through_answers(
    components: stwo::core::air::Components<'_>,
    other: stwo::core::air::Components<'_>,
    start: VerifierState,
    proof: StarkProof,
    composition_polynomial: SecureCirclePoly,
    verdict: Result<(), VerificationError>,
    end: VerifierState,
)
    requires
        answer_alike(components, other),
        crate::verify::verifies(
            components,
            start,
            proof,
            composition_polynomial,
            verdict,
            end,
        ),
    ensures
        crate::verify::verifies(other, start, proof, composition_polynomial, verdict, end),
{
    let (bound, mask) = choose|bound: u32, mask: Option<Seq<Seq<Seq<CirclePoint>>>>|
        #[trigger] crate::verify::answered(components, start, proof, bound, mask)
            && crate::verify::verification_run(
            start,
            bound,
            mask,
            proof,
            composition_polynomial,
            verdict,
            end,
        );
    assert(crate::verify::answered(other, start, proof, bound, mask));
}

/// Verification with components that answer alike, and always the same, gives the same verdict and
/// leaves the same scheme and channel.
pub proof fn law_verification_is_determined(
    components: stwo::core::air::Components<'_>,
    other: stwo::core::air::Components<'_>,
    start: VerifierState,
    proof: StarkProof,
    composition_polynomial: SecureCirclePoly,
    verdict: Result<(), VerificationError>,
    end: VerifierState,
    other_verdict: Result<(), VerificationError>,
    other_end: VerifierState,
)
    requires
        answer_alike(components, other),
        answer_once(components),
        crate::verify::verifies(
            components,
            start,
            proof,
            composition_polynomial,
            verdict,
            end,
        ),
        crate::verify::verifies(
            other,
            start,
            proof,
            composition_polynomial,
            other_verdict,
            other_end,
        ),
    ensures
        end == other_end,
        same_verdict(verdict, other_verdict),
{
    let (bound, mask) = choose|bound: u32, mask: Option<Seq<Seq<Seq<CirclePoint>>>>|
        #[trigger] crate::verify::answered(components, start, proof, bound, mask)
            && crate::verify::verification_run(
            start,
            bound,
            mask,
            proof,
            composition_polynomial,
            verdict,
            end,
        );
    let (other_bound, other_mask) = choose|
        bound: u32,
        mask: Option<Seq<Seq<Seq<CirclePoint>>>>,
    |
        #[trigger] crate::verify::answered(other, start, proof, bound, mask)
            && crate::verify::verification_run(
            start,
            bound,
            mask,
            proof,
            composition_polynomial,
            other_verdict,
            other_end,
        );
    assert(crate::air::states_bound(components, other_bound));
    assert(bound == other_bound);
    if crate::verify::extendable(start.config, bound) && crate::verify::before_point_of(
        start,
        proof,
    ).gives_point() {
        let n = start.trees[crate::verify::PREPROCESSED_TRACE_IDX as int].column_log_sizes.len();
        let point = crate::verify::before_point_of(start, proof).point();
        assert(crate::air::offers(components, n, point, other_mask));
        assert(mask == other_mask);
    }
}

/// Proving ends: once it has finished, no event does anything.
pub proof fn law_finished_is_final(
    components: stwo::core::air::Components<'_>,
    channel: ChannelState,
    event: ProveEvent,
    next: ProveStage,
    action: ProveAction,
    after: ChannelState,
)
    requires
        crate::prove::step(
            components,
            channel,
            ProveStage::Finished,
            event,
            next,
            action,
            after,
        ),
    ensures
        next is Finished,
        action is Abort,
        after == channel,
{
}

/// The polynomial counts only through the value that it takes at the drawn point: with another
/// polynomial of the same value there, verification comes to the same.
pub proof fn law_polynomial_counts_through_value(
    components: stwo::core::air::Components<'_>,
    start: VerifierState,
    proof: StarkProof,
    composition_polynomial: SecureCirclePoly,
    other: SecureCirclePoly,
    verdict: Result<(), VerificationError>,
    end: VerifierState,
)
    requires
        composition_polynomial.at(crate::verify::before_point_of(start, proof).point())
            == other.at(crate::verify::before_point_of(start, proof).point()),
        crate::verify::verifies(
            components,
            start,
            proof,
            composition_polynomial,
            verdict,
            end,
        ),
    ensures
        crate::verify::verifies(components, start, proof, other, verdict, end),
{
    let (bound, mask) = choose|bound: u32, mask: Option<Seq<Seq<Seq<CirclePoint>>>>|
        #[trigger] crate::verify::answered(components, start, proof, bound, mask)
            && crate::verify::verification_run(
            start,
            bound,
            mask,
            proof,
            composition_polynomial,
            verdict,
            end,
        );
    assert(crate::verify::verification_run(start, bound, mask, proof, other, verdict, end));
}

} // verus!
