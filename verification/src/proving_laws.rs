//! Laws on proving.

use vstd::prelude::*;
use crate::channel::ChannelState;
use crate::circle::CirclePoint;
use crate::error::ProvingError;
use crate::error::VerificationError;
use crate::field::Qm31;
use crate::field::SecureField;
use crate::poly::SecureCirclePoly;
use crate::prove::ProveAction;
use crate::prove::ProveEvent;
use crate::prove::ProveStage;
use crate::stark_proof::StarkProof;
use crate::verify::VerifierState;

verus! {

/// Proving stops: nothing more is to be done, and the channel stays as it is.
pub open spec fn stops(
    channel: ChannelState,
    next: ProveStage,
    action: ProveAction,
    after: ChannelState,
) -> bool {
    next == ProveStage::Finished && action == ProveAction::Abort && after == channel
}

/// Proving begins if and only if there is a component: with the next element of the channel as
/// coefficient, and with as many preprocessed columns as were stated.
pub proof fn law_begin(
    components: stwo::core::air::Components<'_>,
    channel: ChannelState,
    n_preprocessed_columns: usize,
    next: ProveStage,
    action: ProveAction,
    after: ChannelState,
)
    requires
        crate::prove::step(
            components,
            channel,
            ProveStage::Start,
            ProveEvent::Begin { n_preprocessed_columns },
            next,
            action,
            after,
        ),
    ensures
        crate::air::component_count(components) == 0 ==> stops(channel, next, action, after),
        crate::air::component_count(components) > 0 ==> {
            let drawn = crate::channel::drawn_felt(channel.digest, channel.draws);
            &&& next == (ProveStage::Committing { n_preprocessed_columns, random_coeff: drawn.0 })
            &&& action == (ProveAction::CommitComposition { random_coeff: drawn.0 })
            &&& after == ChannelState {
                digest: channel.digest,
                draws: drawn.1,
                challenges: channel.challenges,
            }
        },
{
}

/// The columns are to be opened at a mask, followed by four columns at the point alone.
pub open spec fn samples_at(
    samples: Seq<Vec<Vec<CirclePoint>>>,
    mask: Seq<Seq<Seq<CirclePoint>>>,
    point: CirclePoint,
) -> bool {
    &&& samples.len() == mask.len() + 1
    &&& forall|t: int| 0 <= t < mask.len() ==> (#[trigger] samples[t])@.len() == mask[t].len()
    &&& forall|t: int, c: int|
        0 <= t < mask.len() && 0 <= c < mask[t].len() ==> #[trigger] samples[t]@[c]@ == mask[t][c]
    &&& samples[mask.len() as int]@.len() == 4
    &&& forall|c: int|
        0 <= c < 4 ==> #[trigger] samples[mask.len() as int]@[c]@ == seq![point]
}

proof fn lemma_samples_at(
    samples: Seq<Vec<Vec<CirclePoint>>>,
    mask: Seq<Seq<Seq<CirclePoint>>>,
    point: CirclePoint,
)
    ensures
        samples_at(samples, mask, point) <==> crate::oods::nested(samples)
            == crate::oods::with_composition(mask, point),
{
    let all = crate::oods::nested(samples);
    let points = crate::oods::with_composition(mask, point);
    let n = mask.len() as int;
    if all == points {
        assert(all.len() == samples.len());
        assert forall|t: int| 0 <= t < n implies (#[trigger] samples[t])@.len() == mask[t].len() by {
            assert(all[t].len() == samples[t]@.len());
            assert(points[t] == mask[t]);
        }
        assert forall|t: int, c: int| 0 <= t < n && 0 <= c < mask[t].len() implies #[trigger] samples[t]@[c]@
            == mask[t][c] by {
            assert(samples[t]@.len() == mask[t].len());
            assert(all[t][c] == samples[t]@[c]@);
            assert(points[t] == mask[t]);
        }
        assert(all[n].len() == samples[n]@.len());
        assert forall|c: int| 0 <= c < 4 implies #[trigger] samples[n]@[c]@ == seq![point] by {
            assert(all[n][c] == samples[n]@[c]@);
            assert(points[n][c] == seq![point]);
        }
    }
    if samples_at(samples, mask, point) {
        assert forall|t: int| 0 <= t < all.len() implies all[t] == points[t] by {
            assert(all[t].len() == samples[t]@.len());
            assert forall|c: int| 0 <= c < all[t].len() implies all[t][c] == points[t][c] by {
                assert(all[t][c] == samples[t]@[c]@);
                if t < n {
                    assert(samples[t]@[c]@ == mask[t][c]);
                } else {
                    assert(samples[n]@[c]@ == seq![point]);
                }
            }
            if t < n {
                assert(samples[t]@.len() == mask[t].len());
            }
            assert(all[t] =~= points[t]);
        }
        assert(all =~= points);
    }
}

/// Opening begins with a mask, or proving stops where there is none.
pub open spec fn opens_at(
    n_preprocessed_columns: usize,
    random_coeff: SecureField,
    point: CirclePoint,
    composition_polynomial: SecureCirclePoly,
    mask: Option<Seq<Seq<Seq<CirclePoint>>>>,
    next: ProveStage,
    action: ProveAction,
) -> bool {
    &&& mask is None ==> next == ProveStage::Finished && action == ProveAction::Abort
    &&& mask matches Some(trees) ==> {
        &&& next is Opening
        &&& next->Opening_n_preprocessed_columns == n_preprocessed_columns
        &&& next->Opening_random_coeff == random_coeff
        &&& next->oods_point == point
        &&& next->composition_polynomial == composition_polynomial
        &&& samples_at(next->sample_points@, trees, point)
        &&& action is ProveValues
        &&& samples_at(action->sample_points@, trees, point)
    }
}

/// Once the composition polynomial is committed, the columns are opened at the drawn point's mask
/// for the stated number of preprocessed columns, if there is a point and a mask.
pub proof fn law_committed(
    components: stwo::core::air::Components<'_>,
    channel: ChannelState,
    n_preprocessed_columns: usize,
    random_coeff: SecureField,
    composition_polynomial: SecureCirclePoly,
    next: ProveStage,
    action: ProveAction,
    after: ChannelState,
)
    requires
        crate::prove::step(
            components,
            channel,
            ProveStage::Committing { n_preprocessed_columns, random_coeff },
            ProveEvent::CompositionCommitted { composition_polynomial },
            next,
            action,
            after,
        ),
    ensures
        crate::verifying_laws::draws_no_point(channel) ==> stops(channel, next, action, after),
        !crate::verifying_laws::draws_no_point(channel) ==> {
            &&& after == crate::verifying_laws::drawn_from(channel)
            &&& exists|mask: Option<Seq<Seq<Seq<CirclePoint>>>>|
                #[trigger] crate::mask_laws::can_make_up(
                    components,
                    n_preprocessed_columns as nat,
                    channel.point(),
                    mask,
                ) && opens_at(
                    n_preprocessed_columns,
                    random_coeff,
                    channel.point(),
                    composition_polynomial,
                    mask,
                    next,
                    action,
                )
        },
{
    crate::channel_laws::law_gives_point(channel);
    let stage = ProveStage::Committing { n_preprocessed_columns, random_coeff };
    if !crate::verifying_laws::draws_no_point(channel) {
        let n = n_preprocessed_columns as nat;
        let mask = choose|mask: Option<Seq<Seq<Seq<CirclePoint>>>>|
            #[trigger] crate::air::offers(components, n, channel.point(), mask)
                && crate::prove::begins_opening(
                stage,
                composition_polynomial,
                channel.point(),
                mask,
                next,
                action,
            );
        crate::mask_laws::law_offered_masks(components, n, channel.point(), mask);
        if mask is Some {
            lemma_samples_at(next->sample_points@, mask->0, channel.point());
            lemma_samples_at(action->sample_points@, mask->0, channel.point());
        }
        assert(opens_at(
            n_preprocessed_columns,
            random_coeff,
            channel.point(),
            composition_polynomial,
            mask,
            next,
            action,
        ));
    }
}

/// There is one value for each point, and all words of all values are reduced.
pub open spec fn answers_samples(
    samples: Seq<Vec<Vec<CirclePoint>>>,
    values: Seq<Vec<Vec<SecureField>>>,
) -> bool {
    &&& samples.len() == values.len()
    &&& forall|t: int| 0 <= t < values.len() ==> samples[t]@.len() == (#[trigger] values[t])@.len()
    &&& forall|t: int, c: int|
        0 <= t < values.len() && 0 <= c < values[t]@.len() ==> samples[t]@[c]@.len() == (
        #[trigger] values[t]@[c])@.len()
    &&& forall|t: int, c: int, k: int|
        0 <= t < values.len() && 0 <= c < values[t]@.len() && 0 <= k < values[t]@[c]@.len()
            ==> crate::sample_laws::words_reduced(#[trigger] values[t]@[c]@[k])
}

proof fn lemma_answers(
    samples: Seq<Vec<Vec<CirclePoint>>>,
    values: Seq<Vec<Vec<SecureField>>>,
)
    ensures
        answers_samples(samples, values) <==> crate::oods::same_samples(
            crate::oods::nested(samples),
            crate::oods::nested(values),
        ) && crate::oods::canonical_values(crate::oods::nested(values)),
{
    let p = crate::oods::nested(samples);
    let v = crate::oods::nested(values);
    crate::sample_laws::law_nested(samples);
    crate::sample_laws::law_nested(values);
    crate::sample_laws::law_same_samples(p, v);
    crate::sample_laws::law_canonical_values(v);
    if answers_samples(samples, values) {
        assert forall|t: int| 0 <= t < v.len() implies p[t].len() == (#[trigger] v[t]).len() by {
            assert(samples[t]@.len() == values[t]@.len());
        }
        assert forall|t: int, c: int| 0 <= t < v.len() && 0 <= c < v[t].len() implies p[t][c].len()
            == (#[trigger] v[t][c]).len() by {
            assert(samples[t]@.len() == values[t]@.len());
            assert(samples[t]@[c]@.len() == values[t]@[c]@.len());
            assert(p[t][c] == samples[t]@[c]@);
            assert(v[t][c] == values[t]@[c]@);
        }
        assert forall|t: int, c: int, k: int|
            0 <= t < v.len() && 0 <= c < v[t].len() && 0 <= k < v[t][c].len()
            implies crate::sample_laws::words_reduced(#[trigger] v[t][c][k]) by {
            assert(v[t][c] == values[t]@[c]@);
            assert(crate::sample_laws::words_reduced(values[t]@[c]@[k]));
        }
    }
    if crate::oods::same_samples(p, v) && crate::oods::canonical_values(v) {
        assert forall|t: int| 0 <= t < values.len() implies samples[t]@.len() == (
        #[trigger] values[t])@.len() by {
            assert(p[t].len() == v[t].len());
        }
        assert forall|t: int, c: int|
            0 <= t < values.len() && 0 <= c < values[t]@.len() implies samples[t]@[c]@.len() == (
        #[trigger] values[t]@[c])@.len() by {
            assert(p[t].len() == v[t].len());
            assert(v[t][c] == values[t]@[c]@);
            assert(p[t][c] == samples[t]@[c]@);
        }
        assert forall|t: int, c: int, k: int|
            0 <= t < values.len() && 0 <= c < values[t]@.len() && 0 <= k < values[t]@[c]@.len()
            implies crate::sample_laws::words_reduced(#[trigger] values[t]@[c]@[k]) by {
            assert(v[t][c] == values[t]@[c]@);
            assert(crate::sample_laws::words_reduced(v[t][c][k]));
        }
    }
}

/// The value that the last tree gives: the sum of its four entries, weighed with `1`, `i`, `u` and
/// `i*u`.
pub open spec fn row_value(values: Seq<Vec<Vec<SecureField>>>) -> Qm31 {
    let row = values[values.len() - 1]@;
    row[0]@[0]@.plus(row[1]@[0]@.times(Qm31::of(0, 1, 0, 0))).plus(
        row[2]@[0]@.times(Qm31::of(0, 0, 1, 0)),
    ).plus(row[3]@[0]@.times(Qm31::of(0, 0, 0, 1)))
}

/// What is done with values for a value that they are held against: the proof is handed out, with
/// the polynomial that was committed, if the last tree gives that value, and rejected otherwise.
pub open spec fn is_held_against(
    values: Seq<Vec<Vec<SecureField>>>,
    expected: SecureField,
    composition_polynomial: SecureCirclePoly,
    action: ProveAction,
) -> bool {
    &&& row_value(values) == expected@ ==> action == (ProveAction::Deliver {
        composition_polynomial,
    })
    &&& row_value(values) != expected@ ==> action == ProveAction::Reject(
        ProvingError::ConstraintsNotSatisfied,
    )
}

/// The stages that proving can be in: a coefficient of reduced words and, while columns are opened,
/// a point of reduced words and the points of a mask that the components make up there for the
/// stated number of preprocessed columns.
pub proof fn law_stages(components: stwo::core::air::Components<'_>, stage: ProveStage)
    ensures
        stage is Start || stage is Finished ==> stage.wf(components),
        stage is Committing ==> (stage.wf(components) <==> crate::sample_laws::words_reduced(
            stage->Committing_random_coeff,
        )),
        stage is Opening ==> (stage.wf(components) <==> {
            &&& crate::sample_laws::words_reduced(stage->Opening_random_coeff)
            &&& crate::sample_laws::words_reduced(stage->oods_point.x)
            &&& crate::sample_laws::words_reduced(stage->oods_point.y)
            &&& exists|mask: Seq<Seq<Seq<CirclePoint>>>|
                #[trigger] crate::mask_laws::can_make_up(
                    components,
                    stage->Opening_n_preprocessed_columns as nat,
                    stage->oods_point,
                    Some(mask),
                ) && samples_at(stage->sample_points@, mask, stage->oods_point)
        }),
{
    if stage is Opening {
        let n = stage->Opening_n_preprocessed_columns as nat;
        let point = stage->oods_point;
        let samples = stage->sample_points@;
        if stage.wf(components) {
            let mask = choose|mask: Seq<Seq<Seq<CirclePoint>>>|
                #[trigger] crate::air::offers(components, n, point, Some(mask))
                    && crate::oods::nested(samples) == crate::oods::with_composition(mask, point);
            crate::mask_laws::law_offered_masks(components, n, point, Some(mask));
            lemma_samples_at(samples, mask, point);
            assert(crate::mask_laws::can_make_up(components, n, point, Some(mask)));
        }
        if exists|mask: Seq<Seq<Seq<CirclePoint>>>|
            #[trigger] crate::mask_laws::can_make_up(components, n, point, Some(mask))
                && samples_at(samples, mask, point) {
            let mask = choose|mask: Seq<Seq<Seq<CirclePoint>>>|
                #[trigger] crate::mask_laws::can_make_up(components, n, point, Some(mask))
                    && samples_at(samples, mask, point);
            crate::mask_laws::law_offered_masks(components, n, point, Some(mask));
            lemma_samples_at(samples, mask, point);
            assert(crate::air::offers(components, n, point, Some(mask)));
        }
    }
}

/// Values that answer the samples of a mask end in a row.
proof fn lemma_answers_end_in_row(
    samples: Seq<Vec<Vec<CirclePoint>>>,
    mask: Seq<Seq<Seq<CirclePoint>>>,
    point: CirclePoint,
    values: Seq<Vec<Vec<SecureField>>>,
)
    requires
        samples_at(samples, mask, point),
        answers_samples(samples, values),
    ensures
        crate::oods::has_composition_row(crate::oods::nested(values)),
        crate::oods::combinable_row(crate::oods::nested(values)),
        crate::oods::composition_eval(crate::oods::nested(values))@ == row_value(values),
{
    let n = mask.len() as int;
    let all = crate::oods::nested(values);
    crate::sample_laws::law_nested(values);
    assert(samples[n]@.len() == values[n]@.len());
    assert forall|c: int| 0 <= c < 4 implies (#[trigger] all[n][c]).len() == 1 && all[n][c]
        == values[n]@[c]@ by {
        assert(samples[n]@[c]@ == seq![point]);
        assert(samples[n]@[c]@.len() == values[n]@[c]@.len());
        assert(all[n][c] == values[n]@[c]@);
    }
    assert(all[n][0].len() == 1);
    assert(all[n][1].len() == 1);
    assert(all[n][2].len() == 1);
    assert(all[n][3].len() == 1);
    crate::sample_laws::law_composition_row(all);
    assert(crate::sample_laws::words_reduced(values[n]@[0]@[0]));
    crate::sample_laws::law_row_value(all);
}

/// Proving delivers whenever it should: with one value for each point, and whatever reduced words
/// the values have, the proof is handed out if the last tree gives a value that the components
/// state for these values, the point and the coefficient, and is rejected if it gives another. With
/// other values proving stops. Nothing is drawn.
pub proof fn law_values_decide(
    components: stwo::core::air::Components<'_>,
    channel: ChannelState,
    stage: ProveStage,
    sampled_values: Vec<Vec<Vec<SecureField>>>,
    next: ProveStage,
    action: ProveAction,
    after: ChannelState,
)
    requires
        stage is Opening,
        stage.wf(components),
        crate::prove::step(
            components,
            channel,
            stage,
            ProveEvent::ValuesProved { sampled_values },
            next,
            action,
            after,
        ),
    ensures
        !answers_samples(stage->sample_points@, sampled_values@) ==> stops(
            channel,
            next,
            action,
            after,
        ),
        answers_samples(stage->sample_points@, sampled_values@) ==> {
            &&& next == ProveStage::Finished
            &&& after == channel
            &&& action is Deliver || action is Reject
            &&& exists|expected: SecureField|
                #[trigger] crate::air::states_value(
                    components,
                    stage->oods_point,
                    crate::oods::nested(sampled_values@),
                    stage->Opening_random_coeff,
                    expected,
                ) && is_held_against(
                    sampled_values@,
                    expected,
                    stage->composition_polynomial,
                    action,
                )
        },
{
    lemma_answers(stage->sample_points@, sampled_values@);
    law_stages(components, stage);
    if answers_samples(stage->sample_points@, sampled_values@) {
        let mask = choose|mask: Seq<Seq<Seq<CirclePoint>>>|
            #[trigger] crate::mask_laws::can_make_up(
                components,
                stage->Opening_n_preprocessed_columns as nat,
                stage->oods_point,
                Some(mask),
            ) && samples_at(stage->sample_points@, mask, stage->oods_point);
        lemma_answers_end_in_row(
            stage->sample_points@,
            mask,
            stage->oods_point,
            sampled_values@,
        );
        let expected = choose|expected: SecureField|
            #[trigger] crate::air::states_value(
                components,
                stage->oods_point,
                crate::oods::nested(sampled_values@),
                stage->Opening_random_coeff,
                expected,
            ) && crate::prove::concludes(
                crate::oods::nested(sampled_values@),
                expected,
                stage->composition_polynomial,
                action,
            );
        assert(is_held_against(
            sampled_values@,
            expected,
            stage->composition_polynomial,
            action,
        ));
    }
}

/// Where the components state one value only, that value decides: the proof is handed out if and
/// only if the last tree gives it, and rejected if and only if it gives another.
pub proof fn law_delivers_if_satisfied(
    components: stwo::core::air::Components<'_>,
    channel: ChannelState,
    stage: ProveStage,
    sampled_values: Vec<Vec<Vec<SecureField>>>,
    expected: SecureField,
    next: ProveStage,
    action: ProveAction,
    after: ChannelState,
)
    requires
        stage is Opening,
        stage.wf(components),
        crate::prove::step(
            components,
            channel,
            stage,
            ProveEvent::ValuesProved { sampled_values },
            next,
            action,
            after,
        ),
        answers_samples(stage->sample_points@, sampled_values@),
        forall|other: SecureField|
            #[trigger] crate::air::states_value(
                components,
                stage->oods_point,
                crate::oods::nested(sampled_values@),
                stage->Opening_random_coeff,
                other,
            ) ==> other == expected,
    ensures
        row_value(sampled_values@) == expected@ <==> action == (ProveAction::Deliver {
            composition_polynomial: stage->composition_polynomial,
        }),
        row_value(sampled_values@) != expected@ <==> action == ProveAction::Reject(
            ProvingError::ConstraintsNotSatisfied,
        ),
{
    law_values_decide(components, channel, stage, sampled_values, next, action, after);
}

/// What comes at the wrong time stops proving.
pub proof fn law_wrong_events_stop(
    components: stwo::core::air::Components<'_>,
    channel: ChannelState,
    stage: ProveStage,
    event: ProveEvent,
    next: ProveStage,
    action: ProveAction,
    after: ChannelState,
)
    requires
        crate::prove::step(components, channel, stage, event, next, action, after),
        !(stage is Start && event is Begin),
        !(stage is Committing && event is CompositionCommitted),
        !(stage is Opening && event is ValuesProved),
    ensures
        stops(channel, next, action, after),
{
}

/// What is done with values and a value that they are held against, where they come from anywhere:
/// without a row that fits nothing is handed out or rejected; a row of reduced words is held
/// against the value.
pub proof fn law_constraints_are_checked(
    values: Vec<Vec<Vec<SecureField>>>,
    expected: SecureField,
    composition_polynomial: SecureCirclePoly,
    action: ProveAction,
)
    requires
        crate::prove::concludes(
            crate::oods::nested(values@),
            expected,
            composition_polynomial,
            action,
        ),
    ensures
        ({
            let all = crate::oods::nested(values@);
            let fitting = crate::sample_laws::ends_in_row(all) && crate::sample_laws::row_fits(all);
            &&& !fitting <==> action == ProveAction::Abort
            &&& action == (ProveAction::Deliver { composition_polynomial }) <==> fitting
                && crate::oods::composition_eval(all)@ == expected@
            &&& action == ProveAction::Reject(ProvingError::ConstraintsNotSatisfied) <==> fitting
                && crate::oods::composition_eval(all)@ != expected@
            &&& crate::sample_laws::ends_in_row(all) && crate::sample_laws::words_reduced(
                values@[values@.len() - 1]@[0]@[0],
            ) ==> is_held_against(values@, expected, composition_polynomial, action)
        }),
{
    let all = crate::oods::nested(values@);
    crate::sample_laws::law_nested(values@);
    crate::sample_laws::law_composition_row(all);
    if all.len() > 0 {
        crate::sample_laws::law_row_words(all);
    }
    if crate::sample_laws::ends_in_row(all) && crate::sample_laws::words_reduced(
        values@[values@.len() - 1]@[0]@[0],
    ) {
        let n = values@.len() - 1;
        assert(all[n].len() == values@[n]@.len());
        assert(all[n][0] == values@[n]@[0]@);
        assert(all[n][1] == values@[n]@[1]@);
        assert(all[n][2] == values@[n]@[2]@);
        assert(all[n][3] == values@[n]@[3]@);
        crate::sample_laws::law_row_value(all);
    }
}

/// Prover and verifier sample the same preprocessed columns: where proving begins with the number
/// of columns that the verifier's first tree has, from the channel that verifying starts from, and
/// the components always answer the same, an accepted proof was opened at the very points that the
/// prover was told to open the columns at, and these are for that many preprocessed columns.
pub proof fn law_same_points(
    components: stwo::core::air::Components<'_>,
    start: VerifierState,
    n_preprocessed_columns: usize,
    committing: ProveStage,
    commit: ProveAction,
    drawn: ChannelState,
    composition_polynomial: SecureCirclePoly,
    opening: ProveStage,
    open: ProveAction,
    opened: ChannelState,
    bound: u32,
    masks: Seq<Seq<Seq<Seq<CirclePoint>>>>,
    indices: Seq<Seq<usize>>,
    proof: StarkProof,
    verdict: Result<(), VerificationError>,
    end: VerifierState,
)
    requires
        crate::stark_proof::proof_parts(proof).commitments.len() > 0,
        crate::prove::step(
            components,
            start.channel,
            ProveStage::Start,
            ProveEvent::Begin { n_preprocessed_columns },
            committing,
            commit,
            drawn,
        ),
        n_preprocessed_columns == start.trees[0].column_log_sizes.len(),
        crate::prove::step(
            components,
            crate::verifying_laws::absorbed(drawn, crate::verifying_laws::last_root(proof)),
            committing,
            ProveEvent::CompositionCommitted { composition_polynomial },
            opening,
            open,
            opened,
        ),
        opening is Opening,
        crate::verifying_laws::always_answer(
            components,
            bound,
            opening->oods_point,
            masks,
            indices,
        ),
        crate::verify::verifies(components, start, proof, composition_polynomial, verdict, end),
        verdict is Ok,
    ensures
        open is ProveValues,
        open->sample_points@[0]@.len() == start.trees[0].column_log_sizes.len(),
        crate::pcs::opening_outcome(
            end.trees,
            start.config,
            crate::oods::nested(open->sample_points@),
            proof,
            opened,
        ).0 is Ok,
{
    let before = crate::verifying_laws::absorbed(
        start.channel,
        crate::verifying_laws::last_root(proof),
    );
    let n = n_preprocessed_columns as nat;
    let point = before.point();
    law_begin(components, start.channel, n_preprocessed_columns, committing, commit, drawn);
    assert(crate::verifying_laws::absorbed(drawn, crate::verifying_laws::last_root(proof))
        == before);
    let random_coeff = committing->Committing_random_coeff;
    law_committed(
        components,
        before,
        n_preprocessed_columns,
        random_coeff,
        composition_polynomial,
        opening,
        open,
        opened,
    );
    let mask = choose|mask: Option<Seq<Seq<Seq<CirclePoint>>>>|
        #[trigger] crate::mask_laws::can_make_up(components, n, point, mask) && opens_at(
            n_preprocessed_columns,
            random_coeff,
            point,
            composition_polynomial,
            mask,
            opening,
            open,
        );
    crate::verifying_laws::law_preprocessed_columns_are_opened(
        components,
        start,
        proof,
        composition_polynomial,
        verdict,
        end,
    );
    crate::verifying_laws::law_verification(
        components,
        start,
        proof,
        composition_polynomial,
        verdict,
        end,
    );
    let stated = choose|bound: u32|
        #[trigger] crate::air::states_bound(components, bound)
            && crate::verifying_laws::comes_to(
            components,
            start,
            bound,
            proof,
            composition_polynomial,
            verdict,
            end,
        );
    let other = choose|other: Option<Seq<Seq<Seq<CirclePoint>>>>|
        #[trigger] crate::mask_laws::can_make_up(components, n, point, other)
            && crate::verifying_laws::is_masked(
            start,
            other,
            proof,
            composition_polynomial,
            verdict,
            end,
        );
    lemma_one_mask(components, n, bound, point, masks, indices, mask);
    lemma_one_mask(components, n, bound, point, masks, indices, other);
    assert(mask == other);
    lemma_samples_at(open->sample_points@, mask->0, point);
    crate::opening_laws::law_accepted_arguments_fit(
        end.trees,
        start.config,
        crate::oods::with_composition(mask->0, point),
        proof,
        crate::verifying_laws::drawn_from(before),
        verdict,
        end.channel,
    );
    crate::mask_laws::law_offered_masks(components, n, point, mask);
    crate::mask_laws::law_first_tree_is_preprocessed(components, n, point, mask->0);
    assert(open->sample_points@[0]@.len() == mask->0[0].len());
}

/// Components that always answer the same make up one mask only.
proof fn lemma_one_mask(
    components: stwo::core::air::Components<'_>,
    n: nat,
    bound: u32,
    point: CirclePoint,
    masks: Seq<Seq<Seq<Seq<CirclePoint>>>>,
    indices: Seq<Seq<usize>>,
    mask: Option<Seq<Seq<Seq<CirclePoint>>>>,
)
    requires
        crate::verifying_laws::always_answer(components, bound, point, masks, indices),
        crate::mask_laws::can_make_up(components, n, point, mask),
    ensures
        mask == crate::air::assembled(masks, indices, n, point),
{
    let (answered, named) = choose|
        answered: Seq<Seq<Seq<Seq<CirclePoint>>>>,
        named: Seq<Seq<usize>>,
    |
        #[trigger] crate::mask_laws::stated(components, point, answered, named)
            && crate::mask_laws::made_up_of(answered, named, n, point, mask);
    crate::mask_laws::law_mask_is_determined(masks, indices, n, point, mask);
}

/// Reduced values are never turned away: where there is one value for each point, and every word
/// of every value lies below `2^31 - 1`, proving delivers or rejects, and does not stop.
pub proof fn law_reduced_values_are_not_turned_away(
    components: stwo::core::air::Components<'_>,
    channel: ChannelState,
    stage: ProveStage,
    sampled_values: Vec<Vec<Vec<SecureField>>>,
    next: ProveStage,
    action: ProveAction,
    after: ChannelState,
)
    requires
        stage is Opening,
        stage.wf(components),
        crate::prove::step(
            components,
            channel,
            stage,
            ProveEvent::ValuesProved { sampled_values },
            next,
            action,
            after,
        ),
        sampled_values@.len() == stage->sample_points@.len(),
        forall|t: int|
            0 <= t < sampled_values@.len() ==> (#[trigger] sampled_values@[t])@.len()
                == stage->sample_points@[t]@.len(),
        forall|t: int, c: int|
            0 <= t < sampled_values@.len() && 0 <= c < sampled_values@[t]@.len() ==> (
            #[trigger] sampled_values@[t]@[c])@.len() == stage->sample_points@[t]@[c]@.len(),
        forall|t: int, c: int, k: int|
            0 <= t < sampled_values@.len() && 0 <= c < sampled_values@[t]@.len() && 0 <= k
                < sampled_values@[t]@[c]@.len() ==> {
                &&& (#[trigger] sampled_values@[t]@[c]@[k]).a < 0x7fff_ffff
                &&& sampled_values@[t]@[c]@[k].b < 0x7fff_ffff
                &&& sampled_values@[t]@[c]@[k].c < 0x7fff_ffff
                &&& sampled_values@[t]@[c]@[k].d < 0x7fff_ffff
            },
    ensures
        action is Deliver || action is Reject,
        action is Deliver ==> action->Deliver_composition_polynomial
            == stage->Opening_composition_polynomial,
        exists|expected: SecureField|
            #[trigger] crate::air::states_value(
                components,
                stage->oods_point,
                crate::oods::nested(sampled_values@),
                stage->Opening_random_coeff,
                expected,
            ) && (action is Deliver <==> row_value(sampled_values@) == expected@),
{
    assert(answers_samples(stage->sample_points@, sampled_values@));
    law_values_decide(components, channel, stage, sampled_values, next, action, after);
    let expected = choose|expected: SecureField|
        #[trigger] crate::air::states_value(
            components,
            stage->oods_point,
            crate::oods::nested(sampled_values@),
            stage->Opening_random_coeff,
            expected,
        ) && is_held_against(
            sampled_values@,
            expected,
            stage->composition_polynomial,
            action,
        );
    assert(crate::air::states_value(
        components,
        stage->oods_point,
        crate::oods::nested(sampled_values@),
        stage->Opening_random_coeff,
        expected,
    ));
}

} // verus!
