//! Proving, as the steps between the prover's heavy work.
//!
//! Computing the composition polynomial, committing to it and opening the committed columns is
//! work for a backend. What is drawn from the channel, at which points the columns are opened and
//! whether the proof is handed out is decided here: `prove` takes the stage that proving is in
//! and what has just happened, and says what to do next.

use vstd::prelude::*;
use crate::channel::ChannelState;
use crate::circle::CirclePoint;
use crate::error::ProvingError;
use crate::field::SecureField;
use crate::poly::SecureCirclePoly;

verus! {

/// How far proving has come.
pub enum ProveStage {
    /// Nothing has happened.
    Start,
    /// The composition polynomial is being computed and committed to.
    Committing { n_preprocessed_columns: usize, random_coeff: SecureField },
    /// The committed columns are being opened.
    Opening {
        n_preprocessed_columns: usize,
        random_coeff: SecureField,
        oods_point: CirclePoint,
        sample_points: Vec<Vec<Vec<CirclePoint>>>,
        composition_polynomial: SecureCirclePoly,
    },
    /// Proving has ended.
    Finished,
}

/// What has just happened.
pub enum ProveEvent {
    /// The trace is committed; its first tree has so many preprocessed columns.
    Begin { n_preprocessed_columns: usize },
    /// The composition polynomial was computed and its coordinates were committed to, with the
    /// channel absorbing the root.
    CompositionCommitted { composition_polynomial: SecureCirclePoly },
    /// The columns were opened, with these values.
    ValuesProved { sampled_values: Vec<Vec<Vec<SecureField>>> },
}

/// What to do next.
pub enum ProveAction {
    /// Compute the composition polynomial with this coefficient and commit to it.
    CommitComposition { random_coeff: SecureField },
    /// Open the committed columns at these points.
    ProveValues { sample_points: Vec<Vec<Vec<CirclePoint>>> },
    /// Hand out the proof and the composition polynomial.
    Deliver { composition_polynomial: SecureCirclePoly },
    /// Hand out no proof.
    Reject(ProvingError),
    /// Stop: what happened fits no proof in the making.
    Abort,
}

/// The points are those of a mask that the components can offer, and the out-of-domain point for
/// the composition polynomial.
pub open spec fn samples_composition(
    components: stwo::core::air::Components<'_>,
    points: Seq<Seq<Seq<CirclePoint>>>,
    n_preprocessed_columns: nat,
    point: CirclePoint,
) -> bool {
    exists|mask: Seq<Seq<Seq<CirclePoint>>>|
        #[trigger] crate::air::offers(components, n_preprocessed_columns, point, Some(mask))
            && points == crate::oods::with_composition(mask, point)
}

impl ProveStage {
    /// A stage that proving with these components can be in: field elements are canonical, and
    /// the points are such that the components can offer.
    pub open spec fn wf(self, components: stwo::core::air::Components<'_>) -> bool {
        match self {
            ProveStage::Committing { random_coeff, .. } => random_coeff.wf(),
            ProveStage::Opening {
                n_preprocessed_columns,
                random_coeff,
                oods_point,
                sample_points,
                ..
            } => {
                &&& random_coeff.wf()
                &&& oods_point.wf()
                &&& samples_composition(
                    components,
                    crate::oods::nested(sample_points@),
                    n_preprocessed_columns as nat,
                    oods_point,
                )
            },
            _ => true,
        }
    }
}

/// What to do with the opened values, given the value of the composition polynomial that the
/// components compute from them: the proof is handed out if and only if the coordinate columns
/// give that value.
pub open spec fn concludes(
    values: Seq<Seq<Seq<SecureField>>>,
    expected: SecureField,
    composition_polynomial: SecureCirclePoly,
    action: ProveAction,
) -> bool {
    if !crate::oods::has_composition_row(values) || !crate::oods::combinable_row(values) {
        action is Abort
    } else if crate::oods::composition_eval(values)@ != expected@ {
        action == ProveAction::Reject(ProvingError::ConstraintsNotSatisfied)
    } else {
        action == (ProveAction::Deliver { composition_polynomial })
    }
}

/// Decides what to do with the opened values, given the value of the composition polynomial that
/// the components compute from them.
pub fn check_constraints(
    values: &Vec<Vec<Vec<SecureField>>>,
    expected: SecureField,
    composition_polynomial: SecureCirclePoly,
) -> (r: ProveAction)
    ensures
        concludes(crate::oods::nested(values@), expected, composition_polynomial, r),
{
    if !crate::oods::is_composition_row_present(values) || !crate::oods::is_row_combinable(values) {
        return ProveAction::Abort;
    }
    match crate::oods::extract_composition_oods_eval(values) {
        None => ProveAction::Abort,
        Some(eval) => {
            proof {
                crate::field::lemma_view_injective(eval, expected);
            }
            if eval != expected {
                ProveAction::Reject(ProvingError::ConstraintsNotSatisfied)
            } else {
                ProveAction::Deliver { composition_polynomial }
            }
        },
    }
}

/// The step that opens the committed columns, with the mask that the components gave, or none.
pub open spec fn begins_opening(
    stage: ProveStage,
    composition_polynomial: SecureCirclePoly,
    point: CirclePoint,
    mask: Option<Seq<Seq<Seq<CirclePoint>>>>,
    next: ProveStage,
    action: ProveAction,
) -> bool {
    match mask {
        None => next is Finished && action is Abort,
        Some(mask) => {
            &&& next is Opening
            &&& next->Opening_n_preprocessed_columns == stage->Committing_n_preprocessed_columns
            &&& next->Opening_random_coeff == stage->Committing_random_coeff
            &&& next->oods_point == point
            &&& next->composition_polynomial == composition_polynomial
            &&& crate::oods::nested(next->sample_points@) == crate::oods::with_composition(
                mask,
                point,
            )
            &&& action is ProveValues
            &&& crate::oods::nested(action->sample_points@) == crate::oods::with_composition(
                mask,
                point,
            )
        },
    }
}

/// A step of proving: from a stage and an event to the next stage and what to do, while the
/// channel goes from one state to another.
pub open spec fn step(
    components: stwo::core::air::Components<'_>,
    channel: ChannelState,
    stage: ProveStage,
    event: ProveEvent,
    next: ProveStage,
    action: ProveAction,
    after: ChannelState,
) -> bool {
    match (stage, event) {
        (
            ProveStage::Start,
            ProveEvent::Begin { n_preprocessed_columns },
        ) if crate::air::component_count(components) > 0 => {
            let random_coeff = channel.felt();
            &&& next == (ProveStage::Committing { n_preprocessed_columns, random_coeff })
            &&& action == (ProveAction::CommitComposition { random_coeff })
            &&& after == channel.after_draw()
        },
        (
            ProveStage::Committing { n_preprocessed_columns, .. },
            ProveEvent::CompositionCommitted { composition_polynomial },
        ) if channel.gives_point() => {
            &&& exists|mask: Option<Seq<Seq<Seq<CirclePoint>>>>|
                #[trigger] crate::air::offers(
                    components,
                    n_preprocessed_columns as nat,
                    channel.point(),
                    mask,
                ) && begins_opening(
                    stage,
                    composition_polynomial,
                    channel.point(),
                    mask,
                    next,
                    action,
                )
            &&& after == channel.after_draw()
        },
        (
            ProveStage::Opening {
                random_coeff,
                oods_point,
                sample_points,
                composition_polynomial,
                ..
            },
            ProveEvent::ValuesProved { sampled_values },
        ) if crate::oods::same_samples(
            crate::oods::nested(sample_points@),
            crate::oods::nested(sampled_values@),
        ) && crate::oods::canonical_values(crate::oods::nested(sampled_values@)) => {
            &&& next is Finished
            &&& exists|expected: SecureField|
                #[trigger] crate::air::states_value(
                    components,
                    oods_point,
                    crate::oods::nested(sampled_values@),
                    random_coeff,
                    expected,
                ) && concludes(
                    crate::oods::nested(sampled_values@),
                    expected,
                    composition_polynomial,
                    action,
                )
            &&& after == channel
        },
        _ => next is Finished && action is Abort && after == channel,
    }
}

/// Takes proving one step further.
///
/// What is drawn and handed on is determined by the arguments; the mask and the value that the
/// opened values are held against come from the components.
pub fn prove(
    components: &stwo::core::air::Components<'_>,
    channel: &mut stwo::core::channel::Blake2sChannel,
    stage: ProveStage,
    event: ProveEvent,
) -> (r: (ProveStage, ProveAction))
    requires
        stage.wf(*components),
        stage is Start || stage is Committing ==> crate::channel::state(*old(channel)).can_draw(),
    ensures
        r.0.wf(*components),
        step(
            *components,
            crate::channel::state(*old(channel)),
            stage,
            event,
            r.0,
            r.1,
            crate::channel::state(*final(channel)),
        ),
{
    match (stage, event) {
        (ProveStage::Start, ProveEvent::Begin { n_preprocessed_columns }) => {
            if crate::air::count_components(components) == 0 {
                return (ProveStage::Finished, ProveAction::Abort);
            }
            let random_coeff: SecureField = crate::channel::draw_secure_felt(channel);
            (
                ProveStage::Committing { n_preprocessed_columns, random_coeff },
                ProveAction::CommitComposition { random_coeff },
            )
        },
        (
            ProveStage::Committing { n_preprocessed_columns, random_coeff },
            ProveEvent::CompositionCommitted { composition_polynomial },
        ) => {
            let oods_point: CirclePoint = match crate::channel::draw_point(channel) {
                None => {
                    return (ProveStage::Finished, ProveAction::Abort);
                },
                Some(point) => point,
            };
            match crate::air::mask_points(components, n_preprocessed_columns, oods_point) {
                None => (ProveStage::Finished, ProveAction::Abort),
                Some(mask) => {
                    let sample_points: Vec<Vec<Vec<CirclePoint>>> = crate::oods::sample_points(
                        mask,
                        oods_point,
                    );
                    let kept: Vec<Vec<Vec<CirclePoint>>> = crate::oods::copy_samples(
                        &sample_points,
                    );
                    (
                        ProveStage::Opening {
                            n_preprocessed_columns,
                            random_coeff,
                            oods_point,
                            sample_points: kept,
                            composition_polynomial,
                        },
                        ProveAction::ProveValues { sample_points },
                    )
                },
            }
        },
        (
            ProveStage::Opening {
                n_preprocessed_columns,
                random_coeff,
                oods_point,
                sample_points,
                composition_polynomial,
            },
            ProveEvent::ValuesProved { sampled_values },
        ) => {
            if !crate::oods::have_same_samples(&sample_points, &sampled_values)
                || !crate::oods::values_are_canonical(&sampled_values) {
                return (ProveStage::Finished, ProveAction::Abort);
            }
            let expected: SecureField = crate::air::eval_composition_polynomial_at_point(
                components,
                oods_point,
                &sampled_values,
                random_coeff,
            );
            let action: ProveAction = check_constraints(
                &sampled_values,
                expected,
                composition_polynomial,
            );
            (ProveStage::Finished, action)
        },
        _ => (ProveStage::Finished, ProveAction::Abort),
    }
}

} // verus!
