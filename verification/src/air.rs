//! The components of a computation: what constrains its trace.
//!
//! Components are supplied by the user of the library, and may answer a question differently each
//! time. So what a component answers is spoken of as a relation: an answer that it can give.

use vstd::prelude::*;
use crate::circle::CirclePoint;
use crate::field::SecureField;

verus! {

type OutsideFelt = stwo::core::fields::qm31::QM31;

type OutsidePoint = stwo::core::circle::CirclePoint<OutsideFelt>;

/// The components of stwo: references to what implements its trait `Component`, and a number of
/// preprocessed columns.
#[verifier::external_type_specification]
#[verifier::external_body]
pub struct ExComponents<'a>(stwo::core::air::Components<'a>);

/// The number of components.
pub uninterp spec fn component_count(components: stwo::core::air::Components<'_>) -> nat;

/// The components can state this log degree bound of the composition polynomial.
pub uninterp spec fn states_bound(
    components: stwo::core::air::Components<'_>,
    bound: u32,
) -> bool;

/// Component `i` can mask these points when it is asked at `point`.
pub uninterp spec fn states_mask(
    components: stwo::core::air::Components<'_>,
    i: nat,
    point: CirclePoint,
    mask: Seq<Seq<Seq<CirclePoint>>>,
) -> bool;

/// Component `i` can name these preprocessed columns as its own.
pub uninterp spec fn states_indices(
    components: stwo::core::air::Components<'_>,
    i: nat,
    indices: Seq<usize>,
) -> bool;

/// The components can compute this value of the composition polynomial at `point` from the
/// sampled values and the coefficient of the constraints.
pub uninterp spec fn states_value(
    components: stwo::core::air::Components<'_>,
    point: CirclePoint,
    values: Seq<Seq<Seq<SecureField>>>,
    random_coeff: SecureField,
    value: SecureField,
) -> bool;

/// Reads the length of the field `components` of `air::Components`.
#[verifier::external_body]
pub(crate) fn count_components(components: &stwo::core::air::Components<'_>) -> (r: usize)
    ensures
        r == component_count(*components),
{
    components.components.len()
}

/// Asks `Components::composition_log_degree_bound`, the greatest of the bounds that the components
/// state; it panics where there is no component.
#[verifier::external_body]
pub(crate) fn composition_log_degree_bound(components: &stwo::core::air::Components<'_>) -> (r: u32)
    requires
        component_count(*components) > 0,
    ensures
        states_bound(*components, r),
{
    components.composition_log_degree_bound()
}

/// Asks one component with `Component::mask_points` at which points its columns are to be sampled.
#[verifier::external_body]
fn component_mask(
    components: &stwo::core::air::Components<'_>,
    i: usize,
    point: CirclePoint,
) -> (r: Vec<Vec<Vec<CirclePoint>>>)
    requires
        i < component_count(*components),
        point.wf(),
    ensures
        states_mask(*components, i as nat, point, crate::oods::nested(r@)),
{
    let felt = |v: SecureField| OutsideFelt::from_u32_unchecked(v.a, v.b, v.c, v.d);
    let point = OutsidePoint { x: felt(point.x), y: felt(point.y) };
    let read = |v: OutsideFelt| {
        let [a, b, c, d] = v.to_m31_array();
        SecureField { a: a.0, b: b.0, c: c.0, d: d.0 }
    };
    let read = |p: &OutsidePoint| CirclePoint { x: read(p.x), y: read(p.y) };
    let mask = components.components[i].mask_points(point);
    mask.iter().map(|t| t.iter().map(|c| c.iter().map(read).collect()).collect()).collect()
}

/// Asks one component with `Component::preproccessed_column_indices` which preprocessed columns it
/// reads.
#[verifier::external_body]
fn component_indices(components: &stwo::core::air::Components<'_>, i: usize) -> (r: Vec<usize>)
    requires
        i < component_count(*components),
    ensures
        states_indices(*components, i as nat, r@),
{
    components.components[i].preproccessed_column_indices()
}

/// The values are shaped as the points of a mask that the components can give at `point`, with the
/// row of the composition polynomial.
pub open spec fn values_fit(
    components: stwo::core::air::Components<'_>,
    point: CirclePoint,
    values: Seq<Seq<Seq<SecureField>>>,
) -> bool {
    exists|n: nat, mask: Seq<Seq<Seq<CirclePoint>>>|
        #[trigger] offers(components, n, point, Some(mask)) && crate::oods::same_samples(
            crate::oods::with_composition(mask, point),
            values,
        )
}

/// Evaluates the composition polynomial from the sampled values of the trace with
/// `Components::eval_composition_polynomial_at_point`, to which each component adds what it
/// computes from the values at its own mask.
#[verifier::external_body]
pub(crate) fn eval_composition_polynomial_at_point(
    components: &stwo::core::air::Components<'_>,
    point: CirclePoint,
    sampled_values: &Vec<Vec<Vec<SecureField>>>,
    random_coeff: SecureField,
) -> (r: SecureField)
    requires
        point.wf(),
        random_coeff.wf(),
        crate::oods::canonical_values(crate::oods::nested(sampled_values@)),
        values_fit(*components, point, crate::oods::nested(sampled_values@)),
    ensures
        states_value(
            *components,
            point,
            crate::oods::nested(sampled_values@),
            random_coeff,
            r,
        ),
{
    let felt = |v: &SecureField| OutsideFelt::from_u32_unchecked(v.a, v.b, v.c, v.d);
    let point = OutsidePoint { x: felt(&point.x), y: felt(&point.y) };
    let trees = sampled_values.iter();
    let trees = trees.map(|t| t.iter().map(|c| c.iter().map(felt).collect()).collect());
    let values = stwo::core::pcs::TreeVec::new(trees.collect());
    let coeff = felt(&random_coeff);
    let value = components.eval_composition_polynomial_at_point(point, &values, coeff);
    let [a, b, c, d] = value.to_m31_array();
    SecureField { a: a.0, b: b.0, c: c.0, d: d.0 }
}

/// The number of trees that the longest mask has.
pub open spec fn depth(masks: Seq<Seq<Seq<Seq<CirclePoint>>>>) -> nat
    decreases masks.len(),
{
    if masks.len() == 0 {
        0
    } else {
        let before = depth(masks.drop_last());
        if masks.last().len() > before {
            masks.last().len()
        } else {
            before
        }
    }
}

/// The columns that the masks have in tree `t`, one mask after another.
pub open spec fn joined_tree(masks: Seq<Seq<Seq<Seq<CirclePoint>>>>, t: int) -> Seq<
    Seq<CirclePoint>,
>
    decreases masks.len(),
{
    if masks.len() == 0 {
        Seq::empty()
    } else if t < masks.last().len() {
        joined_tree(masks.drop_last(), t) + masks.last()[t]
    } else {
        joined_tree(masks.drop_last(), t)
    }
}

/// Some component names preprocessed column `c`.
pub open spec fn is_named(indices: Seq<Seq<usize>>, c: int) -> bool {
    exists|i: int, j: int|
        0 <= i < indices.len() && 0 <= j < indices[i].len() && #[trigger] indices[i][j] == c
}

/// The components name preprocessed columns that are there.
pub open spec fn in_range(indices: Seq<Seq<usize>>, n_preprocessed_columns: nat) -> bool {
    forall|i: int, j: int|
        0 <= i < indices.len() && 0 <= j < indices[i].len() ==> #[trigger] indices[i][j]
            < n_preprocessed_columns
}

/// The points of the preprocessed columns: the point for a column that is named, and none for one
/// that is not.
pub open spec fn preprocessed_tree(
    indices: Seq<Seq<usize>>,
    n_preprocessed_columns: nat,
    point: CirclePoint,
) -> Seq<Seq<CirclePoint>> {
    Seq::new(
        n_preprocessed_columns,
        |c: int|
            if is_named(indices, c) {
                seq![point]
            } else {
                Seq::empty()
            },
    )
}

/// The mask that the components' answers make up: their columns are joined tree by tree, but for
/// the first tree, which is that of the preprocessed columns. There is none where no component
/// has a tree, or one names a preprocessed column that is not there.
pub open spec fn assembled(
    masks: Seq<Seq<Seq<Seq<CirclePoint>>>>,
    indices: Seq<Seq<usize>>,
    n_preprocessed_columns: nat,
    point: CirclePoint,
) -> Option<Seq<Seq<Seq<CirclePoint>>>> {
    if depth(masks) == 0 || !in_range(indices, n_preprocessed_columns) {
        None
    } else {
        Some(
            Seq::new(
                depth(masks),
                |t: int|
                    if t == 0 {
                        preprocessed_tree(indices, n_preprocessed_columns, point)
                    } else {
                        joined_tree(masks, t)
                    },
            ),
        )
    }
}

/// Each component can give the answers that stand in its place.
pub open spec fn answers(
    components: stwo::core::air::Components<'_>,
    point: CirclePoint,
    masks: Seq<Seq<Seq<Seq<CirclePoint>>>>,
    indices: Seq<Seq<usize>>,
) -> bool {
    &&& masks.len() == component_count(components)
    &&& indices.len() == component_count(components)
    &&& forall|i: int|
        0 <= i < masks.len() ==> states_mask(components, i as nat, point, #[trigger] masks[i])
    &&& forall|i: int|
        0 <= i < indices.len() ==> states_indices(components, i as nat, #[trigger] indices[i])
}

/// The components can give answers at `point` that make up this mask, or none.
pub open spec fn offers(
    components: stwo::core::air::Components<'_>,
    n_preprocessed_columns: nat,
    point: CirclePoint,
    mask: Option<Seq<Seq<Seq<CirclePoint>>>>,
) -> bool {
    exists|masks: Seq<Seq<Seq<Seq<CirclePoint>>>>, indices: Seq<Seq<usize>>|
        #[trigger] answers(components, point, masks, indices) && mask == assembled(
            masks,
            indices,
            n_preprocessed_columns,
            point,
        )
}

/// What the masks of several components hold.
pub open spec fn all_masks(masks: Seq<Vec<Vec<Vec<CirclePoint>>>>) -> Seq<
    Seq<Seq<Seq<CirclePoint>>>,
> {
    masks.map_values(|mask: Vec<Vec<Vec<CirclePoint>>>| crate::oods::nested(mask@))
}

fn greatest_depth(masks: &Vec<Vec<Vec<Vec<CirclePoint>>>>) -> (r: usize)
    ensures
        r == depth(all_masks(masks@)),
{
    let ghost all = all_masks(masks@);
    let mut r: usize = 0;
    let mut i: usize = 0;
    while i < masks.len()
        invariant
            i <= masks@.len(),
            all == all_masks(masks@),
            r == depth(all.take(i as int)),
        decreases masks@.len() - i,
    {
        proof {
            assert(all.take(i + 1).drop_last() =~= all.take(i as int));
            assert(all[i as int].len() == masks@[i as int]@.len());
        }
        if masks[i].len() > r {
            r = masks[i].len();
        }
        i = i + 1;
    }
    assert(all.take(i as int) =~= all);
    r
}

fn join_tree(masks: &Vec<Vec<Vec<Vec<CirclePoint>>>>, t: usize) -> (r: Vec<Vec<CirclePoint>>)
    ensures
        crate::oods::rows(r@) == joined_tree(all_masks(masks@), t as int),
{
    let ghost all = all_masks(masks@);
    let mut r: Vec<Vec<CirclePoint>> = Vec::new();
    let mut i: usize = 0;
    assert(crate::oods::rows(r@) =~= joined_tree(all.take(0), t as int));
    while i < masks.len()
        invariant
            i <= masks@.len(),
            all == all_masks(masks@),
            crate::oods::rows(r@) == joined_tree(all.take(i as int), t as int),
        decreases masks@.len() - i,
    {
        proof {
            assert(all.take(i + 1).drop_last() =~= all.take(i as int));
            assert(all[i as int].len() == masks@[i as int]@.len());
        }
        if t < masks[i].len() {
            assert(all[i as int][t as int] == crate::oods::rows(masks@[i as int]@[t as int]@));
            crate::oods::push_columns(&mut r, &masks[i][t]);
        }
        i = i + 1;
    }
    assert(all.take(i as int) =~= all);
    r
}

fn names_column(indices: &Vec<Vec<usize>>, c: usize) -> (r: bool)
    ensures
        r == is_named(crate::oods::rows(indices@), c as int),
{
    let ghost all = crate::oods::rows(indices@);
    let mut i: usize = 0;
    while i < indices.len()
        invariant
            i <= indices@.len(),
            all == crate::oods::rows(indices@),
            forall|k: int, j: int| 0 <= k < i && 0 <= j < all[k].len() ==> #[trigger] all[k][j] != c,
        decreases indices@.len() - i,
    {
        let mut j: usize = 0;
        while j < indices[i].len()
            invariant
                i < indices@.len(),
                all == crate::oods::rows(indices@),
                j <= indices@[i as int]@.len(),
                forall|k: int| 0 <= k < j ==> #[trigger] all[i as int][k] != c,
            decreases indices@[i as int]@.len() - j,
        {
            if indices[i][j] == c {
                assert(all[i as int][j as int] == c);
                return true;
            }
            j = j + 1;
        }
        i = i + 1;
    }
    false
}

fn are_in_range(indices: &Vec<Vec<usize>>, n_preprocessed_columns: usize) -> (r: bool)
    ensures
        r == in_range(crate::oods::rows(indices@), n_preprocessed_columns as nat),
{
    let ghost all = crate::oods::rows(indices@);
    let mut i: usize = 0;
    while i < indices.len()
        invariant
            i <= indices@.len(),
            all == crate::oods::rows(indices@),
            forall|k: int, j: int|
                0 <= k < i && 0 <= j < all[k].len() ==> #[trigger] all[k][j]
                    < n_preprocessed_columns,
        decreases indices@.len() - i,
    {
        let mut j: usize = 0;
        while j < indices[i].len()
            invariant
                i < indices@.len(),
                all == crate::oods::rows(indices@),
                j <= indices@[i as int]@.len(),
                forall|k: int|
                    0 <= k < j ==> #[trigger] all[i as int][k] < n_preprocessed_columns,
            decreases indices@[i as int]@.len() - j,
        {
            if indices[i][j] >= n_preprocessed_columns {
                assert(!(all[i as int][j as int] < n_preprocessed_columns));
                return false;
            }
            j = j + 1;
        }
        i = i + 1;
    }
    true
}

fn sample_preprocessed(
    indices: &Vec<Vec<usize>>,
    n_preprocessed_columns: usize,
    point: CirclePoint,
) -> (r: Vec<Vec<CirclePoint>>)
    ensures
        crate::oods::rows(r@) == preprocessed_tree(
            crate::oods::rows(indices@),
            n_preprocessed_columns as nat,
            point,
        ),
{
    let ghost all = crate::oods::rows(indices@);
    let ghost expected = preprocessed_tree(all, n_preprocessed_columns as nat, point);
    let mut r: Vec<Vec<CirclePoint>> = Vec::new();
    let mut c: usize = 0;
    while c < n_preprocessed_columns
        invariant
            c <= n_preprocessed_columns,
            all == crate::oods::rows(indices@),
            expected == preprocessed_tree(all, n_preprocessed_columns as nat, point),
            crate::oods::rows(r@) == expected.take(c as int),
        decreases n_preprocessed_columns - c,
    {
        let mut column: Vec<CirclePoint> = Vec::new();
        if names_column(indices, c) {
            column.push(point);
        }
        let ghost before = r@;
        r.push(column);
        proof {
            assert(column@ =~= expected[c as int]);
            assert(crate::oods::rows(r@) =~= crate::oods::rows(before).push(column@));
            assert(expected.take(c + 1) =~= expected.take(c as int).push(expected[c as int]));
        }
        c = c + 1;
    }
    assert(expected.take(c as int) =~= expected);
    r
}

/// Makes up the mask of the components' answers.
pub fn assemble(
    masks: &Vec<Vec<Vec<Vec<CirclePoint>>>>,
    indices: &Vec<Vec<usize>>,
    n_preprocessed_columns: usize,
    point: CirclePoint,
) -> (r: Option<Vec<Vec<Vec<CirclePoint>>>>)
    ensures
        match r {
            Some(mask) => Some(crate::oods::nested(mask@)),
            None => None,
        } == assembled(
            all_masks(masks@),
            crate::oods::rows(indices@),
            n_preprocessed_columns as nat,
            point,
        ),
{
    let n_trees: usize = greatest_depth(masks);
    if n_trees == 0 || !are_in_range(indices, n_preprocessed_columns) {
        return None;
    }
    let ghost expected = assembled(
        all_masks(masks@),
        crate::oods::rows(indices@),
        n_preprocessed_columns as nat,
        point,
    )->0;
    let mut r: Vec<Vec<Vec<CirclePoint>>> = Vec::new();
    r.push(sample_preprocessed(indices, n_preprocessed_columns, point));
    let mut t: usize = 1;
    assert(crate::oods::nested(r@) =~= expected.take(1)) by {
        assert(crate::oods::nested(r@)[0] == crate::oods::rows(r@[0]@));
    }
    while t < n_trees
        invariant
            1 <= t <= n_trees,
            n_trees == expected.len(),
            forall|i: int|
                0 < i < n_trees ==> #[trigger] expected[i] == joined_tree(all_masks(masks@), i),
            crate::oods::nested(r@) == expected.take(t as int),
        decreases n_trees - t,
    {
        let tree: Vec<Vec<CirclePoint>> = join_tree(masks, t);
        let ghost before = r@;
        r.push(tree);
        proof {
            assert(crate::oods::rows(tree@) == expected[t as int]);
            assert(crate::oods::nested(r@) =~= crate::oods::nested(before).push(
                crate::oods::rows(tree@),
            ));
            assert(expected.take(t + 1) =~= expected.take(t as int).push(expected[t as int]));
        }
        t = t + 1;
    }
    assert(expected.take(t as int) =~= expected);
    Some(r)
}

/// Asks the components at which points the trace is to be sampled.
pub(crate) fn mask_points(
    components: &stwo::core::air::Components<'_>,
    n_preprocessed_columns: usize,
    point: CirclePoint,
) -> (r: Option<Vec<Vec<Vec<CirclePoint>>>>)
    requires
        point.wf(),
    ensures
        offers(
            *components,
            n_preprocessed_columns as nat,
            point,
            match r {
                Some(mask) => Some(crate::oods::nested(mask@)),
                None => None,
            },
        ),
{
    let n: usize = count_components(components);
    let mut masks: Vec<Vec<Vec<Vec<CirclePoint>>>> = Vec::new();
    let mut i: usize = 0;
    while i < n
        invariant
            i <= n,
            n == component_count(*components),
            point.wf(),
            masks@.len() == i,
            forall|k: int|
                0 <= k < i ==> states_mask(
                    *components,
                    k as nat,
                    point,
                    #[trigger] all_masks(masks@)[k],
                ),
        decreases n - i,
    {
        let mask: Vec<Vec<Vec<CirclePoint>>> = component_mask(components, i, point);
        let ghost before = masks@;
        masks.push(mask);
        assert(all_masks(masks@) =~= all_masks(before).push(crate::oods::nested(mask@)));
        i = i + 1;
    }
    let mut indices: Vec<Vec<usize>> = Vec::new();
    let mut i: usize = 0;
    while i < n
        invariant
            i <= n,
            n == component_count(*components),
            indices@.len() == i,
            forall|k: int|
                0 <= k < i ==> states_indices(
                    *components,
                    k as nat,
                    #[trigger] crate::oods::rows(indices@)[k],
                ),
        decreases n - i,
    {
        let named: Vec<usize> = component_indices(components, i);
        let ghost before = indices@;
        indices.push(named);
        assert(crate::oods::rows(indices@) =~= crate::oods::rows(before).push(named@));
        i = i + 1;
    }
    proof {
        assert(answers(
            *components,
            point,
            all_masks(masks@),
            crate::oods::rows(indices@),
        ));
    }
    assemble(&masks, &indices, n_preprocessed_columns, point)
}

} // verus!
