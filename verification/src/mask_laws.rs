//! Laws on the mask that the components' answers make up.

use vstd::prelude::*;
use crate::circle::CirclePoint;

verus! {

/// The number of columns that the first `i` masks have in tree `t`.
pub open spec fn columns_before(masks: Seq<Seq<Seq<Seq<CirclePoint>>>>, t: int, i: int) -> nat
    decreases i,
{
    if i <= 0 {
        0
    } else if t < masks[i - 1].len() {
        columns_before(masks, t, i - 1) + masks[i - 1][t].len()
    } else {
        columns_before(masks, t, i - 1)
    }
}

/// Column `c` of mask `i` stands in its place in tree `t`: after the columns before it in its own
/// mask, and those of the masks before.
pub open spec fn in_place(
    tree: Seq<Seq<CirclePoint>>,
    masks: Seq<Seq<Seq<Seq<CirclePoint>>>>,
    t: int,
    i: int,
    c: int,
) -> bool {
    &&& columns_before(masks, t, i) + c < tree.len()
    &&& tree[columns_before(masks, t, i) + c] == masks[i][t][c]
}

/// Tree `t` of a mask has the columns of all the masks, each at its own place: those of one mask
/// after those of the masks before it.
pub open spec fn holds_all_columns(
    tree: Seq<Seq<CirclePoint>>,
    masks: Seq<Seq<Seq<Seq<CirclePoint>>>>,
    t: int,
) -> bool {
    &&& tree.len() == columns_before(masks, t, masks.len() as int)
    &&& forall|i: int, c: int|
        0 <= i < masks.len() && t < masks[i].len() && 0 <= c < masks[i][t].len()
            ==> #[trigger] in_place(tree, masks, t, i, c)
}

/// The mask samples each preprocessed column that some component names at the point alone, and no
/// other; has every column of every component in its other trees; and has no tree that no
/// component has. There is a mask if and only if some component has a tree and all preprocessed
/// columns that are named are there.
pub open spec fn made_up_of(
    masks: Seq<Seq<Seq<Seq<CirclePoint>>>>,
    indices: Seq<Seq<usize>>,
    n_preprocessed_columns: nat,
    point: CirclePoint,
    mask: Option<Seq<Seq<Seq<CirclePoint>>>>,
) -> bool {
    &&& mask is Some <==> {
        &&& exists|i: int| 0 <= i < masks.len() && (#[trigger] masks[i]).len() > 0
        &&& forall|i: int, j: int|
            0 <= i < indices.len() && 0 <= j < indices[i].len() ==> #[trigger] indices[i][j]
                < n_preprocessed_columns
    }
    &&& mask matches Some(trees) ==> {
        &&& exists|i: int| 0 <= i < masks.len() && (#[trigger] masks[i]).len() == trees.len()
        &&& forall|i: int| 0 <= i < masks.len() ==> (#[trigger] masks[i]).len() <= trees.len()
        &&& trees[0].len() == n_preprocessed_columns
        &&& forall|i: int, j: int|
            0 <= i < indices.len() && 0 <= j < indices[i].len() ==> trees[0][#[trigger] indices[i][j] as int]
                == seq![point]
        &&& forall|c: int|
            0 <= c < n_preprocessed_columns && (#[trigger] trees[0][c]).len() > 0 ==> exists|
                i: int,
                j: int,
            |
                0 <= i < indices.len() && 0 <= j < indices[i].len() && #[trigger] indices[i][j] == c
        &&& forall|t: int| 0 < t < trees.len() ==> holds_all_columns(#[trigger] trees[t], masks, t)
    }
}

proof fn lemma_columns_prefix(
    masks: Seq<Seq<Seq<Seq<CirclePoint>>>>,
    t: int,
    i: int,
)
    requires
        masks.len() > 0,
        0 <= i < masks.len(),
    ensures
        columns_before(masks.drop_last(), t, i) == columns_before(masks, t, i),
    decreases i,
{
    if i > 0 {
        lemma_columns_prefix(masks, t, i - 1);
        assert(masks.drop_last()[i - 1] == masks[i - 1]);
    }
}

/// The joined columns of a tree hold all columns.
proof fn lemma_joined(masks: Seq<Seq<Seq<Seq<CirclePoint>>>>, t: int)
    requires
        t >= 0,
    ensures
        holds_all_columns(crate::air::joined_tree(masks, t), masks, t),
    decreases masks.len(),
{
    let tree = crate::air::joined_tree(masks, t);
    if masks.len() > 0 {
        let rest = masks.drop_last();
        let before = crate::air::joined_tree(rest, t);
        let last = masks.len() - 1;
        lemma_joined(rest, t);
        lemma_columns_prefix(masks, t, last);
        assert(masks.last() == masks[last]);
        assert(before.len() == columns_before(masks, t, last));
        assert(tree.len() == columns_before(masks, t, last + 1));
        assert forall|i: int, c: int|
            0 <= i < masks.len() && t < masks[i].len() && 0 <= c < masks[i][t].len()
            implies #[trigger] in_place(tree, masks, t, i, c) by {
            if i < last {
                assert(rest[i] == masks[i]);
                lemma_columns_prefix(masks, t, i);
                assert(in_place(before, rest, t, i, c));
            }
        }
    }
}

/// Each place in a tree is that of some column of some mask.
proof fn lemma_find_column(masks: Seq<Seq<Seq<Seq<CirclePoint>>>>, t: int, n: int, k: int) -> (r: (
    int,
    int,
))
    requires
        t >= 0,
        0 <= n <= masks.len(),
        0 <= k < columns_before(masks, t, n),
    ensures
        0 <= r.0 < n,
        t < masks[r.0].len(),
        0 <= r.1 < masks[r.0][t].len(),
        columns_before(masks, t, r.0) + r.1 == k,
    decreases n,
{
    if k < columns_before(masks, t, n - 1) {
        lemma_find_column(masks, t, n - 1, k)
    } else {
        (n - 1, k - columns_before(masks, t, n - 1))
    }
}

/// Two trees that hold all columns are the same.
proof fn lemma_columns_determine(
    tree: Seq<Seq<CirclePoint>>,
    other: Seq<Seq<CirclePoint>>,
    masks: Seq<Seq<Seq<Seq<CirclePoint>>>>,
    t: int,
)
    requires
        t >= 0,
        holds_all_columns(tree, masks, t),
        holds_all_columns(other, masks, t),
    ensures
        tree == other,
{
    assert forall|k: int| 0 <= k < tree.len() implies tree[k] == other[k] by {
        let (i, c) = lemma_find_column(masks, t, masks.len() as int, k);
        assert(in_place(tree, masks, t, i, c));
        assert(in_place(other, masks, t, i, c));
    }
    assert(tree =~= other);
}

proof fn lemma_depth(masks: Seq<Seq<Seq<Seq<CirclePoint>>>>)
    ensures
        forall|i: int| 0 <= i < masks.len() ==> (#[trigger] masks[i]).len() <= crate::air::depth(masks),
        crate::air::depth(masks) > 0 ==> exists|i: int|
            0 <= i < masks.len() && (#[trigger] masks[i]).len() == crate::air::depth(masks),
    decreases masks.len(),
{
    if masks.len() > 0 {
        let rest = masks.drop_last();
        let last = masks.len() - 1;
        lemma_depth(rest);
        assert(masks.last() == masks[last]);
        assert forall|i: int| 0 <= i < masks.len() implies (#[trigger] masks[i]).len()
            <= crate::air::depth(masks) by {
            if i < last {
                assert(rest[i] == masks[i]);
            }
        }
        if crate::air::depth(masks) > masks[last].len() {
            let i = choose|i: int|
                0 <= i < rest.len() && (#[trigger] rest[i]).len() == crate::air::depth(rest);
            assert(masks[i] == rest[i]);
            assert(masks[i].len() == crate::air::depth(masks));
        } else {
            assert(masks[last].len() == crate::air::depth(masks));
        }
    }
}

/// The mask of any number of components has in every tree but the first all columns of all
/// components, one component after another, and in the first the preprocessed columns, as many as
/// are committed.
pub proof fn law_mask_has_all_columns(
    masks: Seq<Seq<Seq<Seq<CirclePoint>>>>,
    indices: Seq<Seq<usize>>,
    n_preprocessed_columns: nat,
    point: CirclePoint,
)
    ensures
        made_up_of(
            masks,
            indices,
            n_preprocessed_columns,
            point,
            crate::air::assembled(masks, indices, n_preprocessed_columns, point),
        ),
{
    lemma_depth(masks);
    let mask = crate::air::assembled(masks, indices, n_preprocessed_columns, point);
    if exists|i: int| 0 <= i < masks.len() && (#[trigger] masks[i]).len() > 0 {
        let i = choose|i: int| 0 <= i < masks.len() && (#[trigger] masks[i]).len() > 0;
        assert(masks[i].len() <= crate::air::depth(masks));
    }
    if mask is Some {
        let trees = mask->0;
        let d = crate::air::depth(masks);
        assert(trees.len() == d);
        let i = choose|i: int| 0 <= i < masks.len() && (#[trigger] masks[i]).len() == d;
        assert(masks[i].len() == trees.len());
        assert forall|i: int, j: int|
            0 <= i < indices.len() && 0 <= j < indices[i].len() implies trees[0][#[trigger] indices[i][j] as int]
            == seq![point] by {
            assert(crate::air::is_named(indices, indices[i][j] as int));
        }
        assert forall|t: int| 0 < t < trees.len() implies holds_all_columns(
            #[trigger] trees[t],
            masks,
            t,
        ) by {
            lemma_joined(masks, t);
        }
    }
}

/// The answers determine the mask.
pub proof fn law_mask_is_determined(
    masks: Seq<Seq<Seq<Seq<CirclePoint>>>>,
    indices: Seq<Seq<usize>>,
    n_preprocessed_columns: nat,
    point: CirclePoint,
    mask: Option<Seq<Seq<Seq<CirclePoint>>>>,
)
    requires
        made_up_of(masks, indices, n_preprocessed_columns, point, mask),
    ensures
        mask == crate::air::assembled(masks, indices, n_preprocessed_columns, point),
{
    let other = crate::air::assembled(masks, indices, n_preprocessed_columns, point);
    law_mask_has_all_columns(masks, indices, n_preprocessed_columns, point);
    if mask is Some {
        let a = mask->0;
        let b = other->0;
        let i = choose|i: int| 0 <= i < masks.len() && (#[trigger] masks[i]).len() == a.len();
        let j = choose|j: int| 0 <= j < masks.len() && (#[trigger] masks[j]).len() == b.len();
        assert(masks[i].len() <= b.len());
        assert(masks[j].len() <= a.len());
        assert forall|c: int| 0 <= c < n_preprocessed_columns implies a[0][c] == b[0][c] by {
            if a[0][c].len() > 0 || b[0][c].len() > 0 {
                let (i, j) = choose|i: int, j: int|
                    0 <= i < indices.len() && 0 <= j < indices[i].len() && #[trigger] indices[i][j]
                        == c;
                assert(a[0][indices[i][j] as int] == seq![point]);
                assert(b[0][indices[i][j] as int] == seq![point]);
            } else {
                assert(a[0][c] =~= b[0][c]);
            }
        }
        assert(a[0] =~= b[0]);
        assert forall|t: int| 0 <= t < a.len() implies a[t] == b[t] by {
            if t > 0 {
                lemma_columns_determine(a[t], b[t], masks, t);
            }
        }
        assert(a =~= b);
    }
}

/// Each component can give the answers that stand in its place, for all components.
pub open spec fn stated(
    components: stwo::core::air::Components<'_>,
    point: CirclePoint,
    masks: Seq<Seq<Seq<Seq<CirclePoint>>>>,
    indices: Seq<Seq<usize>>,
) -> bool {
    &&& masks.len() == crate::air::component_count(components)
    &&& indices.len() == crate::air::component_count(components)
    &&& forall|i: int|
        0 <= i < masks.len() ==> crate::air::states_mask(
            components,
            i as nat,
            point,
            #[trigger] masks[i],
        )
    &&& forall|i: int|
        0 <= i < indices.len() ==> crate::air::states_indices(
            components,
            i as nat,
            #[trigger] indices[i],
        )
}

/// Some answers of the components at the point make up the mask.
pub open spec fn can_make_up(
    components: stwo::core::air::Components<'_>,
    n_preprocessed_columns: nat,
    point: CirclePoint,
    mask: Option<Seq<Seq<Seq<CirclePoint>>>>,
) -> bool {
    exists|masks: Seq<Seq<Seq<Seq<CirclePoint>>>>, indices: Seq<Seq<usize>>|
        #[trigger] stated(components, point, masks, indices) && made_up_of(
            masks,
            indices,
            n_preprocessed_columns,
            point,
            mask,
        )
}

/// A mask is offered if and only if it is made up of one answer of each component.
pub proof fn law_offered_masks(
    components: stwo::core::air::Components<'_>,
    n_preprocessed_columns: nat,
    point: CirclePoint,
    mask: Option<Seq<Seq<Seq<CirclePoint>>>>,
)
    ensures
        crate::air::offers(components, n_preprocessed_columns, point, mask) <==> can_make_up(
            components,
            n_preprocessed_columns,
            point,
            mask,
        ),
{
    if crate::air::offers(components, n_preprocessed_columns, point, mask) {
        let (masks, indices) = choose|
            masks: Seq<Seq<Seq<Seq<CirclePoint>>>>,
            indices: Seq<Seq<usize>>,
        |
            #[trigger] crate::air::answers(components, point, masks, indices) && mask
                == crate::air::assembled(masks, indices, n_preprocessed_columns, point);
        law_mask_has_all_columns(masks, indices, n_preprocessed_columns, point);
        assert(stated(components, point, masks, indices));
    }
    if can_make_up(components, n_preprocessed_columns, point, mask) {
        let (masks, indices) = choose|
            masks: Seq<Seq<Seq<Seq<CirclePoint>>>>,
            indices: Seq<Seq<usize>>,
        |
            #[trigger] stated(components, point, masks, indices) && made_up_of(
                masks,
                indices,
                n_preprocessed_columns,
                point,
                mask,
            );
        law_mask_is_determined(masks, indices, n_preprocessed_columns, point, mask);
        assert(crate::air::answers(components, point, masks, indices));
    }
}

/// A mask that is offered has as many columns in its first tree as preprocessed columns are
/// committed, whatever the components answer.
pub proof fn law_first_tree_is_preprocessed(
    components: stwo::core::air::Components<'_>,
    n_preprocessed_columns: nat,
    point: CirclePoint,
    mask: Seq<Seq<Seq<CirclePoint>>>,
)
    requires
        crate::air::offers(components, n_preprocessed_columns, point, Some(mask)),
    ensures
        mask.len() > 0,
        mask[0].len() == n_preprocessed_columns,
{
    law_offered_masks(components, n_preprocessed_columns, point, Some(mask));
    let (masks, indices) = choose|
        masks: Seq<Seq<Seq<Seq<CirclePoint>>>>,
        indices: Seq<Seq<usize>>,
    |
        #[trigger] stated(components, point, masks, indices) && made_up_of(
            masks,
            indices,
            n_preprocessed_columns,
            point,
            Some(mask),
        );
    let i = choose|i: int| 0 <= i < masks.len() && (#[trigger] masks[i]).len() > 0;
    assert(masks[i].len() <= mask.len());
}

/// One more component appends its columns: in every tree but the first, the mask of the components
/// and one more has the columns that it had before, followed by those of the new one, if that has
/// such a tree.
pub proof fn law_one_more_component(
    masks: Seq<Seq<Seq<Seq<CirclePoint>>>>,
    indices: Seq<Seq<usize>>,
    more: Seq<Seq<Seq<CirclePoint>>>,
    named: Seq<usize>,
    n_preprocessed_columns: nat,
    point: CirclePoint,
    t: int,
)
    requires
        crate::air::assembled(masks, indices, n_preprocessed_columns, point) is Some,
        forall|j: int| 0 <= j < named.len() ==> #[trigger] named[j] < n_preprocessed_columns,
        0 < t,
    ensures
        ({
            let before = crate::air::assembled(masks, indices, n_preprocessed_columns, point);
            let after = crate::air::assembled(
                masks.push(more),
                indices.push(named),
                n_preprocessed_columns,
                point,
            );
            &&& after is Some
            &&& after->0.len() == if more.len() > before->0.len() {
                more.len()
            } else {
                before->0.len()
            }
            &&& t < before->0.len() && t < more.len() ==> after->0[t] == before->0[t] + more[t]
            &&& t < before->0.len() && t >= more.len() ==> after->0[t] == before->0[t]
            &&& t >= before->0.len() && t < more.len() ==> after->0[t] == more[t]
            &&& after->0[0].len() == n_preprocessed_columns
            &&& before->0[0].len() == n_preprocessed_columns
            &&& forall|c: int|
                0 <= c < n_preprocessed_columns ==> #[trigger] after->0[0][c] == if exists|j: int|
                    0 <= j < named.len() && #[trigger] named[j] == c {
                    seq![point]
                } else {
                    before->0[0][c]
                }
        }),
{
    let joined = masks.push(more);
    let all = indices.push(named);
    assert(joined.drop_last() =~= masks);
    assert forall|i: int, j: int|
        0 <= i < all.len() && 0 <= j < all[i].len() implies #[trigger] all[i][j]
        < n_preprocessed_columns by {
        if i < indices.len() {
            assert(all[i] == indices[i]);
            assert(indices[i][j] < n_preprocessed_columns);
        } else {
            assert(named[j] < n_preprocessed_columns);
        }
    }
    if t >= crate::air::depth(masks) {
        lemma_depth(masks);
        lemma_no_columns(masks, t);
    }
    assert forall|c: int| crate::air::is_named(all, c) <==> crate::air::is_named(indices, c) || (
    exists|j: int| 0 <= j < named.len() && #[trigger] named[j] == c) by {
        if crate::air::is_named(all, c) {
            let (i, j) = choose|i: int, j: int|
                0 <= i < all.len() && 0 <= j < all[i].len() && #[trigger] all[i][j] == c;
            if i < indices.len() {
                assert(indices[i][j] == c);
            } else {
                assert(named[j] == c);
            }
        }
        if crate::air::is_named(indices, c) {
            let (i, j) = choose|i: int, j: int|
                0 <= i < indices.len() && 0 <= j < indices[i].len() && #[trigger] indices[i][j]
                    == c;
            assert(all[i][j] == c);
        }
        if exists|j: int| 0 <= j < named.len() && #[trigger] named[j] == c {
            let j = choose|j: int| 0 <= j < named.len() && #[trigger] named[j] == c;
            assert(all[indices.len() as int][j] == c);
        }
    }
}

proof fn lemma_no_columns(masks: Seq<Seq<Seq<Seq<CirclePoint>>>>, t: int)
    requires
        forall|i: int| 0 <= i < masks.len() ==> (#[trigger] masks[i]).len() <= t,
    ensures
        crate::air::joined_tree(masks, t) == Seq::<Seq<CirclePoint>>::empty(),
    decreases masks.len(),
{
    if masks.len() > 0 {
        let rest = masks.drop_last();
        assert forall|i: int| 0 <= i < rest.len() implies (#[trigger] rest[i]).len() <= t by {
            assert(rest[i] == masks[i]);
        }
        lemma_no_columns(rest, t);
        assert(masks.last() == masks[masks.len() - 1]);
    }
}

/// What the masks of several components hold is what each of them holds.
pub proof fn law_all_masks(masks: Seq<Vec<Vec<Vec<CirclePoint>>>>)
    ensures
        crate::air::all_masks(masks).len() == masks.len(),
        forall|i: int, t: int, c: int|
            0 <= i < masks.len() && 0 <= t < masks[i]@.len() && 0 <= c < masks[i]@[t]@.len()
                ==> #[trigger] crate::air::all_masks(masks)[i][t][c] == masks[i]@[t]@[c]@,
        forall|i: int|
            0 <= i < masks.len() ==> (#[trigger] crate::air::all_masks(masks)[i]).len()
                == masks[i]@.len(),
        forall|i: int, t: int|
            0 <= i < masks.len() && 0 <= t < masks[i]@.len() ==> (
            #[trigger] crate::air::all_masks(masks)[i][t]).len() == masks[i]@[t]@.len(),
{
}

/// Values fit the components at a point if and only if they have the trees, columns and entries of
/// a mask that the components make up there, for some number of preprocessed columns, followed by a
/// tree of four columns with one value each.
pub proof fn law_values_fit(
    components: stwo::core::air::Components<'_>,
    point: CirclePoint,
    values: Seq<Seq<Seq<crate::field::SecureField>>>,
)
    ensures
        crate::air::values_fit(components, point, values) <==> exists|
            n: nat,
            mask: Seq<Seq<Seq<CirclePoint>>>,
        |
            #[trigger] can_make_up(components, n, point, Some(mask)) && has_shape_of(values, mask),
{
    if crate::air::values_fit(components, point, values) {
        let (n, mask) = choose|n: nat, mask: Seq<Seq<Seq<CirclePoint>>>|
            #[trigger] crate::air::offers(components, n, point, Some(mask))
                && crate::oods::same_samples(
                crate::oods::with_composition(mask, point),
                values,
            );
        law_offered_masks(components, n, point, Some(mask));
        lemma_shape(values, mask, point);
        assert(can_make_up(components, n, point, Some(mask)));
    }
    if exists|n: nat, mask: Seq<Seq<Seq<CirclePoint>>>|
        #[trigger] can_make_up(components, n, point, Some(mask)) && has_shape_of(values, mask) {
        let (n, mask) = choose|n: nat, mask: Seq<Seq<Seq<CirclePoint>>>|
            #[trigger] can_make_up(components, n, point, Some(mask)) && has_shape_of(values, mask);
        law_offered_masks(components, n, point, Some(mask));
        lemma_shape(values, mask, point);
        assert(crate::air::offers(components, n, point, Some(mask)));
    }
}

/// There is one value for each point of the mask, and one more tree of four columns with one value
/// each.
pub open spec fn has_shape_of(
    values: Seq<Seq<Seq<crate::field::SecureField>>>,
    mask: Seq<Seq<Seq<CirclePoint>>>,
) -> bool {
    &&& values.len() == mask.len() + 1
    &&& forall|t: int| 0 <= t < mask.len() ==> (#[trigger] values[t]).len() == mask[t].len()
    &&& forall|t: int, c: int|
        0 <= t < mask.len() && 0 <= c < mask[t].len() ==> (#[trigger] values[t][c]).len()
            == mask[t][c].len()
    &&& values[mask.len() as int].len() == 4
    &&& forall|c: int| 0 <= c < 4 ==> (#[trigger] values[mask.len() as int][c]).len() == 1
}

proof fn lemma_shape(
    values: Seq<Seq<Seq<crate::field::SecureField>>>,
    mask: Seq<Seq<Seq<CirclePoint>>>,
    point: CirclePoint,
)
    ensures
        has_shape_of(values, mask) <==> crate::oods::same_samples(
            crate::oods::with_composition(mask, point),
            values,
        ),
{
    let points = crate::oods::with_composition(mask, point);
    let n = mask.len() as int;
    if crate::oods::same_samples(points, values) {
        assert forall|t: int| 0 <= t < mask.len() implies (#[trigger] values[t]).len()
            == mask[t].len() by {
            assert(points[t].len() == values[t].len());
        }
        assert forall|t: int, c: int| 0 <= t < mask.len() && 0 <= c < mask[t].len() implies (
        #[trigger] values[t][c]).len() == mask[t][c].len() by {
            assert(points[t][c].len() == values[t][c].len());
        }
        assert(points[n].len() == values[n].len());
        assert forall|c: int| 0 <= c < 4 implies (#[trigger] values[n][c]).len() == 1 by {
            assert(points[n][c].len() == values[n][c].len());
        }
    }
    if has_shape_of(values, mask) {
        assert forall|t: int| 0 <= t < points.len() implies (#[trigger] points[t]).len()
            == values[t].len() by {
            if t < n {
                assert(values[t].len() == mask[t].len());
            }
        }
        assert forall|t: int, c: int|
            0 <= t < points.len() && 0 <= c < points[t].len() implies (#[trigger] points[t][c]).len()
            == values[t][c].len() by {
            if t < n {
                assert(values[t][c].len() == mask[t][c].len());
            } else {
                assert(values[n][c].len() == 1);
            }
        }
    }
}

} // verus!
