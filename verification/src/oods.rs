//! Samples out of the domain: the points at which columns are sampled, and the values there.
//!
//! Samples are kept for each tree, each of its columns and each point of the column.

use vstd::prelude::*;
use crate::circle::CirclePoint;
use crate::field::Qm31;
use crate::field::SecureField;

verus! {

/// The samples that nested vectors hold.
pub open spec fn nested<T>(samples: Seq<Vec<Vec<T>>>) -> Seq<Seq<Seq<T>>> {
    samples.map_values(|tree: Vec<Vec<T>>| tree@.map_values(|column: Vec<T>| column@))
}

/// A canonical point of the circle that is not its own conjugate, so that a column can be
/// opened at it.
pub open spec fn proper_point(point: CirclePoint) -> bool {
    point.wf() && point.on_circle() && !point.self_conjugate()
}

/// Points and values have the same trees and the same number of columns in each.
pub open spec fn same_columns<T, U>(points: Seq<Seq<Seq<T>>>, values: Seq<Seq<Seq<U>>>) -> bool {
    &&& points.len() == values.len()
    &&& forall|t: int|
        0 <= t < points.len() ==> (#[trigger] points[t]).len() == values[t].len()
}

/// There is one value for each point.
pub open spec fn same_samples<T, U>(points: Seq<Seq<Seq<T>>>, values: Seq<Seq<Seq<U>>>) -> bool {
    &&& same_columns(points, values)
    &&& forall|t: int, c: int|
        0 <= t < points.len() && 0 <= c < points[t].len() ==> (#[trigger] points[t][c]).len()
            == values[t][c].len()
}

/// Wherever a point of a column meets a value, the column can be opened at the point and the value
/// has a conjugate to be held against. Points and values that are left over do not count.
pub open spec fn proper_column(points: Seq<CirclePoint>, values: Seq<SecureField>) -> bool {
    forall|k: int|
        0 <= k < points.len() && k < values.len() ==> proper_point(#[trigger] points[k])
            && values[k].conjugable()
}

/// All columns can be opened wherever a point meets a value.
pub open spec fn proper_samples(
    points: Seq<Seq<Seq<CirclePoint>>>,
    values: Seq<Seq<Seq<SecureField>>>,
) -> bool {
    forall|t: int, c: int|
        0 <= t < points.len() && 0 <= c < points[t].len() ==> proper_column(
            #[trigger] points[t][c],
            values[t][c],
        )
}

/// All values are canonical field elements.
pub open spec fn canonical_values(values: Seq<Seq<Seq<SecureField>>>) -> bool {
    forall|t: int, c: int, k: int|
        0 <= t < values.len() && 0 <= c < values[t].len() && 0 <= k < values[t][c].len()
            ==> (#[trigger] values[t][c][k]).wf()
}

fn is_proper(point: &CirclePoint) -> (r: bool)
    ensures
        r == proper_point(*point),
{
    if !point.x.is_canonical() || !point.y.is_canonical() {
        return false;
    }
    if point.y.c == 0 && point.y.d == 0 {
        return false;
    }
    point.is_on_circle()
}

/// Tests whether points and values have the same columns.
pub fn have_same_columns<T, U>(points: &Vec<Vec<Vec<T>>>, values: &Vec<Vec<Vec<U>>>) -> (r: bool)
    ensures
        r == same_columns(nested(points@), nested(values@)),
{
    if points.len() != values.len() {
        return false;
    }
    let ghost p = nested(points@);
    let ghost v = nested(values@);
    let mut t: usize = 0;
    while t < points.len()
        invariant
            t <= points@.len(),
            points@.len() == values@.len(),
            p == nested(points@),
            v == nested(values@),
            forall|i: int| 0 <= i < t ==> (#[trigger] p[i]).len() == v[i].len(),
        decreases points@.len() - t,
    {
        assert(p[t as int].len() == points@[t as int]@.len());
        assert(v[t as int].len() == values@[t as int]@.len());
        if points[t].len() != values[t].len() {
            return false;
        }
        t = t + 1;
    }
    true
}

/// Tests whether there is one value for each point.
pub fn have_same_samples<T, U>(points: &Vec<Vec<Vec<T>>>, values: &Vec<Vec<Vec<U>>>) -> (r: bool)
    ensures
        r == same_samples(nested(points@), nested(values@)),
{
    if !have_same_columns(points, values) {
        return false;
    }
    let ghost p = nested(points@);
    let ghost v = nested(values@);
    let mut t: usize = 0;
    while t < points.len()
        invariant
            t <= points@.len(),
            p == nested(points@),
            v == nested(values@),
            same_columns(p, v),
            forall|i: int, c: int|
                0 <= i < t && 0 <= c < p[i].len() ==> (#[trigger] p[i][c]).len() == v[i][c].len(),
        decreases points@.len() - t,
    {
        assert(p[t as int].len() == v[t as int].len());
        let mut c: usize = 0;
        while c < points[t].len()
            invariant
                t < points@.len(),
                p == nested(points@),
                v == nested(values@),
                same_columns(p, v),
                p[t as int].len() == v[t as int].len(),
                c <= points@[t as int]@.len(),
                forall|i: int|
                    0 <= i < c ==> (#[trigger] p[t as int][i]).len() == v[t as int][i].len(),
            decreases points@[t as int]@.len() - c,
        {
            assert(p[t as int][c as int] == points@[t as int]@[c as int]@);
            assert(v[t as int][c as int] == values@[t as int]@[c as int]@);
            if points[t][c].len() != values[t][c].len() {
                return false;
            }
            c = c + 1;
        }
        t = t + 1;
    }
    true
}

fn is_column_proper(points: &Vec<CirclePoint>, values: &Vec<SecureField>) -> (r: bool)
    ensures
        r == proper_column(points@, values@),
{
    let mut k: usize = 0;
    while k < points.len() && k < values.len()
        invariant
            k <= points@.len(),
            k <= values@.len(),
            forall|j: int| 0 <= j < k ==> proper_point(#[trigger] points@[j]) && values@[j].conjugable(),
        decreases points@.len() - k,
    {
        let fits: bool = is_proper(&points[k]) && values[k].is_conjugable();
        assert(fits == (proper_point(points@[k as int]) && values@[k as int].conjugable()));
        if !fits {
            return false;
        }
        proof {
            assert forall|j: int| 0 <= j < k + 1 implies proper_point(#[trigger] points@[j])
                && values@[j].conjugable() by {
                if j < k {
                    assert(proper_point(points@[j]) && values@[j].conjugable());
                } else {
                    assert(j == k);
                }
            }
        }
        k = k + 1;
    }
    true
}

/// Tests whether columns can be opened wherever a point meets a value.
pub fn samples_are_proper(
    points: &Vec<Vec<Vec<CirclePoint>>>,
    values: &Vec<Vec<Vec<SecureField>>>,
) -> (r: bool)
    requires
        same_columns(nested(points@), nested(values@)),
    ensures
        r == proper_samples(nested(points@), nested(values@)),
{
    let ghost p = nested(points@);
    let ghost v = nested(values@);
    let mut t: usize = 0;
    while t < points.len()
        invariant
            t <= points@.len(),
            p == nested(points@),
            v == nested(values@),
            same_columns(p, v),
            forall|i: int, c: int|
                0 <= i < t && 0 <= c < p[i].len() ==> proper_column(#[trigger] p[i][c], v[i][c]),
        decreases points@.len() - t,
    {
        assert(p[t as int].len() == v[t as int].len());
        let mut c: usize = 0;
        while c < points[t].len()
            invariant
                t < points@.len(),
                p == nested(points@),
                v == nested(values@),
                same_columns(p, v),
                p[t as int].len() == v[t as int].len(),
                c <= points@[t as int]@.len(),
                forall|i: int|
                    0 <= i < c ==> proper_column(#[trigger] p[t as int][i], v[t as int][i]),
            decreases points@[t as int]@.len() - c,
        {
            assert(p[t as int][c as int] == points@[t as int]@[c as int]@);
            assert(v[t as int][c as int] == values@[t as int]@[c as int]@);
            if !is_column_proper(&points[t][c], &values[t][c]) {
                return false;
            }
            c = c + 1;
        }
        t = t + 1;
    }
    true
}

/// Tests whether all the values are canonical.
pub fn values_are_canonical(values: &Vec<Vec<Vec<SecureField>>>) -> (r: bool)
    ensures
        r == canonical_values(nested(values@)),
{
    let ghost all = nested(values@);
    let mut t: usize = 0;
    while t < values.len()
        invariant
            t <= values@.len(),
            all == nested(values@),
            canonical_values(all.take(t as int)),
        decreases values@.len() - t,
    {
        let tree: &Vec<Vec<SecureField>> = &values[t];
        let mut c: usize = 0;
        while c < tree.len()
            invariant
                t < values@.len(),
                all == nested(values@),
                *tree == values@[t as int],
                c <= tree@.len(),
                forall|i: int, k: int|
                    0 <= i < c && 0 <= k < all[t as int][i].len() ==> (
                    #[trigger] all[t as int][i][k]).wf(),
            decreases tree@.len() - c,
        {
            let column: &Vec<SecureField> = &tree[c];
            let mut k: usize = 0;
            while k < column.len()
                invariant
                    t < values@.len(),
                    all == nested(values@),
                    *tree == values@[t as int],
                    c < tree@.len(),
                    *column == tree@[c as int],
                    k <= column@.len(),
                    forall|j: int|
                        0 <= j < k ==> (#[trigger] all[t as int][c as int][j]).wf(),
                decreases column@.len() - k,
            {
                if !column[k].is_canonical() {
                    assert(!all[t as int][c as int][k as int].wf());
                    return false;
                }
                k = k + 1;
            }
            c = c + 1;
        }
        assert forall|i: int, c: int, k: int|
            0 <= i < all.take(t + 1).len() && 0 <= c < all.take(t + 1)[i].len() && 0 <= k
                < all.take(t + 1)[i][c].len() implies (#[trigger] all.take(t + 1)[i][c][k]).wf() by {
            if i < t {
                assert(all.take(t as int)[i][c][k].wf());
            }
        }
        t = t + 1;
    }
    assert(all.take(t as int) =~= all);
    true
}

/// The points at which a proof opens its columns: those of the mask and, for each of the four
/// coordinate columns of the composition polynomial, the out-of-domain point.
pub open spec fn with_composition(
    mask: Seq<Seq<Seq<CirclePoint>>>,
    point: CirclePoint,
) -> Seq<Seq<Seq<CirclePoint>>> {
    mask.push(seq![seq![point], seq![point], seq![point], seq![point]])
}

/// Appends the points of the composition polynomial to those of the mask.
pub fn sample_points(mask: Vec<Vec<Vec<CirclePoint>>>, point: CirclePoint) -> (r: Vec<
    Vec<Vec<CirclePoint>>,
>)
    ensures
        nested(r@) == with_composition(nested(mask@), point),
{
    let row: Vec<Vec<CirclePoint>> = vec![vec![point], vec![point], vec![point], vec![point]];
    let mut points = mask;
    points.push(row);
    proof {
        let expected = with_composition(nested(mask@), point);
        assert(nested(points@).last() =~= expected.last()) by {
            assert forall|c: int| 0 <= c < 4 implies #[trigger] row@[c]@ == seq![point] by {
                assert(row@[c]@ =~= seq![point]);
            }
        }
        assert(nested(points@) =~= expected);
    }
    points
}

/// The last tree has four columns with one value each.
pub open spec fn has_composition_row(values: Seq<Seq<Seq<SecureField>>>) -> bool {
    &&& values.len() > 0
    &&& values.last().len() == 4
    &&& forall|c: int| 0 <= c < 4 ==> (#[trigger] values.last()[c]).len() == 1
}

/// The words of the value of the composition polynomial that the coordinate columns in the last
/// tree give.
pub open spec fn composition_eval(values: Seq<Seq<Seq<SecureField>>>) -> SecureField {
    crate::field::combined(
        values.last()[0][0],
        values.last()[1][0],
        values.last()[2][0],
        values.last()[3][0],
    )
}

/// The coordinates in the row of the composition polynomial can be combined.
pub open spec fn combinable_row(values: Seq<Seq<Seq<SecureField>>>) -> bool {
    crate::field::combinable(values.last()[0][0], values.last()[1][0])
}

/// Tests whether the last tree has four columns with one value each.
pub fn is_composition_row_present(values: &Vec<Vec<Vec<SecureField>>>) -> (r: bool)
    ensures
        r == has_composition_row(nested(values@)),
{
    if values.len() == 0 {
        return false;
    }
    let row: &Vec<Vec<SecureField>> = &values[values.len() - 1];
    proof {
        let all = nested(values@);
        assert(all.last().len() == row@.len());
        if row@.len() == 4 {
            assert(all.last()[0] == row@[0]@);
            assert(all.last()[1] == row@[1]@);
            assert(all.last()[2] == row@[2]@);
            assert(all.last()[3] == row@[3]@);
        }
    }
    row.len() == 4 && row[0].len() == 1 && row[1].len() == 1 && row[2].len() == 1 && row[3].len()
        == 1
}

/// Tests whether the coordinates in the row of the composition polynomial can be combined.
pub fn is_row_combinable(values: &Vec<Vec<Vec<SecureField>>>) -> (r: bool)
    requires
        has_composition_row(nested(values@)),
    ensures
        r == combinable_row(nested(values@)),
{
    let row: &Vec<Vec<SecureField>> = &values[values.len() - 1];
    proof {
        lemma_row(values@);
    }
    crate::field::is_combinable(row[0][0], row[1][0])
}

/// The row of the composition polynomial, by the vectors that hold it.
proof fn lemma_row(values: Seq<Vec<Vec<SecureField>>>)
    requires
        has_composition_row(nested(values)),
    ensures
        values.len() > 0,
        values.last()@.len() == 4,
        forall|c: int|
            0 <= c < 4 ==> {
                &&& #[trigger] nested(values).last()[c] == values.last()@[c]@
                &&& values.last()@[c]@.len() == 1
            },
        nested(values).last()[0] == values.last()@[0]@,
        nested(values).last()[1] == values.last()@[1]@,
        nested(values).last()[2] == values.last()@[2]@,
        nested(values).last()[3] == values.last()@[3]@,
{
    let all = nested(values);
    assert(all.last().len() == values.last()@.len());
    assert forall|c: int| 0 <= c < 4 implies {
        &&& #[trigger] all.last()[c] == values.last()@[c]@
        &&& values.last()@[c]@.len() == 1
    } by {
        assert(all.last()[c].len() == 1);
    }
}

/// The value of the composition polynomial that the sampled values give, if the last tree has
/// four columns with one value each.
pub fn extract_composition_oods_eval(values: &Vec<Vec<Vec<SecureField>>>) -> (r: Option<
    SecureField,
>)
    requires
        has_composition_row(nested(values@)) ==> combinable_row(nested(values@)),
    ensures
        r is Some <==> has_composition_row(nested(values@)),
        r matches Some(value) ==> value == composition_eval(nested(values@)),
{
    if !is_composition_row_present(values) {
        return None;
    }
    let row: &Vec<Vec<SecureField>> = &values[values.len() - 1];
    proof {
        lemma_row(values@);
    }
    Some(crate::field::from_partial_evals([row[0][0], row[1][0], row[2][0], row[3][0]]))
}

/// The sequences one after another.
pub open spec fn concat<T>(parts: Seq<Seq<T>>) -> Seq<T>
    decreases parts.len(),
{
    if parts.len() == 0 {
        Seq::empty()
    } else {
        concat(parts.drop_last()) + parts.last()
    }
}

/// One more part is appended at the end.
pub proof fn lemma_concat_take<T>(parts: Seq<Seq<T>>, n: int)
    requires
        0 <= n < parts.len(),
    ensures
        concat(parts.take(n + 1)) == concat(parts.take(n)) + parts[n],
{
    assert(parts.take(n + 1).drop_last() =~= parts.take(n));
}

/// What nested vectors hold.
pub open spec fn rows<T>(parts: Seq<Vec<T>>) -> Seq<Seq<T>> {
    parts.map_values(|part: Vec<T>| part@)
}

/// Copies vectors one after another into one.
pub fn flatten<T: Copy>(parts: &Vec<Vec<T>>) -> (r: Vec<T>)
    ensures
        r@ == concat(rows(parts@)),
{
    let ghost all = rows(parts@);
    let mut r: Vec<T> = Vec::new();
    let mut i: usize = 0;
    while i < parts.len()
        invariant
            i <= parts@.len(),
            all == rows(parts@),
            r@ == concat(all.take(i as int)),
        decreases parts@.len() - i,
    {
        let part: &Vec<T> = &parts[i];
        let mut k: usize = 0;
        while k < part.len()
            invariant
                i < parts@.len(),
                k <= part@.len(),
                r@ == concat(all.take(i as int)) + part@.take(k as int),
            decreases part@.len() - k,
        {
            r.push(part[k]);
            assert(part@.take(k + 1) =~= part@.take(k as int).push(part@[k as int]));
            k = k + 1;
        }
        proof {
            lemma_concat_take(all, i as int);
            assert(part@.take(k as int) =~= all[i as int]);
        }
        i = i + 1;
    }
    assert(all.take(i as int) =~= all);
    r
}

/// All values in the order in which a channel absorbs them.
pub open spec fn all_values(values: Seq<Seq<Seq<SecureField>>>) -> Seq<SecureField> {
    concat(values.map_values(|tree: Seq<Seq<SecureField>>| concat(tree)))
}

/// Copies all values one after another.
pub fn flatten_values(values: &Vec<Vec<Vec<SecureField>>>) -> (r: Vec<SecureField>)
    ensures
        r@ == all_values(nested(values@)),
{
    let ghost all = nested(values@);
    let ghost flat = all.map_values(|tree: Seq<Seq<SecureField>>| concat(tree));
    let mut trees: Vec<Vec<SecureField>> = Vec::new();
    let mut t: usize = 0;
    while t < values.len()
        invariant
            t <= values@.len(),
            all == nested(values@),
            flat == all.map_values(|tree: Seq<Seq<SecureField>>| concat(tree)),
            rows(trees@) == flat.take(t as int),
        decreases values@.len() - t,
    {
        let tree: Vec<SecureField> = flatten(&values[t]);
        assert(all[t as int] == rows(values@[t as int]@));
        let ghost before = trees@;
        trees.push(tree);
        assert(rows(trees@) =~= rows(before).push(tree@));
        assert(flat.take(t + 1) =~= flat.take(t as int).push(flat[t as int]));
        t = t + 1;
    }
    assert(flat.take(t as int) =~= flat);
    flatten(&trees)
}

/// Copies samples.
pub fn copy_samples<T: Copy>(samples: &Vec<Vec<Vec<T>>>) -> (r: Vec<Vec<Vec<T>>>)
    ensures
        nested(r@) == nested(samples@),
{
    let ghost all = nested(samples@);
    let mut r: Vec<Vec<Vec<T>>> = Vec::new();
    let mut t: usize = 0;
    while t < samples.len()
        invariant
            t <= samples@.len(),
            all == nested(samples@),
            nested(r@) == all.take(t as int),
        decreases samples@.len() - t,
    {
        let mut tree: Vec<Vec<T>> = Vec::new();
        push_columns(&mut tree, &samples[t]);
        let ghost before = r@;
        r.push(tree);
        assert(rows(tree@) =~= all[t as int]);
        assert(nested(r@) =~= nested(before).push(rows(tree@)));
        assert(all.take(t + 1) =~= all.take(t as int).push(all[t as int]));
        t = t + 1;
    }
    assert(all.take(t as int) =~= all);
    r
}

/// Appends copies of columns to a tree.
pub fn push_columns<T: Copy>(tree: &mut Vec<Vec<T>>, columns: &Vec<Vec<T>>)
    ensures
        rows(final(tree)@) == rows(old(tree)@) + rows(columns@),
{
    let ghost start = rows(tree@);
    let ghost all = rows(columns@);
    let mut c: usize = 0;
    while c < columns.len()
        invariant
            c <= columns@.len(),
            all == rows(columns@),
            rows(tree@) == start + all.take(c as int),
        decreases columns@.len() - c,
    {
        let column: &Vec<T> = &columns[c];
        let mut copy: Vec<T> = Vec::new();
        let mut k: usize = 0;
        while k < column.len()
            invariant
                k <= column@.len(),
                copy@ == column@.take(k as int),
            decreases column@.len() - k,
        {
            copy.push(column[k]);
            assert(column@.take(k + 1) =~= column@.take(k as int).push(column@[k as int]));
            k = k + 1;
        }
        let ghost before = tree@;
        tree.push(copy);
        assert(column@.take(k as int) =~= all[c as int]);
        assert(rows(tree@) =~= rows(before).push(copy@));
        assert(all.take(c + 1) =~= all.take(c as int).push(all[c as int]));
        assert(start + all.take(c + 1) =~= (start + all.take(c as int)).push(all[c as int]));
        c = c + 1;
    }
    assert(all.take(c as int) =~= all);
}

} // verus!
