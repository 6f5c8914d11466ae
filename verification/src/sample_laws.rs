//! Laws on sampled values, and on the field that they lie in.

use vstd::prelude::*;
use crate::circle::CirclePoint;
use crate::field::Qm31;
use crate::field::SecureField;

verus! {

/// All four words lie below `2^31 - 1`.
pub open spec fn words_reduced(value: SecureField) -> bool {
    value.a < 0x7fff_ffff && value.b < 0x7fff_ffff && value.c < 0x7fff_ffff && value.d < 0x7fff_ffff
}

/// Sums are taken coordinate by coordinate, and products with `i*i = -1` and `u*u = 2 + i`, all
/// modulo `2^31 - 1`.
pub proof fn law_arithmetic(x: Qm31, y: Qm31)
    ensures
        x.plus(y) == Qm31::of(
            (x.s.re + y.s.re) % 0x7fff_ffff,
            (x.s.im + y.s.im) % 0x7fff_ffff,
            (x.t.re + y.t.re) % 0x7fff_ffff,
            (x.t.im + y.t.im) % 0x7fff_ffff,
        ),
        x.negated() == Qm31::of(
            (-x.s.re) % 0x7fff_ffff,
            (-x.s.im) % 0x7fff_ffff,
            (-x.t.re) % 0x7fff_ffff,
            (-x.t.im) % 0x7fff_ffff,
        ),
        x.minus(y) == x.plus(y.negated()),
        ({
            let re = x.t.re * y.t.re - x.t.im * y.t.im;
            let im = x.t.re * y.t.im + x.t.im * y.t.re;
            x.times(y) == Qm31::of(
                (x.s.re * y.s.re - x.s.im * y.s.im + 2 * re - im) % 0x7fff_ffff,
                (x.s.re * y.s.im + x.s.im * y.s.re + 2 * im + re) % 0x7fff_ffff,
                (x.s.re * y.t.re - x.s.im * y.t.im + x.t.re * y.s.re - x.t.im * y.s.im)
                    % 0x7fff_ffff,
                (x.s.re * y.t.im + x.s.im * y.t.re + x.t.re * y.s.im + x.t.im * y.s.re)
                    % 0x7fff_ffff,
            )
        }),
{
    reveal(Qm31::plus);
    reveal(Qm31::negated);
    reveal(Qm31::times);
}

/// An element is canonical if and only if its words are reduced, and is seen by its words.
pub proof fn law_canonical(value: SecureField)
    ensures
        value.wf() <==> words_reduced(value),
        value@.s.re == value.a,
        value@.s.im == value.b,
        value@.t.re == value.c,
        value@.t.im == value.d,
{
}

/// A conjugate can be formed if and only if the first two words are at most `2^31` and the others
/// at most `2^31 - 1`.
pub proof fn law_conjugable(value: SecureField)
    ensures
        value.conjugable() <==> {
            &&& value.a <= 0x8000_0000
            &&& value.b <= 0x8000_0000
            &&& value.c <= 0x7fff_ffff
            &&& value.d <= 0x7fff_ffff
        },
{
}

/// A factor of `i` turns the words of both parts: `(a + b*i)*i = -b + a*i`.
proof fn lemma_times_i(x: Qm31)
    ensures
        x.times(Qm31::of(0, 1, 0, 0)) == Qm31::of(
            (-x.s.im) % 0x7fff_ffff,
            x.s.re % 0x7fff_ffff,
            (-x.t.im) % 0x7fff_ffff,
            x.t.re % 0x7fff_ffff,
        ),
{
    reveal(Qm31::times);
}

/// `(c + d*i)*u*u = (2*c - d) + (c + 2*d)*i`.
proof fn lemma_times_u(x: Qm31)
    ensures
        x.times(Qm31::of(0, 0, 1, 0)) == Qm31::of(
            (2 * x.t.re - x.t.im) % 0x7fff_ffff,
            (x.t.re + 2 * x.t.im) % 0x7fff_ffff,
            x.s.re % 0x7fff_ffff,
            x.s.im % 0x7fff_ffff,
        ),
{
    reveal(Qm31::times);
}

/// `(a + b*i)*i*u = (-b + a*i)*u`, and `(c + d*i)*i*u*u = (-c - 2*d) + (2*c - d)*i`.
proof fn lemma_times_iu(x: Qm31)
    ensures
        x.times(Qm31::of(0, 0, 0, 1)) == Qm31::of(
            (-x.t.re - 2 * x.t.im) % 0x7fff_ffff,
            (2 * x.t.re - x.t.im) % 0x7fff_ffff,
            (-x.s.im) % 0x7fff_ffff,
            x.s.re % 0x7fff_ffff,
        ),
{
    reveal(Qm31::times);
}

/// Coordinates can be combined if and only if the words of `e0`, with the reduced words of `e1*i`
/// added, fit into 32 bits.
pub proof fn law_combinable(e0: SecureField, e1: SecureField)
    ensures
        crate::field::combinable(e0, e1) <==> {
            &&& e0.a + (-(e1.b as int)) % 0x7fff_ffff <= 0xffff_ffff
            &&& e0.b + e1.a as int % 0x7fff_ffff <= 0xffff_ffff
            &&& e0.c + (-(e1.d as int)) % 0x7fff_ffff <= 0xffff_ffff
            &&& e0.d + e1.c as int % 0x7fff_ffff <= 0xffff_ffff
        },
{
    lemma_times_i(e1@);
}

/// Adding a reduced word keeps the sum modulo `2^31 - 1`.
proof fn lemma_added(w: int, p: int)
    requires
        w >= 0,
    ensures
        ({
            let v = crate::field::added(w, p % 0x7fff_ffff);
            &&& v % 0x7fff_ffff == (w + p) % 0x7fff_ffff
            &&& v >= 0
            &&& w < 0x7fff_ffff ==> v < 0x7fff_ffff
            &&& v <= w || v < 0x7fff_ffff
        }),
{
    let c = p % 0x7fff_ffff;
    assert(0 <= c < 0x7fff_ffff);
    vstd::arithmetic::div_mod::lemma_add_mod_noop_right(w, p, 0x7fff_ffff);
    vstd::arithmetic::div_mod::lemma_mod_multiples_vanish(-1, w + c, 0x7fff_ffff);
}

/// Adding reduced words one by one keeps the sum modulo `2^31 - 1`.
proof fn lemma_words_add(w: u32, p: int, q: int, r: int)
    ensures
        ({
            let v = crate::field::added(
                crate::field::added(
                    crate::field::added(w as int, p % 0x7fff_ffff),
                    q % 0x7fff_ffff,
                ),
                r % 0x7fff_ffff,
            );
            &&& v % 0x7fff_ffff == (w + p + q + r) % 0x7fff_ffff
            &&& 0 <= v <= 0xffff_ffff
            &&& w < 0x7fff_ffff ==> v < 0x7fff_ffff
        }),
{
    let first = crate::field::added(w as int, p % 0x7fff_ffff);
    let second = crate::field::added(first, q % 0x7fff_ffff);
    lemma_added(w as int, p);
    lemma_added(first, q);
    lemma_added(second, r);
    vstd::arithmetic::div_mod::lemma_add_mod_noop(first, q, 0x7fff_ffff);
    vstd::arithmetic::div_mod::lemma_add_mod_noop(w + p, q, 0x7fff_ffff);
    vstd::arithmetic::div_mod::lemma_add_mod_noop(second, r, 0x7fff_ffff);
    vstd::arithmetic::div_mod::lemma_add_mod_noop(w + p + q, r, 0x7fff_ffff);
}

/// The words that coordinates are combined to: those of `e0 + e1*i + e2*u + e3*i*u` modulo
/// `2^31 - 1`, and reduced where those of `e0` are.
pub proof fn law_combined(e0: SecureField, e1: SecureField, e2: SecureField, e3: SecureField)
    requires
        crate::field::combinable(e0, e1),
    ensures
        ({
            let r = crate::field::combined(e0, e1, e2, e3);
            &&& r.a as int % 0x7fff_ffff == (e0.a - e1.b + 2 * e2.c - e2.d - e3.c - 2 * e3.d)
                % 0x7fff_ffff
            &&& r.b as int % 0x7fff_ffff == (e0.b + e1.a + e2.c + 2 * e2.d + 2 * e3.c - e3.d)
                % 0x7fff_ffff
            &&& r.c as int % 0x7fff_ffff == (e0.c - e1.d + e2.a - e3.b) % 0x7fff_ffff
            &&& r.d as int % 0x7fff_ffff == (e0.d + e1.c + e2.b + e3.a) % 0x7fff_ffff
            &&& e0.a < 0x7fff_ffff ==> r.a < 0x7fff_ffff
            &&& e0.b < 0x7fff_ffff ==> r.b < 0x7fff_ffff
            &&& e0.c < 0x7fff_ffff ==> r.c < 0x7fff_ffff
            &&& e0.d < 0x7fff_ffff ==> r.d < 0x7fff_ffff
        }),
{
    lemma_times_i(e1@);
    lemma_times_u(e2@);
    lemma_times_iu(e3@);
    lemma_words_add(e0.a, -(e1.b as int), 2 * e2.c - e2.d, -(e3.c as int) - 2 * e3.d);
    lemma_words_add(e0.b, e1.a as int, e2.c + 2 * e2.d, 2 * e3.c - e3.d);
    lemma_words_add(e0.c, -(e1.d as int), e2.a as int, -(e3.b as int));
    lemma_words_add(e0.d, e1.c as int, e2.b as int, e3.a as int);
}

/// The entry at place `k` of column `c` of tree `t` of nested vectors is that of what they hold.
pub proof fn law_nested<T>(samples: Seq<Vec<Vec<T>>>)
    ensures
        crate::oods::nested(samples).len() == samples.len(),
        forall|t: int|
            0 <= t < samples.len() ==> (#[trigger] crate::oods::nested(samples)[t]).len()
                == samples[t]@.len(),
        forall|t: int, c: int|
            0 <= t < samples.len() && 0 <= c < samples[t]@.len()
                ==> #[trigger] crate::oods::nested(samples)[t][c] == samples[t]@[c]@,
{
}

/// So is the entry at place `k` of part `t` of vectors of vectors.
pub proof fn law_rows<T>(parts: Seq<Vec<T>>)
    ensures
        crate::oods::rows(parts).len() == parts.len(),
        forall|t: int|
            0 <= t < parts.len() ==> #[trigger] crate::oods::rows(parts)[t] == parts[t]@,
{
}

/// A proof opens its columns at the points of the mask, and at one point in each of four columns
/// of one more tree.
pub proof fn law_sample_points(mask: Seq<Seq<Seq<CirclePoint>>>, point: CirclePoint)
    ensures
        ({
            let points = crate::oods::with_composition(mask, point);
            &&& points.len() == mask.len() + 1
            &&& forall|t: int| 0 <= t < mask.len() ==> #[trigger] points[t] == mask[t]
            &&& points[mask.len() as int].len() == 4
            &&& forall|c: int|
                0 <= c < 4 ==> {
                    &&& (#[trigger] points[mask.len() as int][c]).len() == 1
                    &&& points[mask.len() as int][c][0] == point
                }
        }),
{
}

/// The last tree has four columns of one value.
pub open spec fn ends_in_row(values: Seq<Seq<Seq<SecureField>>>) -> bool {
    &&& values.len() >= 1
    &&& values[values.len() - 1].len() == 4
    &&& values[values.len() - 1][0].len() == 1
    &&& values[values.len() - 1][1].len() == 1
    &&& values[values.len() - 1][2].len() == 1
    &&& values[values.len() - 1][3].len() == 1
}

/// The values have a row for the composition polynomial if and only if the last tree has four
/// columns of one value.
pub proof fn law_composition_row(values: Seq<Seq<Seq<SecureField>>>)
    ensures
        crate::oods::has_composition_row(values) <==> ends_in_row(values),
{
}

/// The value that a row of reduced words gives is the sum of its entries, weighed with `1`, `i`,
/// `u` and `i*u`; such a row can always be combined.
pub proof fn law_row_value(values: Seq<Seq<Seq<SecureField>>>)
    requires
        values.len() >= 1,
        words_reduced(values[values.len() - 1][0][0]),
    ensures
        crate::oods::combinable_row(values),
        words_reduced(crate::oods::composition_eval(values)),
        ({
            let row = values[values.len() - 1];
            crate::oods::composition_eval(values)@ == row[0][0]@.plus(
                row[1][0]@.times(Qm31::of(0, 1, 0, 0)),
            ).plus(row[2][0]@.times(Qm31::of(0, 0, 1, 0))).plus(
                row[3][0]@.times(Qm31::of(0, 0, 0, 1)),
            )
        }),
{
    let row = values[values.len() - 1];
    crate::field::lemma_combined(row[0][0], row[1][0], row[2][0], row[3][0]);
}

/// The words of the first entry in the last tree, with the reduced words of `i` times the second
/// added, fit into 32 bits.
pub open spec fn row_fits(values: Seq<Seq<Seq<SecureField>>>) -> bool {
    let row = values[values.len() - 1];
    &&& row[0][0].a + (-(row[1][0].b as int)) % 0x7fff_ffff <= 0xffff_ffff
    &&& row[0][0].b + row[1][0].a as int % 0x7fff_ffff <= 0xffff_ffff
    &&& row[0][0].c + (-(row[1][0].d as int)) % 0x7fff_ffff <= 0xffff_ffff
    &&& row[0][0].d + row[1][0].c as int % 0x7fff_ffff <= 0xffff_ffff
}

/// What the last tree of values gives, whether its words are reduced or not: when it can be
/// combined, and its words modulo `2^31 - 1`.
pub proof fn law_row_words(values: Seq<Seq<Seq<SecureField>>>)
    requires
        values.len() >= 1,
    ensures
        crate::oods::combinable_row(values) <==> row_fits(values),
        row_fits(values) ==> {
            let row = values[values.len() - 1];
            let r = crate::oods::composition_eval(values);
            &&& r.a as int % 0x7fff_ffff == (row[0][0].a - row[1][0].b + 2 * row[2][0].c
                - row[2][0].d - row[3][0].c - 2 * row[3][0].d) % 0x7fff_ffff
            &&& r.b as int % 0x7fff_ffff == (row[0][0].b + row[1][0].a + row[2][0].c + 2
                * row[2][0].d + 2 * row[3][0].c - row[3][0].d) % 0x7fff_ffff
            &&& r.c as int % 0x7fff_ffff == (row[0][0].c - row[1][0].d + row[2][0].a
                - row[3][0].b) % 0x7fff_ffff
            &&& r.d as int % 0x7fff_ffff == (row[0][0].d + row[1][0].c + row[2][0].b
                + row[3][0].a) % 0x7fff_ffff
        },
{
    let row = values[values.len() - 1];
    law_combinable(row[0][0], row[1][0]);
    if crate::oods::combinable_row(values) {
        law_combined(row[0][0], row[1][0], row[2][0], row[3][0]);
    }
}

/// There is one value for each point if and only if trees, columns and entries are as many.
pub proof fn law_same_samples<T, U>(points: Seq<Seq<Seq<T>>>, values: Seq<Seq<Seq<U>>>)
    ensures
        crate::oods::same_columns(points, values) <==> {
            &&& points.len() == values.len()
            &&& forall|t: int|
                0 <= t < values.len() ==> points[t].len() == (#[trigger] values[t]).len()
        },
        crate::oods::same_samples(points, values) <==> {
            &&& points.len() == values.len()
            &&& forall|t: int|
                0 <= t < values.len() ==> points[t].len() == (#[trigger] values[t]).len()
            &&& forall|t: int, c: int|
                0 <= t < values.len() && 0 <= c < values[t].len() ==> points[t][c].len() == (
                #[trigger] values[t][c]).len()
        },
{
    if crate::oods::same_columns(points, values) {
        assert forall|t: int| 0 <= t < values.len() implies points[t].len() == (
        #[trigger] values[t]).len() by {
            assert(points[t].len() == values[t].len());
        }
        if crate::oods::same_samples(points, values) {
            assert forall|t: int, c: int|
                0 <= t < values.len() && 0 <= c < values[t].len() implies points[t][c].len() == (
            #[trigger] values[t][c]).len() by {
                assert(points[t].len() == values[t].len());
                assert(points[t][c].len() == values[t][c].len());
            }
        }
    }
    if points.len() == values.len() && forall|t: int|
        0 <= t < values.len() ==> points[t].len() == (#[trigger] values[t]).len() {
        assert forall|t: int| 0 <= t < points.len() implies (#[trigger] points[t]).len()
            == values[t].len() by {
            assert(points[t].len() == values[t].len());
        }
        if forall|t: int, c: int|
            0 <= t < values.len() && 0 <= c < values[t].len() ==> points[t][c].len() == (
            #[trigger] values[t][c]).len() {
            assert forall|t: int, c: int|
                0 <= t < points.len() && 0 <= c < points[t].len() implies (
            #[trigger] points[t][c]).len() == values[t][c].len() by {
                assert(points[t].len() == values[t].len());
                assert(points[t][c].len() == values[t][c].len());
            }
        }
    }
}

/// All values are canonical if and only if all their words are reduced, whatever the words are.
pub proof fn law_canonical_values(values: Seq<Seq<Seq<SecureField>>>)
    ensures
        crate::oods::canonical_values(values) <==> forall|t: int, c: int, k: int|
            0 <= t < values.len() && 0 <= c < values[t].len() && 0 <= k < values[t][c].len()
                ==> words_reduced(#[trigger] values[t][c][k]),
{
}

/// The number of values in the first `n` trees.
pub open spec fn values_before(values: Seq<Seq<Seq<SecureField>>>, n: int) -> nat
    decreases n,
{
    if n <= 0 {
        0
    } else {
        values_before(values, n - 1) + crate::opening_laws::entries_before(
            values[n - 1],
            values[n - 1].len() as int,
        )
    }
}

/// Value `k` of column `c` of tree `t` comes after all values of the trees before it, those of the
/// columns before it in its tree, and `k` of its column.
pub open spec fn value_at_place(
    all: Seq<SecureField>,
    values: Seq<Seq<Seq<SecureField>>>,
    t: int,
    c: int,
    k: int,
) -> bool {
    let i = values_before(values, t) + crate::opening_laws::entries_before(values[t], c) + k;
    i < all.len() && all[i] == values[t][c][k]
}

proof fn lemma_values_before(
    values: Seq<Seq<Seq<SecureField>>>,
    flat: Seq<Seq<SecureField>>,
    n: int,
)
    requires
        flat == values.map_values(|tree: Seq<Seq<SecureField>>| crate::oods::concat(tree)),
        n <= values.len(),
    ensures
        values_before(values, n) == crate::opening_laws::entries_before(flat, n),
    decreases n,
{
    if n > 0 {
        lemma_values_before(values, flat, n - 1);
        crate::opening_laws::law_concat(values[n - 1]);
    }
}

/// A channel absorbs as many values as there are, tree after tree, column after column, and each
/// at its place.
pub proof fn law_values_in_order(values: Seq<Seq<Seq<SecureField>>>)
    ensures
        crate::oods::all_values(values).len() == values_before(values, values.len() as int),
        forall|t: int, c: int, k: int|
            0 <= t < values.len() && 0 <= c < values[t].len() && 0 <= k < values[t][c].len()
                ==> #[trigger] value_at_place(crate::oods::all_values(values), values, t, c, k),
{
    let flat = values.map_values(|tree: Seq<Seq<SecureField>>| crate::oods::concat(tree));
    let all = crate::oods::all_values(values);
    crate::opening_laws::law_concat(flat);
    lemma_values_before(values, flat, values.len() as int);
    assert forall|t: int, c: int, k: int|
        0 <= t < values.len() && 0 <= c < values[t].len() && 0 <= k < values[t][c].len()
        implies #[trigger] value_at_place(all, values, t, c, k) by {
        lemma_values_before(values, flat, t);
        crate::opening_laws::law_concat(values[t]);
        assert(crate::opening_laws::at_place(flat[t], values[t], c, k));
        let place = crate::opening_laws::entries_before(values[t], c) + k;
        assert(crate::opening_laws::at_place(all, flat, t, place));
    }
}

} // verus!
