//! Laws on opening the committed trees.

use vstd::prelude::*;
use crate::channel::ChannelState;
use crate::circle::CirclePoint;
use crate::error::VerificationError;
use crate::field::Qm31;
use crate::field::SecureField;
use crate::pcs::FriRun;
use crate::pcs::PcsConfig;
use crate::pcs::Tree;
use crate::stark_proof::ProofParts;
use crate::stark_proof::StarkProof;

verus! {

/// The number of entries of the first `n` parts.
pub open spec fn entries_before<T>(parts: Seq<Seq<T>>, n: int) -> nat
    decreases n,
{
    if n <= 0 {
        0
    } else {
        entries_before(parts, n - 1) + parts[n - 1].len()
    }
}

proof fn lemma_entries_prefix<T>(parts: Seq<Seq<T>>, n: int)
    requires
        parts.len() > 0,
        0 <= n < parts.len(),
    ensures
        entries_before(parts.drop_last(), n) == entries_before(parts, n),
    decreases n,
{
    if n > 0 {
        lemma_entries_prefix(parts, n - 1);
    }
}

/// The entry at place `k` of part `t` comes after all entries of the parts before it and `k` of its
/// own.
pub open spec fn at_place<T>(all: Seq<T>, parts: Seq<Seq<T>>, t: int, k: int) -> bool {
    &&& entries_before(parts, t) + k < all.len()
    &&& all[entries_before(parts, t) + k] == parts[t][k]
}

/// One after another, parts have as many entries as all together, each at its place.
pub proof fn law_concat<T>(parts: Seq<Seq<T>>)
    ensures
        crate::oods::concat(parts).len() == entries_before(parts, parts.len() as int),
        forall|t: int, k: int|
            0 <= t < parts.len() && 0 <= k < parts[t].len() ==> #[trigger] at_place(
                crate::oods::concat(parts),
                parts,
                t,
                k,
            ),
    decreases parts.len(),
{
    if parts.len() > 0 {
        let rest = parts.drop_last();
        let last = parts.len() - 1;
        law_concat(rest);
        lemma_entries_prefix(parts, last);
        assert(entries_before(parts, last + 1) == entries_before(parts, last) + parts[last].len());
        assert forall|t: int, k: int|
            0 <= t < parts.len() && 0 <= k < parts[t].len() implies #[trigger] at_place(
            crate::oods::concat(parts),
            parts,
            t,
            k,
        ) by {
            if t < last {
                assert(rest[t] == parts[t]);
                assert(at_place(crate::oods::concat(rest), rest, t, k));
                lemma_entries_prefix(parts, t);
            }
        }
    }
}

/// Each place in all parts together is that of an entry of a part.
proof fn lemma_find_entry<T>(parts: Seq<Seq<T>>, n: int, j: int) -> (r: (int, int))
    requires
        0 <= n <= parts.len(),
        0 <= j < entries_before(parts, n),
    ensures
        0 <= r.0 < n,
        0 <= r.1 < parts[r.0].len(),
        entries_before(parts, r.0) + r.1 == j,
    decreases n,
{
    if j < entries_before(parts, n - 1) {
        lemma_find_entry(parts, n - 1, j)
    } else {
        (n - 1, j - entries_before(parts, n - 1))
    }
}

/// The log sizes of each tree's columns.
pub open spec fn sizes_of(trees: Seq<Tree>) -> Seq<Seq<u32>> {
    Seq::new(trees.len(), |t: int| trees[t].column_log_sizes)
}

proof fn lemma_sizes(trees: Seq<Tree>)
    ensures
        crate::pcs::all_sizes(trees) == crate::oods::concat(sizes_of(trees)),
{
    assert(sizes_of(trees) =~= trees.map_values(|tree: Tree| tree.column_log_sizes));
}

/// Column `c` of tree `t` is there, and is of the given log size.
pub open spec fn has_column(trees: Seq<Tree>, t: int, c: int, size: u32) -> bool {
    &&& 0 <= t < trees.len()
    &&& 0 <= c < trees[t].column_log_sizes.len()
    &&& trees[t].column_log_sizes[c] == size
}

/// A column of a tree stands among all sizes.
proof fn lemma_column_listed(trees: Seq<Tree>, t: int, c: int, size: u32)
    requires
        has_column(trees, t, c, size),
    ensures
        ({
            let i = entries_before(sizes_of(trees), t) + c;
            0 <= i < crate::pcs::all_sizes(trees).len() && crate::pcs::all_sizes(trees)[i] == size
        }),
{
    lemma_sizes(trees);
    law_concat(sizes_of(trees));
    assert(at_place(crate::pcs::all_sizes(trees), sizes_of(trees), t, c));
}

/// Each of all sizes is that of a column.
proof fn lemma_listed_column(trees: Seq<Tree>, i: int) -> (r: (int, int))
    requires
        0 <= i < crate::pcs::all_sizes(trees).len(),
    ensures
        has_column(trees, r.0, r.1, crate::pcs::all_sizes(trees)[i]),
        entries_before(sizes_of(trees), r.0) + r.1 == i,
{
    lemma_sizes(trees);
    let parts = sizes_of(trees);
    law_concat(parts);
    let (t, c) = lemma_find_entry(parts, parts.len() as int, i);
    assert(at_place(crate::pcs::all_sizes(trees), parts, t, c));
    (t, c)
}

/// All columns are of log sizes from `least` to `most`.
pub open spec fn sizes_within(trees: Seq<Tree>, least: int, most: int) -> bool {
    forall|t: int, c: int, size: u32|
        #[trigger] has_column(trees, t, c, size) ==> least <= size <= most
}

proof fn lemma_within(trees: Seq<Tree>, least: int, most: int)
    ensures
        sizes_within(trees, least, most) <==> (forall|i: int|
            0 <= i < crate::pcs::all_sizes(trees).len() ==> least
                <= #[trigger] crate::pcs::all_sizes(trees)[i] <= most),
{
    let sizes = crate::pcs::all_sizes(trees);
    if sizes_within(trees, least, most) {
        assert forall|i: int| 0 <= i < sizes.len() implies least <= #[trigger] sizes[i] <= most by {
            let (t, c) = lemma_listed_column(trees, i);
        }
    }
    if forall|i: int| 0 <= i < sizes.len() ==> least <= #[trigger] sizes[i] <= most {
        assert forall|t: int, c: int, size: u32|
            #[trigger] has_column(trees, t, c, size) implies least <= size <= most by {
            lemma_column_listed(trees, t, c, size);
        }
    }
}

/// `size` is the log size of a column, and no column is larger.
pub open spec fn is_greatest(trees: Seq<Tree>, size: u32) -> bool {
    &&& exists|t: int, c: int| #[trigger] has_column(trees, t, c, size)
    &&& forall|t: int, c: int, other: u32| #[trigger] has_column(trees, t, c, other) ==> other <= size
}

/// The bound is that of a column: its log size is the bound with the blowup factor added.
pub open spec fn is_bound(trees: Seq<Tree>, config: PcsConfig, bound: u32) -> bool {
    exists|t: int, c: int, size: u32|
        #[trigger] has_column(trees, t, c, size) && size == bound + config.log_blowup_factor
}

/// The bounds are those of the columns, all of them and no other, and each is greater than the
/// next.
pub open spec fn lists_bounds(bounds: Seq<u32>, trees: Seq<Tree>, config: PcsConfig) -> bool {
    &&& forall|i: int, j: int| 0 <= i < j < bounds.len() ==> bounds[i] > bounds[j]
    &&& forall|bound: u32| #[trigger] bounds.contains(bound) <==> is_bound(trees, config, bound)
}

/// FRI can read the commitments of its layers.
pub open spec fn can_commit(trees: Seq<Tree>, config: PcsConfig, parts: ProofParts) -> bool {
    &&& 1 <= config.log_blowup_factor <= 16
    &&& config.log_last_layer_degree_bound <= 10
    &&& sizes_within(trees, config.log_blowup_factor as int, 30)
    &&& exists|size: u32| #[trigger] is_greatest(trees, size) && size > config.log_blowup_factor
    &&& forall|size: u32|
        #[trigger] is_greatest(trees, size) && size - config.log_blowup_factor - 1
            == config.log_last_layer_degree_bound + parts.n_inner_layers
            ==> parts.last_layer_log_size is Some && parts.last_layer_len
            == vstd::arithmetic::power2::pow2(parts.last_layer_log_size->0 as nat)
}

/// Some column of the size is one of those that the samples reach.
pub open spec fn is_reached(trees: Seq<Tree>, n_samples: nat, size: u32) -> bool {
    exists|t: int, c: int|
        #[trigger] has_column(trees, t, c, size) && entries_before(sizes_of(trees), t) + c
            < n_samples
}

/// A point at which a column can be opened, and a value that it can be opened to.
pub open spec fn can_meet(point: CirclePoint, value: SecureField) -> bool {
    &&& point.x.a < 0x7fff_ffff && point.x.b < 0x7fff_ffff && point.x.c < 0x7fff_ffff && point.x.d
        < 0x7fff_ffff
    &&& point.y.a < 0x7fff_ffff && point.y.b < 0x7fff_ffff && point.y.c < 0x7fff_ffff && point.y.d
        < 0x7fff_ffff
    &&& point.x@.times(point.x@).plus(point.y@.times(point.y@)) == Qm31::one()
    &&& point.y.c != 0 || point.y.d != 0
    &&& value.a <= 0x8000_0000 && value.b <= 0x8000_0000
    &&& value.c <= 0x7fff_ffff && value.d <= 0x7fff_ffff
}

/// Wherever a point of a column meets a value, it can.
pub open spec fn columns_meet(points: Seq<CirclePoint>, values: Seq<SecureField>) -> bool {
    forall|k: int|
        0 <= k < points.len() && k < values.len() ==> can_meet(#[trigger] points[k], values[k])
}

/// The arguments fit each other and the bounds of the machine: columns of any sizes from the least
/// that folds to the greatest that there is a domain for; as many decommitments and queried values
/// as trees; as many columns of values as of points; of each size a column that samples reach; and
/// points and values that can be held against each other.
pub open spec fn fits(
    trees: Seq<Tree>,
    config: PcsConfig,
    points: Seq<Seq<Seq<CirclePoint>>>,
    parts: ProofParts,
) -> bool {
    &&& can_commit(trees, config, parts)
    &&& 1 <= config.n_queries <= 34359738360
    &&& sizes_within(
        trees,
        config.log_blowup_factor + config.log_last_layer_degree_bound + 2,
        30,
    )
    &&& forall|i: int|
        0 <= i < parts.fri_coordinates.len() ==> #[trigger] parts.fri_coordinates[i] <= 0x7fff_ffff
    &&& parts.n_decommitments == trees.len()
    &&& parts.n_queried == trees.len()
    &&& points.len() == parts.sampled_values.len()
    &&& forall|t: int|
        0 <= t < points.len() ==> (#[trigger] points[t]).len() == parts.sampled_values[t].len()
    &&& forall|t: int, c: int, size: u32|
        #[trigger] has_column(trees, t, c, size) ==> is_reached(
            trees,
            entries_before(points, points.len() as int),
            size,
        )
    &&& forall|t: int, c: int|
        0 <= t < points.len() && 0 <= c < points[t].len() ==> columns_meet(
            #[trigger] points[t][c],
            parts.sampled_values[t][c],
        )
}

proof fn lemma_bounds_from_sizes(sizes: Seq<u32>, log_blowup_factor: u32, top: nat)
    requires
        top <= 30,
        forall|i: int| 0 <= i < sizes.len() ==> log_blowup_factor <= #[trigger] sizes[i] <= 30,
    ensures
        ({
            let bounds = crate::pcs::bounds_up_to(sizes, log_blowup_factor, top);
            &&& forall|i: int, j: int| 0 <= i < j < bounds.len() ==> bounds[i] > bounds[j]
            &&& forall|i: int|
                0 <= i < bounds.len() ==> #[trigger] bounds[i] + log_blowup_factor <= top
                    && sizes.contains((bounds[i] + log_blowup_factor) as u32)
            &&& forall|i: int|
                0 <= i < sizes.len() && #[trigger] sizes[i] <= top ==> bounds.contains(
                    (sizes[i] - log_blowup_factor) as u32,
                )
        }),
    decreases top,
{
    let bounds = crate::pcs::bounds_up_to(sizes, log_blowup_factor, top);
    let rest = if top == 0 {
        Seq::empty()
    } else {
        crate::pcs::bounds_up_to(sizes, log_blowup_factor, (top - 1) as nat)
    };
    if top > 0 {
        lemma_bounds_from_sizes(sizes, log_blowup_factor, (top - 1) as nat);
    }
    if sizes.contains(top as u32) {
        let k = choose|k: int| 0 <= k < sizes.len() && sizes[k] == top as u32;
        assert(log_blowup_factor <= sizes[k]);
        let first = (top - log_blowup_factor) as u32;
        assert(bounds == seq![first] + rest);
        assert forall|i: int| 0 <= i < bounds.len() implies #[trigger] bounds[i] + log_blowup_factor
            <= top && sizes.contains((bounds[i] + log_blowup_factor) as u32) by {
            if i > 0 {
                assert(bounds[i] == rest[i - 1]);
            }
        }
        assert forall|i: int| 0 <= i < sizes.len() && #[trigger] sizes[i] <= top implies bounds.contains(
            (sizes[i] - log_blowup_factor) as u32,
        ) by {
            if sizes[i] == top {
                assert(bounds[0] == first);
            } else {
                let bound = (sizes[i] - log_blowup_factor) as u32;
                assert(rest.contains(bound));
                let m = choose|m: int| 0 <= m < rest.len() && rest[m] == bound;
                assert(bounds[m + 1] == bound);
            }
        }
    } else {
        assert forall|i: int| 0 <= i < sizes.len() && #[trigger] sizes[i] <= top implies bounds.contains(
            (sizes[i] - log_blowup_factor) as u32,
        ) by {
            assert(sizes[i] != top as u32);
        }
    }
}

/// The bounds that FRI is given are those of the columns, from the greatest to the least.
pub proof fn law_bounds(trees: Seq<Tree>, config: PcsConfig)
    requires
        sizes_within(trees, config.log_blowup_factor as int, 30),
    ensures
        lists_bounds(crate::pcs::degree_bounds(trees, config), trees, config),
{
    let sizes = crate::pcs::all_sizes(trees);
    let bounds = crate::pcs::degree_bounds(trees, config);
    lemma_within(trees, config.log_blowup_factor as int, 30);
    lemma_bounds_from_sizes(sizes, config.log_blowup_factor, 30);
    assert forall|bound: u32| #[trigger] bounds.contains(bound) <==> is_bound(
        trees,
        config,
        bound,
    ) by {
        if bounds.contains(bound) {
            let i = choose|i: int| 0 <= i < bounds.len() && bounds[i] == bound;
            let size = (bounds[i] + config.log_blowup_factor) as u32;
            assert(sizes.contains(size));
            let j = choose|j: int| 0 <= j < sizes.len() && sizes[j] == size;
            let (t, c) = lemma_listed_column(trees, j);
            assert(has_column(trees, t, c, size));
        }
        if is_bound(trees, config, bound) {
            let (t, c, size) = choose|t: int, c: int, size: u32|
                #[trigger] has_column(trees, t, c, size) && size == bound
                    + config.log_blowup_factor;
            lemma_column_listed(trees, t, c, size);
            let i = entries_before(sizes_of(trees), t) + c;
            assert(sizes[i] <= 30);
            assert(bounds.contains((sizes[i] - config.log_blowup_factor) as u32));
        }
    }
}

/// The first bound is that of the greatest column.
proof fn lemma_first_bound(bounds: Seq<u32>, trees: Seq<Tree>, config: PcsConfig, size: u32)
    requires
        lists_bounds(bounds, trees, config),
        sizes_within(trees, config.log_blowup_factor as int, 30),
        bounds.len() > 0,
    ensures
        is_greatest(trees, size) <==> size == bounds[0] + config.log_blowup_factor,
{
    assert(bounds.contains(bounds[0]));
    let (a, b, first) = choose|t: int, c: int, first: u32|
        #[trigger] has_column(trees, t, c, first) && first == bounds[0] + config.log_blowup_factor;
    assert forall|t: int, c: int, other: u32| #[trigger] has_column(trees, t, c, other) implies other
        <= first by {
        let bound = (other - config.log_blowup_factor) as u32;
        assert(is_bound(trees, config, bound));
        assert(bounds.contains(bound));
        let m = choose|m: int| 0 <= m < bounds.len() && bounds[m] == bound;
        if m > 0 {
            assert(bounds[0] > bounds[m]);
        }
    }
    if is_greatest(trees, size) {
        let (t, c) = choose|t: int, c: int| #[trigger] has_column(trees, t, c, size);
        assert(has_column(trees, t, c, size));
    }
    assert(has_column(trees, a, b, first));
}

/// When FRI can read the commitments of its layers, over the columns of the trees.
pub proof fn law_committable(trees: Seq<Tree>, config: PcsConfig, parts: ProofParts)
    ensures
        crate::pcs::committable(trees, config, parts) <==> can_commit(trees, config, parts),
{
    let sizes = crate::pcs::all_sizes(trees);
    let bounds = crate::pcs::degree_bounds(trees, config);
    lemma_within(trees, config.log_blowup_factor as int, 30);
    if sizes_within(trees, config.log_blowup_factor as int, 30) {
        law_bounds(trees, config);
        if bounds.len() > 0 {
            assert forall|size: u32| #[trigger] is_greatest(trees, size) <==> size == bounds[0]
                + config.log_blowup_factor by {
                lemma_first_bound(bounds, trees, config, size);
            }
            assert(bounds.contains(bounds[0]));
            let (a, b, first) = choose|t: int, c: int, first: u32|
                #[trigger] has_column(trees, t, c, first) && first == bounds[0]
                    + config.log_blowup_factor;
            assert(is_greatest(trees, first));
            lemma_column_listed(trees, a, b, first);
        }
        if exists|i: int| 0 <= i < sizes.len() && #[trigger] sizes[i] > config.log_blowup_factor {
            let i = choose|i: int|
                0 <= i < sizes.len() && #[trigger] sizes[i] > config.log_blowup_factor;
            let (t, c) = lemma_listed_column(trees, i);
            let bound = (sizes[i] - config.log_blowup_factor) as u32;
            assert(has_column(trees, t, c, sizes[i]));
            assert(is_bound(trees, config, bound));
            assert(bounds.contains(bound));
            assert(bounds.len() > 0);
        }
        if exists|size: u32|
            #[trigger] is_greatest(trees, size) && size > config.log_blowup_factor {
            let size = choose|size: u32|
                #[trigger] is_greatest(trees, size) && size > config.log_blowup_factor;
            let (t, c) = choose|t: int, c: int| #[trigger] has_column(trees, t, c, size);
            lemma_column_listed(trees, t, c, size);
            let bound = (size - config.log_blowup_factor) as u32;
            assert(is_bound(trees, config, bound));
            assert(bounds.contains(bound));
            assert(bounds.len() > 0);
        }
    }
}

proof fn lemma_reach(trees: Seq<Tree>, n: nat, size: u32)
    ensures
        crate::pcs::occurs(crate::pcs::all_sizes(trees), n, size) <==> is_reached(trees, n, size),
{
    let sizes = crate::pcs::all_sizes(trees);
    if crate::pcs::occurs(sizes, n, size) {
        let i = choose|i: int| 0 <= i < n && i < sizes.len() && #[trigger] sizes[i] == size;
        let (t, c) = lemma_listed_column(trees, i);
        assert(has_column(trees, t, c, size));
    }
    if is_reached(trees, n, size) {
        let (t, c) = choose|t: int, c: int|
            #[trigger] has_column(trees, t, c, size) && entries_before(sizes_of(trees), t) + c < n;
        lemma_column_listed(trees, t, c, size);
        assert(sizes[entries_before(sizes_of(trees), t) + c] == size);
    }
}

proof fn lemma_covers(trees: Seq<Tree>, n: nat)
    ensures
        crate::pcs::covers(crate::pcs::all_sizes(trees), n) <==> (forall|
            t: int,
            c: int,
            size: u32,
        | #[trigger]
            has_column(trees, t, c, size) ==> is_reached(trees, n, size)),
{
    let sizes = crate::pcs::all_sizes(trees);
    if crate::pcs::covers(sizes, n) {
        assert forall|t: int, c: int, size: u32| #[trigger]
            has_column(trees, t, c, size) implies is_reached(trees, n, size) by {
            lemma_column_listed(trees, t, c, size);
            let i = entries_before(sizes_of(trees), t) + c;
            assert(crate::pcs::occurs(sizes, n, sizes[i]));
            lemma_reach(trees, n, size);
        }
    }
    if forall|t: int, c: int, size: u32| #[trigger]
        has_column(trees, t, c, size) ==> is_reached(trees, n, size) {
        assert forall|j: int| 0 <= j < sizes.len() implies crate::pcs::occurs(
            sizes,
            n,
            #[trigger] sizes[j],
        ) by {
            let (t, c) = lemma_listed_column(trees, j);
            assert(has_column(trees, t, c, sizes[j]));
            lemma_reach(trees, n, sizes[j]);
        }
    }
}

proof fn lemma_foldable(trees: Seq<Tree>, config: PcsConfig)
    requires
        sizes_within(trees, config.log_blowup_factor as int, 30),
    ensures
        crate::pcs::foldable(trees, config) <==> sizes_within(
            trees,
            config.log_blowup_factor + config.log_last_layer_degree_bound + 2,
            30,
        ),
{
    lemma_within(trees, config.log_blowup_factor as int, 30);
    lemma_within(
        trees,
        config.log_blowup_factor + config.log_last_layer_degree_bound + 2,
        30,
    );
}

/// A column can be opened wherever a point meets a value if and only if they can meet.
pub proof fn law_proper_column(points: Seq<CirclePoint>, values: Seq<SecureField>)
    ensures
        crate::oods::proper_column(points, values) <==> columns_meet(points, values),
{
    assert forall|k: int| 0 <= k < points.len() && k < values.len() implies can_meet(
        #[trigger] points[k],
        values[k],
    ) == (crate::oods::proper_point(points[k]) && values[k].conjugable()) by {
    }
    if columns_meet(points, values) {
        assert forall|k: int|
            0 <= k < points.len() && k < values.len() implies crate::oods::proper_point(
            #[trigger] points[k],
        ) && values[k].conjugable() by {
            assert(can_meet(points[k], values[k]));
        }
    }
}

/// Opening can be carried through if and only if the arguments fit each other.
pub proof fn law_openable(
    trees: Seq<Tree>,
    config: PcsConfig,
    points: Seq<Seq<Seq<CirclePoint>>>,
    parts: ProofParts,
)
    ensures
        crate::pcs::openable(trees, config, points, parts) <==> fits(trees, config, points, parts),
{
    law_committable(trees, config, parts);
    if crate::pcs::committable(trees, config, parts) {
        lemma_foldable(trees, config);
    }
    law_concat(points);
    lemma_covers(trees, entries_before(points, points.len() as int));
    let values = parts.sampled_values;
    assert forall|t: int, c: int|
        0 <= t < points.len() && 0 <= c < points[t].len() implies crate::oods::proper_column(
        #[trigger] points[t][c],
        values[t][c],
    ) == columns_meet(points[t][c], values[t][c]) by {
        law_proper_column(points[t][c], values[t][c]);
    }
    if crate::oods::proper_samples(points, values) {
        assert forall|t: int, c: int|
            0 <= t < points.len() && 0 <= c < points[t].len() implies columns_meet(
            #[trigger] points[t][c],
            values[t][c],
        ) by {
            assert(crate::oods::proper_column(points[t][c], values[t][c]));
        }
    }
}

/// Wherever the arguments fit, with columns of whatever sizes fold, the verdict and the channel
/// that is left are those of `CommitmentSchemeVerifier::verify_values`.
pub proof fn law_fitting_arguments_are_opened(
    trees: Seq<Tree>,
    config: PcsConfig,
    points: Seq<Seq<Seq<CirclePoint>>>,
    proof: StarkProof,
    channel: ChannelState,
    verdict: Result<(), VerificationError>,
    after: ChannelState,
)
    requires
        crate::pcs::opens(trees, config, points, proof, channel, verdict, after),
        fits(trees, config, points, crate::stark_proof::proof_parts(proof)),
    ensures
        (verdict, after) == crate::pcs::opening_outcome(trees, config, points, proof, channel),
{
    law_openable(trees, config, points, crate::stark_proof::proof_parts(proof));
}

/// Extending adds the blowup factor to each log size.
pub proof fn law_extended(log_sizes: Seq<u32>, config: PcsConfig)
    requires
        forall|i: int|
            0 <= i < log_sizes.len() ==> #[trigger] log_sizes[i] + config.log_blowup_factor
                <= 0xffff_ffff,
    ensures
        crate::pcs::extended(log_sizes, config).len() == log_sizes.len(),
        forall|i: int|
            0 <= i < log_sizes.len() ==> #[trigger] crate::pcs::extended(log_sizes, config)[i]
                == log_sizes[i] + config.log_blowup_factor,
{
}

/// The parameters of a scheme lie in range if and only if the blowup factor is from 1 to 16 and
/// the bound of the last layer at most 10.
pub proof fn law_config(config: PcsConfig)
    ensures
        config.wf() <==> 1 <= config.log_blowup_factor <= 16 && config.log_last_layer_degree_bound
            <= 10,
{
}

/// The channel when FRI reads its commitments: it absorbed the values and handed out a
/// coefficient.
pub open spec fn after_samples(proof: StarkProof, channel: ChannelState) -> ChannelState {
    let digest = crate::channel::mixed_felts(
        channel.digest,
        crate::oods::all_values(crate::stark_proof::proof_parts(proof).sampled_values),
    );
    ChannelState {
        digest,
        draws: crate::channel::drawn_felt(digest, 0).1,
        challenges: channel.challenges + 1,
    }
}

/// What FRI reads its commitments to, and the channel that it leaves.
pub open spec fn fri_reads(
    trees: Seq<Tree>,
    config: PcsConfig,
    proof: StarkProof,
    channel: ChannelState,
) -> (Result<FriRun, stwo::core::fri::FriVerificationError>, ChannelState) {
    crate::pcs::fri_commitment(
        config,
        proof,
        crate::pcs::degree_bounds(trees, config),
        after_samples(proof, channel),
    )
}

/// The channel after it absorbed the nonce that the proof of work is for.
pub open spec fn after_work(proof: StarkProof, channel: ChannelState) -> ChannelState {
    ChannelState {
        digest: crate::channel::mixed_u64(
            channel.digest,
            crate::stark_proof::proof_parts(proof).proof_of_work,
        ),
        draws: 0,
        challenges: channel.challenges + 1,
    }
}

/// Arguments that FRI cannot even read are not checkable, and the channel stays as it is.
pub proof fn law_unreadable(
    trees: Seq<Tree>,
    config: PcsConfig,
    points: Seq<Seq<Seq<CirclePoint>>>,
    proof: StarkProof,
    channel: ChannelState,
    verdict: Result<(), VerificationError>,
    after: ChannelState,
)
    requires
        crate::pcs::opens(trees, config, points, proof, channel, verdict, after),
        !can_commit(trees, config, crate::stark_proof::proof_parts(proof)),
    ensures
        verdict == Err::<(), VerificationError>(VerificationError::NotCheckable),
        after == channel,
{
    law_committable(trees, config, crate::stark_proof::proof_parts(proof));
}

/// Where the arguments do not fit but FRI can read them, its refusal is the verdict, as FRI gives
/// it.
pub proof fn law_fri_refuses(
    trees: Seq<Tree>,
    config: PcsConfig,
    points: Seq<Seq<Seq<CirclePoint>>>,
    proof: StarkProof,
    channel: ChannelState,
    verdict: Result<(), VerificationError>,
    after: ChannelState,
)
    requires
        crate::pcs::opens(trees, config, points, proof, channel, verdict, after),
        can_commit(trees, config, crate::stark_proof::proof_parts(proof)),
        !fits(trees, config, points, crate::stark_proof::proof_parts(proof)),
        fri_reads(trees, config, proof, channel).0 is Err,
    ensures
        verdict == Err::<(), VerificationError>(
            VerificationError::Fri(fri_reads(trees, config, proof, channel).0->Err_0),
        ),
        after == fri_reads(trees, config, proof, channel).1,
{
    law_committable(trees, config, crate::stark_proof::proof_parts(proof));
    law_openable(trees, config, points, crate::stark_proof::proof_parts(proof));
}

/// After FRI has read its commitments, the proof of work is refused if and only if the digest that
/// absorbed the nonce ends in fewer zeros than are asked for.
pub proof fn law_work_is_checked(
    trees: Seq<Tree>,
    config: PcsConfig,
    points: Seq<Seq<Seq<CirclePoint>>>,
    proof: StarkProof,
    channel: ChannelState,
    verdict: Result<(), VerificationError>,
    after: ChannelState,
)
    requires
        crate::pcs::opens(trees, config, points, proof, channel, verdict, after),
        can_commit(trees, config, crate::stark_proof::proof_parts(proof)),
        !fits(trees, config, points, crate::stark_proof::proof_parts(proof)),
        fri_reads(trees, config, proof, channel).0 is Ok,
    ensures
        ({
            let worked = after_work(proof, fri_reads(trees, config, proof, channel).1);
            let refused = crate::channel::digest_zeros(worked.digest) < config.pow_bits;
            &&& verdict == Err::<(), VerificationError>(VerificationError::ProofOfWork) <==> refused
            &&& refused ==> after == worked
        }),
{
    law_committable(trees, config, crate::stark_proof::proof_parts(proof));
    law_openable(trees, config, points, crate::stark_proof::proof_parts(proof));
}

/// After the proof of work, arguments are not checkable where no query or too many are asked for,
/// or where the proof opens more or fewer trees than are committed.
pub proof fn law_unservable(
    trees: Seq<Tree>,
    config: PcsConfig,
    points: Seq<Seq<Seq<CirclePoint>>>,
    proof: StarkProof,
    channel: ChannelState,
    verdict: Result<(), VerificationError>,
    after: ChannelState,
)
    requires
        crate::pcs::opens(trees, config, points, proof, channel, verdict, after),
        can_commit(trees, config, crate::stark_proof::proof_parts(proof)),
        fri_reads(trees, config, proof, channel).0 is Ok,
        crate::channel::digest_zeros(
            after_work(proof, fri_reads(trees, config, proof, channel).1).digest,
        ) >= config.pow_bits,
        config.n_queries == 0 || config.n_queries > 34359738360
            || crate::stark_proof::proof_parts(proof).n_decommitments != trees.len()
            || crate::stark_proof::proof_parts(proof).n_queried != trees.len(),
    ensures
        verdict == Err::<(), VerificationError>(VerificationError::NotCheckable),
        after == after_work(proof, fri_reads(trees, config, proof, channel).1),
{
    law_committable(trees, config, crate::stark_proof::proof_parts(proof));
    law_openable(trees, config, points, crate::stark_proof::proof_parts(proof));
}

/// Tree `t` is the first of the trees that does not open.
pub open spec fn refuses_first(
    trees: Seq<Tree>,
    positions: Seq<(u32, Seq<usize>)>,
    proof: StarkProof,
    t: int,
) -> bool {
    &&& 0 <= t < trees.len()
    &&& crate::pcs::tree_outcome(trees[t], positions, proof, t as nat) is Err
    &&& forall|s: int|
        0 <= s < t ==> crate::pcs::tree_outcome(
            #[trigger] trees[s],
            positions,
            proof,
            s as nat,
        ) is Ok
}

proof fn lemma_all_open(
    trees: Seq<Tree>,
    positions: Seq<(u32, Seq<usize>)>,
    proof: StarkProof,
    n: nat,
)
    requires
        n <= trees.len(),
        forall|s: int|
            0 <= s < n ==> crate::pcs::tree_outcome(
                #[trigger] trees[s],
                positions,
                proof,
                s as nat,
            ) is Ok,
    ensures
        crate::pcs::first_refusal(trees, positions, proof, n) is None,
    decreases n,
{
    if n > 0 {
        lemma_all_open(trees, positions, proof, (n - 1) as nat);
        assert(crate::pcs::tree_outcome(trees[n - 1], positions, proof, (n - 1) as nat) is Ok);
    }
}

proof fn lemma_first_refuses(
    trees: Seq<Tree>,
    positions: Seq<(u32, Seq<usize>)>,
    proof: StarkProof,
    t: int,
    n: nat,
)
    requires
        refuses_first(trees, positions, proof, t),
        t < n <= trees.len(),
    ensures
        crate::pcs::first_refusal(trees, positions, proof, n) == Some(
            crate::pcs::tree_outcome(trees[t], positions, proof, t as nat)->Err_0,
        ),
    decreases n,
{
    if n == t + 1 {
        lemma_all_open(trees, positions, proof, t as nat);
    } else {
        lemma_first_refuses(trees, positions, proof, t, (n - 1) as nat);
    }
}

/// With queries drawn, the refusal of the first tree that does not open, whichever it is, is the
/// verdict; if all open, the arguments are not checkable, since they do not fit.
pub proof fn law_first_tree_refuses(
    trees: Seq<Tree>,
    config: PcsConfig,
    points: Seq<Seq<Seq<CirclePoint>>>,
    proof: StarkProof,
    channel: ChannelState,
    verdict: Result<(), VerificationError>,
    after: ChannelState,
)
    requires
        crate::pcs::opens(trees, config, points, proof, channel, verdict, after),
        can_commit(trees, config, crate::stark_proof::proof_parts(proof)),
        !fits(trees, config, points, crate::stark_proof::proof_parts(proof)),
        fri_reads(trees, config, proof, channel).0 is Ok,
        crate::channel::digest_zeros(
            after_work(proof, fri_reads(trees, config, proof, channel).1).digest,
        ) >= config.pow_bits,
        1 <= config.n_queries <= 34359738360,
        crate::stark_proof::proof_parts(proof).n_decommitments == trees.len(),
        crate::stark_proof::proof_parts(proof).n_queried == trees.len(),
    ensures
        ({
            let (run, read) = fri_reads(trees, config, proof, channel);
            let (positions, queried) = crate::pcs::query_positions(
                run->Ok_0,
                after_work(proof, read),
            );
            &&& after == queried
            &&& forall|t: int|
                #[trigger] refuses_first(trees, positions, proof, t) ==> verdict == Err::<
                    (),
                    VerificationError,
                >(
                    VerificationError::Merkle(
                        crate::pcs::tree_outcome(trees[t], positions, proof, t as nat)->Err_0,
                    ),
                )
            &&& (forall|t: int|
                0 <= t < trees.len() ==> crate::pcs::tree_outcome(
                    #[trigger] trees[t],
                    positions,
                    proof,
                    t as nat,
                ) is Ok) ==> verdict == Err::<(), VerificationError>(
                VerificationError::NotCheckable,
            )
        }),
{
    law_committable(trees, config, crate::stark_proof::proof_parts(proof));
    law_openable(trees, config, points, crate::stark_proof::proof_parts(proof));
    let (run, read) = fri_reads(trees, config, proof, channel);
    let (positions, queried) = crate::pcs::query_positions(run->Ok_0, after_work(proof, read));
    assert forall|t: int| #[trigger] refuses_first(trees, positions, proof, t) implies verdict
        == Err::<(), VerificationError>(
        VerificationError::Merkle(
            crate::pcs::tree_outcome(trees[t], positions, proof, t as nat)->Err_0,
        ),
    ) by {
        lemma_first_refuses(trees, positions, proof, t, trees.len());
    }
    if forall|t: int|
        0 <= t < trees.len() ==> crate::pcs::tree_outcome(
            #[trigger] trees[t],
            positions,
            proof,
            t as nat,
        ) is Ok {
        lemma_all_open(trees, positions, proof, trees.len());
    }
}

/// A proof is accepted only where the arguments fit and `CommitmentSchemeVerifier::verify_values`
/// accepts.
pub proof fn law_accepted_arguments_fit(
    trees: Seq<Tree>,
    config: PcsConfig,
    points: Seq<Seq<Seq<CirclePoint>>>,
    proof: StarkProof,
    channel: ChannelState,
    verdict: Result<(), VerificationError>,
    after: ChannelState,
)
    requires
        crate::pcs::opens(trees, config, points, proof, channel, verdict, after),
    ensures
        verdict is Ok <==> {
            &&& fits(trees, config, points, crate::stark_proof::proof_parts(proof))
            &&& crate::pcs::opening_outcome(trees, config, points, proof, channel).0 is Ok
        },
        verdict matches Err(e) ==> e is Merkle || e is Fri || e is ProofOfWork || e is NotCheckable,
        fits(trees, config, points, crate::stark_proof::proof_parts(proof)) ==> !(
        verdict matches Err(e) && e is NotCheckable),
{
    law_openable(trees, config, points, crate::stark_proof::proof_parts(proof));
}

/// Positions are listed for each log size as they are held.
pub proof fn law_positions(positions: Seq<(u32, Vec<usize>)>)
    ensures
        crate::pcs::positions_of(positions).len() == positions.len(),
        forall|j: int|
            0 <= j < positions.len() ==> {
                &&& (#[trigger] crate::pcs::positions_of(positions)[j]).0 == positions[j].0
                &&& crate::pcs::positions_of(positions)[j].1 == positions[j].1@
            },
{
}

proof fn lemma_same_entries<T, U>(a: Seq<Seq<T>>, b: Seq<Seq<U>>, n: int)
    requires
        n <= a.len(),
        a.len() == b.len(),
        forall|i: int| 0 <= i < a.len() ==> (#[trigger] b[i]).len() == a[i].len(),
    ensures
        entries_before(a, n) == entries_before(b, n),
    decreases n,
{
    if n > 0 {
        lemma_same_entries(a, b, n - 1);
        assert(b[n - 1].len() == a[n - 1].len());
    }
}

proof fn lemma_reach_larger(trees: Seq<Tree>, larger: Seq<Tree>, by: u32, n: nat, size: u32)
    requires
        larger.len() == trees.len(),
        forall|t: int|
            0 <= t < trees.len() ==> (#[trigger] larger[t]).column_log_sizes.len()
                == trees[t].column_log_sizes.len(),
        forall|t: int, c: int|
            0 <= t < trees.len() && 0 <= c < trees[t].column_log_sizes.len()
                ==> #[trigger] larger[t].column_log_sizes[c] == trees[t].column_log_sizes[c] + by,
        is_reached(trees, n, size),
        size + by <= u32::MAX,
    ensures
        is_reached(larger, n, (size + by) as u32),
{
    let (t, c) = choose|t: int, c: int|
        #[trigger] has_column(trees, t, c, size) && entries_before(sizes_of(trees), t) + c < n;
    assert(larger[t].column_log_sizes.len() == trees[t].column_log_sizes.len());
    assert(larger[t].column_log_sizes[c] == trees[t].column_log_sizes[c] + by);
    lemma_same_entries(sizes_of(trees), sizes_of(larger), t);
    assert(has_column(larger, t, c, (size + by) as u32));
}

/// Larger columns do not stand in the way: what can be opened can be opened with all columns larger
/// by the same, as long as there are domains of that size.
pub proof fn law_larger_columns_open(
    trees: Seq<Tree>,
    larger: Seq<Tree>,
    by: u32,
    config: PcsConfig,
    points: Seq<Seq<Seq<CirclePoint>>>,
    parts: ProofParts,
)
    requires
        crate::pcs::openable(trees, config, points, parts),
        parts.last_layer_log_size is Some,
        parts.last_layer_len == vstd::arithmetic::power2::pow2(
            parts.last_layer_log_size->0 as nat,
        ),
        larger.len() == trees.len(),
        forall|t: int|
            0 <= t < trees.len() ==> (#[trigger] larger[t]).column_log_sizes.len()
                == trees[t].column_log_sizes.len(),
        forall|t: int, c: int|
            0 <= t < trees.len() && 0 <= c < trees[t].column_log_sizes.len()
                ==> #[trigger] larger[t].column_log_sizes[c] == trees[t].column_log_sizes[c] + by,
        forall|t: int, c: int|
            0 <= t < trees.len() && 0 <= c < trees[t].column_log_sizes.len()
                ==> #[trigger] larger[t].column_log_sizes[c] <= 30,
    ensures
        crate::pcs::openable(larger, config, points, parts),
{
    law_openable(trees, config, points, parts);
    law_openable(larger, config, points, parts);
    let n = entries_before(points, points.len() as int);
    assert forall|t: int, c: int, size: u32| #[trigger] has_column(larger, t, c, size) implies {
        &&& config.log_blowup_factor + config.log_last_layer_degree_bound + 2 <= size <= 30
        &&& is_reached(larger, n, size)
    } by {
        assert(larger[t].column_log_sizes.len() == trees[t].column_log_sizes.len());
        let smaller = trees[t].column_log_sizes[c];
        assert(larger[t].column_log_sizes[c] == smaller + by);
        assert(has_column(trees, t, c, smaller));
        lemma_reach_larger(trees, larger, by, n, smaller);
    }
    let size = choose|size: u32|
        #[trigger] is_greatest(trees, size) && size > config.log_blowup_factor;
    let (a, b) = choose|t: int, c: int| #[trigger] has_column(trees, t, c, size);
    assert(larger[a].column_log_sizes.len() == trees[a].column_log_sizes.len());
    let most = larger[a].column_log_sizes[b];
    assert(most == size + by);
    assert(has_column(larger, a, b, most));
    assert forall|t: int, c: int, other: u32| #[trigger] has_column(larger, t, c, other) implies other
        <= most by {
        assert(larger[t].column_log_sizes.len() == trees[t].column_log_sizes.len());
        assert(larger[t].column_log_sizes[c] == trees[t].column_log_sizes[c] + by);
        assert(has_column(trees, t, c, trees[t].column_log_sizes[c]));
    }
    assert(is_greatest(larger, most));
}

/// Columns open at every log size from the least that folds to the greatest that there is a domain
/// for: with one tree of `n` columns of that size, sampled at one point each of the circle, in
/// reduced words, opening comes to a verdict whatever the values are.
pub proof fn law_every_size_opens(
    size: u32,
    n: nat,
    root: Seq<u8>,
    config: PcsConfig,
    point: CirclePoint,
    parts: ProofParts,
)
    requires
        1 <= config.log_blowup_factor <= 16,
        config.log_last_layer_degree_bound <= 10,
        1 <= config.n_queries <= 34359738360,
        config.log_blowup_factor + config.log_last_layer_degree_bound + 2 <= size <= 30,
        n > 0,
        point.x.a < 0x7fff_ffff && point.x.b < 0x7fff_ffff,
        point.x.c < 0x7fff_ffff && point.x.d < 0x7fff_ffff,
        point.y.a < 0x7fff_ffff && point.y.b < 0x7fff_ffff,
        point.y.c < 0x7fff_ffff && point.y.d < 0x7fff_ffff,
        point.y.c != 0 || point.y.d != 0,
        point.x@.times(point.x@).plus(point.y@.times(point.y@)) == Qm31::one(),
        parts.n_decommitments == 1,
        parts.n_queried == 1,
        parts.last_layer_log_size is Some,
        parts.last_layer_len == vstd::arithmetic::power2::pow2(
            parts.last_layer_log_size->0 as nat,
        ),
        forall|i: int|
            0 <= i < parts.fri_coordinates.len() ==> #[trigger] parts.fri_coordinates[i]
                < 0x7fff_ffff,
        parts.sampled_values.len() == 1,
        parts.sampled_values[0].len() == n,
        forall|c: int, k: int|
            0 <= c < n && 0 <= k < parts.sampled_values[0][c].len() ==> {
                &&& (#[trigger] parts.sampled_values[0][c][k]).a < 0x7fff_ffff
                &&& parts.sampled_values[0][c][k].b < 0x7fff_ffff
                &&& parts.sampled_values[0][c][k].c < 0x7fff_ffff
                &&& parts.sampled_values[0][c][k].d < 0x7fff_ffff
            },
    ensures
        crate::pcs::openable(
            seq![Tree { root, column_log_sizes: Seq::new(n, |c: int| size) }],
            config,
            seq![Seq::new(n, |c: int| seq![point])],
            parts,
        ),
{
    let trees = seq![Tree { root, column_log_sizes: Seq::new(n, |c: int| size) }];
    let points = seq![Seq::new(n, |c: int| seq![point])];
    assert(has_column(trees, 0, 0, size));
    assert(is_greatest(trees, size));
    assert(entries_before(points, 1) == n) by {
        reveal_with_fuel(entries_before, 2);
    }
    assert(entries_before(sizes_of(trees), 0) == 0);
    assert(is_reached(trees, n, size));
    assert forall|t: int, c: int|
        0 <= t < points.len() && 0 <= c < points[t].len() implies columns_meet(
        #[trigger] points[t][c],
        parts.sampled_values[t][c],
    ) by {
        assert forall|k: int|
            0 <= k < points[t][c].len() && k < parts.sampled_values[t][c].len() implies can_meet(
            #[trigger] points[t][c][k],
            parts.sampled_values[t][c][k],
        ) by {
            assert(parts.sampled_values[0][c][k].a < 0x7fff_ffff);
        }
    }
    law_openable(trees, config, points, parts);
}

/// A column that is smaller than what folds, or larger than any domain, cannot be opened.
pub proof fn law_other_sizes_do_not_open(
    trees: Seq<Tree>,
    config: PcsConfig,
    points: Seq<Seq<Seq<CirclePoint>>>,
    parts: ProofParts,
    t: int,
    c: int,
)
    requires
        0 <= t < trees.len(),
        0 <= c < trees[t].column_log_sizes.len(),
        trees[t].column_log_sizes[c] < config.log_blowup_factor
            + config.log_last_layer_degree_bound + 2 || trees[t].column_log_sizes[c] > 30,
    ensures
        !crate::pcs::openable(trees, config, points, parts),
{
    law_openable(trees, config, points, parts);
    assert(has_column(trees, t, c, trees[t].column_log_sizes[c]));
}

/// Proper positions are there for each of the sizes; of each size they ascend and lie below two to
/// the size; and no size is listed twice.
pub proof fn law_proper_positions(
    positions: Seq<(u32, Seq<usize>)>,
    sizes: Seq<u32>,
    i: int,
)
    requires
        crate::pcs::proper_positions(positions, sizes),
    ensures
        0 <= i < sizes.len() ==> exists|j: int|
            0 <= j < positions.len() && (#[trigger] positions[j]).0 == sizes[i],
        forall|j: int, k: int| 0 <= j < k < positions.len() ==> positions[j].0 < positions[k].0,
        forall|j: int| 0 <= j < positions.len() ==> (#[trigger] positions[j]).1.len() > 0,
        forall|j: int, a: int, b: int|
            0 <= j < positions.len() && 0 <= a < b < positions[j].1.len()
                ==> #[trigger] positions[j].1[a] < #[trigger] positions[j].1[b],
        forall|j: int, a: int|
            0 <= j < positions.len() && 0 <= a < positions[j].1.len()
                ==> #[trigger] positions[j].1[a] < vstd::arithmetic::power2::pow2(
                positions[j].0 as nat,
            ),
{
    if 0 <= i < sizes.len() {
        assert(crate::pcs::has_positions(positions, sizes[i]));
    }
    assert forall|j: int, a: int, b: int|
        0 <= j < positions.len() && 0 <= a < b < positions[j].1.len()
        implies #[trigger] positions[j].1[a] < #[trigger] positions[j].1[b] by {
        assert(crate::pcs::ascends_below(
            positions[j].1,
            vstd::arithmetic::power2::pow2(positions[j].0 as nat),
        ));
    }
}

} // verus!
