//! Laws on the values of polynomials.

use vstd::prelude::*;
use crate::circle::CirclePoint;
use crate::field::Qm31;
use crate::poly::CirclePoly;
use crate::poly::SecureCirclePoly;

verus! {

/// `n` coefficients that are all zero but coefficient `i`, which is `v`.
pub open spec fn spike(n: nat, i: nat, v: u32) -> Seq<u32> {
    Seq::new(
        n,
        |j: int|
            if j == i {
                v
            } else {
                0u32
            },
    )
}

proof fn lemma_spike_sum(n: nat, i: nat, v: u32, m: nat, k: nat, z: CirclePoint)
    requires
        m <= n,
        i < n,
    ensures
        crate::poly::basis_sum(spike(n, i, v), m, k, z) == if i < m {
            Qm31::base(v as int).times(crate::poly::basis(i, k, z))
        } else {
            Qm31::zero()
        },
    decreases m,
{
    if m > 0 {
        let j = (m - 1) as nat;
        lemma_spike_sum(n, i, v, j, k, z);
        let b = crate::poly::basis(j, k, z);
        if j == i {
            let term = Qm31::base(v as int).times(b);
            crate::field::lemma_reduced(Qm31::base(v as int), b);
            crate::field::lemma_plus_commutative(Qm31::zero(), term);
            crate::field::lemma_plus_zero(term);
        } else {
            crate::field::lemma_zero_times(b);
            let rest = crate::poly::basis_sum(spike(n, i, v), j, k, z);
            crate::poly::lemma_sum_reduced(spike(n, i, v), j, k, z);
            crate::field::lemma_plus_zero(rest);
            assert(spike(n, i, v)[j as int] == 0);
        }
    }
}

/// The value of a polynomial with one coefficient that is not zero.
proof fn lemma_spike_value(p: CirclePoly, k: nat, i: nat, v: u32, z: CirclePoint)
    requires
        p@ == spike(vstd::arithmetic::power2::pow2(k), i, v),
        i < vstd::arithmetic::power2::pow2(k),
    ensures
        p.at(z) == Qm31::base(v as int).times(crate::poly::basis(i, k, z)),
        v == 1 ==> p.at(z) == crate::poly::basis(i, k, z),
{
    let n = vstd::arithmetic::power2::pow2(k);
    crate::poly::lemma_log_size(n, k);
    lemma_spike_sum(n, i, v, n, k, z);
    crate::poly::lemma_basis_reduced(i, k, z);
    crate::field::lemma_times_one(crate::poly::basis(i, k, z));
}

/// More binary places change nothing for a number that has zeros there.
proof fn lemma_basis_places(i: nat, j: nat, k: nat, z: CirclePoint)
    requires
        j <= k,
        i < vstd::arithmetic::power2::pow2(j),
    ensures
        crate::poly::basis(i, k, z) == crate::poly::basis(i, j, z),
    decreases k,
{
    if j < k {
        if j < k - 1 {
            vstd::arithmetic::power2::lemma_pow2_strictly_increases(j, (k - 1) as nat);
        }
        lemma_basis_places(i, j, (k - 1) as nat, z);
    }
}

proof fn lemma_basis_zero(k: nat, z: CirclePoint)
    ensures
        crate::poly::basis(0, k, z) == Qm31::one(),
{
    vstd::arithmetic::power2::lemma2_to64();
    lemma_basis_places(0, 0, k, z);
}

proof fn lemma_basis_product(i: nat, j: nat, k: nat, z: CirclePoint)
    requires
        j < k,
        i < vstd::arithmetic::power2::pow2(j),
    ensures
        i + vstd::arithmetic::power2::pow2(j) < vstd::arithmetic::power2::pow2(k),
        crate::poly::basis(i + vstd::arithmetic::power2::pow2(j), k, z) == crate::poly::basis(
            i,
            k,
            z,
        ).times(crate::poly::twiddle(z, j)),
{
    let top = vstd::arithmetic::power2::pow2(j);
    vstd::arithmetic::power2::lemma_pow2_unfold(j + 1);
    if j + 1 < k {
        vstd::arithmetic::power2::lemma_pow2_strictly_increases(j + 1, k);
    }
    lemma_basis_places(i + top, j + 1, k, z);
    lemma_basis_places(i, j, k, z);
}

proof fn lemma_twiddle_reduced(z: CirclePoint, j: nat)
    requires
        z.wf(),
    ensures
        crate::poly::twiddle(z, j).reduced(),
{
    crate::field::lemma_view_injective(z.x, z.x);
    crate::field::lemma_view_injective(z.y, z.y);
    if j >= 2 {
        let v = crate::poly::twiddle(z, (j - 1) as nat);
        crate::field::lemma_reduced(
            v.times(v).plus(v.times(v)),
            Qm31::one().negated(),
        );
    }
}

/// The basis function of a power of two is its factor.
proof fn lemma_basis_power(j: nat, k: nat, z: CirclePoint)
    requires
        j < k,
        z.wf(),
    ensures
        vstd::arithmetic::power2::pow2(j) < vstd::arithmetic::power2::pow2(k),
        crate::poly::basis(vstd::arithmetic::power2::pow2(j), k, z) == crate::poly::twiddle(z, j),
{
    vstd::arithmetic::power2::lemma_pow2_pos(j);
    lemma_basis_product(0, j, k, z);
    lemma_basis_zero(k, z);
    lemma_twiddle_reduced(z, j);
    crate::field::lemma_times_one(crate::poly::twiddle(z, j));
}

/// A polynomial with a coefficient at zero only is constant.
pub proof fn law_constant(p: CirclePoly, k: nat, v: u32, z: CirclePoint)
    requires
        p@ == spike(vstd::arithmetic::power2::pow2(k), 0, v),
        v < 0x7fff_ffff,
    ensures
        p.at(z) == Qm31::base(v as int),
{
    vstd::arithmetic::power2::lemma_pow2_pos(k);
    lemma_spike_value(p, k, 0, v, z);
    lemma_basis_zero(k, z);
    crate::field::lemma_times_one(Qm31::base(v as int));
}

/// Coefficients one and two belong to `y` and `x`.
pub proof fn law_first_coordinates(p: CirclePoly, q: CirclePoly, k: nat, z: CirclePoint)
    requires
        z.wf(),
        k >= 2,
        p@ == spike(vstd::arithmetic::power2::pow2(k), 1, 1),
        q@ == spike(vstd::arithmetic::power2::pow2(k), 2, 1),
    ensures
        p.at(z) == z.y@,
        q.at(z) == z.x@,
{
    vstd::arithmetic::power2::lemma2_to64();
    lemma_basis_power(0, k, z);
    lemma_basis_power(1, k, z);
    lemma_spike_value(p, k, 1, 1, z);
    lemma_spike_value(q, k, 2, 1, z);
}

/// From the third factor on, each is `2*v^2 - 1` of the one before: with ones at `2^j` and at
/// `2^(j + 1)`, two polynomials take values that relate so at every point, whatever their sizes.
pub proof fn law_factors_double(
    p: CirclePoly,
    k: nat,
    q: CirclePoly,
    l: nat,
    j: nat,
    z: CirclePoint,
)
    requires
        z.wf(),
        1 <= j < k,
        j + 1 < l,
        p@ == spike(
            vstd::arithmetic::power2::pow2(k),
            vstd::arithmetic::power2::pow2(j),
            1,
        ),
        q@ == spike(
            vstd::arithmetic::power2::pow2(l),
            vstd::arithmetic::power2::pow2(j + 1),
            1,
        ),
    ensures
        q.at(z) == p.at(z).times(p.at(z)).plus(p.at(z).times(p.at(z))).plus(
            Qm31::base(0x7fff_fffe),
        ),
{
    lemma_basis_power(j, k, z);
    lemma_basis_power(j + 1, l, z);
    lemma_spike_value(p, k, vstd::arithmetic::power2::pow2(j), 1, z);
    lemma_spike_value(q, l, vstd::arithmetic::power2::pow2(j + 1), 1, z);
    assert(Qm31::one().negated() == Qm31::base(0x7fff_fffe)) by {
        reveal(Qm31::negated);
    }
}

/// The basis function of `i + 2^j`, with `i` below `2^j`, is the product of those of `i` and `2^j`.
pub proof fn law_basis_multiplies(
    p: CirclePoly,
    q: CirclePoly,
    r: CirclePoly,
    k: nat,
    i: nat,
    j: nat,
    z: CirclePoint,
)
    requires
        z.wf(),
        j < k,
        i < vstd::arithmetic::power2::pow2(j),
        p@ == spike(vstd::arithmetic::power2::pow2(k), i, 1),
        q@ == spike(
            vstd::arithmetic::power2::pow2(k),
            vstd::arithmetic::power2::pow2(j),
            1,
        ),
        r@ == spike(
            vstd::arithmetic::power2::pow2(k),
            i + vstd::arithmetic::power2::pow2(j),
            1,
        ),
    ensures
        r.at(z) == p.at(z).times(q.at(z)),
{
    lemma_basis_product(i, j, k, z);
    lemma_basis_power(j, k, z);
    lemma_spike_value(p, k, i, 1, z);
    lemma_spike_value(q, k, vstd::arithmetic::power2::pow2(j), 1, z);
    lemma_spike_value(r, k, i + vstd::arithmetic::power2::pow2(j), 1, z);
}

/// A coefficient weighs its basis function.
pub proof fn law_coefficients_weigh(
    p: CirclePoly,
    q: CirclePoly,
    k: nat,
    i: nat,
    v: u32,
    z: CirclePoint,
)
    requires
        i < vstd::arithmetic::power2::pow2(k),
        p@ == spike(vstd::arithmetic::power2::pow2(k), i, 1),
        q@ == spike(vstd::arithmetic::power2::pow2(k), i, v),
    ensures
        q.at(z) == Qm31::base(v as int).times(p.at(z)),
{
    lemma_spike_value(p, k, i, 1, z);
    lemma_spike_value(q, k, i, v, z);
}

proof fn lemma_sums_add(
    a: Seq<u32>,
    b: Seq<u32>,
    c: Seq<u32>,
    n: nat,
    k: nat,
    z: CirclePoint,
)
    requires
        n <= a.len(),
        a.len() == b.len(),
        a.len() == c.len(),
        forall|i: int| 0 <= i < a.len() ==> #[trigger] c[i] == (a[i] + b[i]) % 0x7fff_ffff,
    ensures
        crate::poly::basis_sum(c, n, k, z) == crate::poly::basis_sum(a, n, k, z).plus(
            crate::poly::basis_sum(b, n, k, z),
        ),
    decreases n,
{
    if n == 0 {
        crate::field::lemma_plus_zero(Qm31::zero());
    } else {
        let i = (n - 1) as nat;
        lemma_sums_add(a, b, c, i, k, z);
        let f = crate::poly::basis(i, k, z);
        let x = Qm31::base(a[i as int] as int);
        let y = Qm31::base(b[i as int] as int);
        assert(Qm31::base(c[i as int] as int) == x.plus(y)) by {
            reveal(Qm31::plus);
        }
        crate::field::lemma_times_distributive(f, x, y);
        crate::field::lemma_exchange(
            crate::poly::basis_sum(a, i, k, z),
            crate::poly::basis_sum(b, i, k, z),
            x.times(f),
            y.times(f),
        );
    }
}

/// The value is linear in the coefficients: where the coefficients of two polynomials add up to
/// those of a third, so do their values at every point.
pub proof fn law_values_add(p: CirclePoly, q: CirclePoly, r: CirclePoly, k: nat, z: CirclePoint)
    requires
        p@.len() == vstd::arithmetic::power2::pow2(k),
        q@.len() == p@.len(),
        r@.len() == p@.len(),
        forall|i: int| 0 <= i < p@.len() ==> #[trigger] r@[i] == (p@[i] + q@[i]) % 0x7fff_ffff,
    ensures
        r.at(z) == p.at(z).plus(q.at(z)),
{
    crate::poly::lemma_log_size(p@.len(), k);
    lemma_sums_add(p@, q@, r@, p@.len(), k, z);
}

proof fn lemma_padded_sum(
    a: Seq<u32>,
    b: Seq<u32>,
    n: nat,
    j: nat,
    k: nat,
    z: CirclePoint,
)
    requires
        j <= k,
        a.len() == vstd::arithmetic::power2::pow2(j),
        n <= b.len(),
        a.len() <= b.len(),
        forall|i: int| 0 <= i < a.len() ==> #[trigger] b[i] == a[i],
        forall|i: int| a.len() <= i < b.len() ==> #[trigger] b[i] == 0,
    ensures
        crate::poly::basis_sum(b, n, k, z) == crate::poly::basis_sum(
            a,
            if n <= a.len() {
                n
            } else {
                a.len()
            },
            j,
            z,
        ),
    decreases n,
{
    if n > 0 {
        let i = (n - 1) as nat;
        lemma_padded_sum(a, b, i, j, k, z);
        if i < a.len() {
            lemma_basis_places(i, j, k, z);
        } else {
            crate::field::lemma_zero_times(crate::poly::basis(i, k, z));
            crate::poly::lemma_sum_reduced(b, i, k, z);
            crate::field::lemma_plus_zero(crate::poly::basis_sum(b, i, k, z));
        }
    }
}

/// Zeros after the coefficients change no value.
pub proof fn law_padding(p: CirclePoly, j: nat, q: CirclePoly, k: nat, z: CirclePoint)
    requires
        j <= k,
        p@.len() == vstd::arithmetic::power2::pow2(j),
        q@.len() == vstd::arithmetic::power2::pow2(k),
        forall|i: int| 0 <= i < p@.len() ==> #[trigger] q@[i] == p@[i],
        forall|i: int| p@.len() <= i < q@.len() ==> #[trigger] q@[i] == 0,
    ensures
        q.at(z) == p.at(z),
{
    if j < k {
        vstd::arithmetic::power2::lemma_pow2_strictly_increases(j, k);
    }
    crate::poly::lemma_log_size(p@.len(), j);
    crate::poly::lemma_log_size(q@.len(), k);
    lemma_padded_sum(p@, q@, q@.len(), j, k, z);
}

/// The coordinates of a point of the circle after it is doubled `n` times in the group, where the
/// sum of `(a, b)` and `(c, d)` is `(a*c - b*d, a*d + b*c)`.
pub open spec fn doubled(x: Qm31, y: Qm31, n: nat) -> (Qm31, Qm31)
    decreases n,
{
    if n == 0 {
        (x, y)
    } else {
        let (a, b) = doubled(x, y, (n - 1) as nat);
        (a.times(a).plus(b.times(b).negated()), a.times(b).plus(b.times(a)))
    }
}

/// `-q = s - 1` where `s + q = 1`.
proof fn lemma_negated_rest(s: Qm31, q: Qm31)
    requires
        s.reduced(),
        q.reduced(),
        s.plus(q) == Qm31::one(),
    ensures
        q.negated() == s.plus(Qm31::base(0x7fff_fffe)),
{
    let one = Qm31::one();
    let minus = Qm31::base(0x7fff_fffe);
    assert(one.plus(minus) == Qm31::zero()) by {
        reveal(Qm31::plus);
    }
    // q + (s - 1) = 0
    crate::field::lemma_plus_associative(q, s, minus);
    crate::field::lemma_plus_commutative(q, s);
    // -q + (q + (s - 1)) = s - 1
    let n = q.negated();
    let r = s.plus(minus);
    crate::field::lemma_reduced(s, minus);
    crate::field::lemma_reduced(q, q);
    crate::field::lemma_plus_associative(n, q, r);
    crate::field::lemma_plus_commutative(n, q);
    crate::field::lemma_plus_negated(q);
    crate::field::lemma_plus_commutative(Qm31::zero(), r);
    crate::field::lemma_plus_zero(r);
    crate::field::lemma_plus_zero(n);
}

/// Doubling stays on the circle.
proof fn lemma_doubling_on_circle(x: Qm31, y: Qm31)
    requires
        x.times(x).plus(y.times(y)) == Qm31::one(),
    ensures
        ({
            let d = x.times(x).plus(y.times(y).negated());
            let e = x.times(y).plus(y.times(x));
            d.times(d).plus(e.times(e)) == Qm31::one()
        }),
{
    let s = x.times(x);
    let q = y.times(y);
    let n = q.negated();
    let d = s.plus(n);
    let w = x.times(y);
    let e = w.plus(y.times(x));
    let c = s.times(q);
    let m = c.negated();
    crate::field::lemma_times_commutative(x, y);
    crate::circle::lemma_square_of_product(x, y);
    crate::field::lemma_reduced(s, q);
    crate::field::lemma_reduced(x, x);
    crate::field::lemma_reduced(y, y);
    crate::field::lemma_reduced(c, c);
    // e*e = 4*c
    crate::field::lemma_times_distributive(e, w, w);
    crate::field::lemma_times_distributive(w, w, w);
    assert(w.times(w) == c);
    let c2 = c.plus(c);
    assert(e.times(e) == c2.plus(c2));
    // d*d = (s*s + m) + (m + q*q)
    crate::field::lemma_times_minus_one(q);
    crate::field::lemma_times_minus_one(c);
    crate::field::lemma_times_minus_one(n.times(q));
    let minus = Qm31::base(crate::field::P - 1);
    crate::field::lemma_times_associative(s, q, minus);
    assert(s.times(n) == m);
    crate::field::lemma_times_commutative(n, s);
    crate::field::lemma_times_associative(n, q, minus);
    crate::field::lemma_times_commutative(n, q);
    crate::field::lemma_times_associative(q, q, minus);
    crate::field::lemma_times_associative(q.times(q), minus, minus);
    crate::field::lemma_base_times(crate::field::P - 1, crate::field::P - 1);
    assert((crate::field::P - 1) * (crate::field::P - 1) == (crate::field::P - 2) * crate::field::P
        + 1) by (nonlinear_arith);
    vstd::arithmetic::div_mod::lemma_mod_multiples_vanish(
        crate::field::P - 2,
        1,
        crate::field::P as int,
    );
    crate::field::lemma_reduced(q, q);
    crate::field::lemma_times_one(q.times(q));
    assert(n.times(n) == q.times(q));
    crate::field::lemma_times_distributive(d, s, n);
    crate::field::lemma_times_distributive(s, s, n);
    crate::field::lemma_times_distributive(n, s, n);
    let ss = s.times(s);
    let qq = q.times(q);
    assert(d.times(d) == ss.plus(m).plus(m.plus(qq)));
    // (ss + m) + (m + qq) + (c2 + c2) = (ss + c) + (c + qq)
    crate::field::lemma_exchange(ss.plus(m), m.plus(qq), c2, c2);
    lemma_take_off(ss, c);
    crate::field::lemma_plus_commutative(m, qq);
    lemma_take_off(qq, c);
    crate::field::lemma_plus_commutative(qq, c);
    // (ss + c) + (c + qq) = (s + q)*(s + q)
    let one = s.plus(q);
    crate::field::lemma_times_distributive(one, s, q);
    crate::field::lemma_times_distributive(s, s, q);
    crate::field::lemma_times_distributive(q, s, q);
    crate::field::lemma_times_commutative(q, s);
    crate::field::lemma_times_one(Qm31::one());
}

/// `(a - c) + (c + c) = a + c`.
proof fn lemma_take_off(a: Qm31, c: Qm31)
    requires
        c.reduced(),
    ensures
        a.plus(c.negated()).plus(c.plus(c)) == a.plus(c),
{
    let m = c.negated();
    crate::field::lemma_plus_associative(a, m, c.plus(c));
    crate::field::lemma_plus_associative(m, c, c);
    crate::field::lemma_plus_commutative(m, c);
    crate::field::lemma_plus_negated(c);
    crate::field::lemma_plus_commutative(Qm31::zero(), c);
    crate::field::lemma_plus_zero(c);
}

proof fn lemma_doubled_on_circle(x: Qm31, y: Qm31, n: nat)
    requires
        x.times(x).plus(y.times(y)) == Qm31::one(),
    ensures
        ({
            let (a, b) = doubled(x, y, n);
            a.times(a).plus(b.times(b)) == Qm31::one()
        }),
    decreases n,
{
    if n > 0 {
        lemma_doubled_on_circle(x, y, (n - 1) as nat);
        let (a, b) = doubled(x, y, (n - 1) as nat);
        lemma_doubling_on_circle(a, b);
    }
}

proof fn lemma_twiddle_doubles(z: CirclePoint, j: nat)
    requires
        z.x@.times(z.x@).plus(z.y@.times(z.y@)) == Qm31::one(),
        j >= 1,
    ensures
        crate::poly::twiddle(z, j) == doubled(z.x@, z.y@, (j - 1) as nat).0,
    decreases j,
{
    if j >= 2 {
        lemma_twiddle_doubles(z, (j - 1) as nat);
        lemma_doubled_on_circle(z.x@, z.y@, (j - 2) as nat);
        let (a, b) = doubled(z.x@, z.y@, (j - 2) as nat);
        let s = a.times(a);
        crate::field::lemma_reduced(a, a);
        crate::field::lemma_reduced(b, b);
        lemma_negated_rest(s, b.times(b));
        assert(Qm31::one().negated() == Qm31::base(0x7fff_fffe)) by {
            reveal(Qm31::negated);
        }
        crate::field::lemma_plus_associative(s, s, Qm31::base(0x7fff_fffe));
    }
}

/// On the circle, the polynomial with a one at `2^j` takes at a point the `x` coordinate of that
/// point doubled `j - 1` times.
pub proof fn law_factors_are_doubled_points(p: CirclePoly, k: nat, j: nat, z: CirclePoint)
    requires
        z.wf(),
        z.x@.times(z.x@).plus(z.y@.times(z.y@)) == Qm31::one(),
        1 <= j < k,
        p@ == spike(
            vstd::arithmetic::power2::pow2(k),
            vstd::arithmetic::power2::pow2(j),
            1,
        ),
    ensures
        p.at(z) == doubled(z.x@, z.y@, (j - 1) as nat).0,
{
    lemma_basis_power(j, k, z);
    lemma_spike_value(p, k, vstd::arithmetic::power2::pow2(j), 1, z);
    lemma_twiddle_doubles(z, j);
}

/// A polynomial with secure field values is the sum of its coordinates, weighed with `1`, `i`, `u`
/// and `i*u`.
pub proof fn law_coordinates_are_weighed(p: SecureCirclePoly, z: CirclePoint)
    ensures
        p.at(z) == p.0@[0].at(z).plus(p.0@[1].at(z).times(Qm31::of(0, 1, 0, 0))).plus(
            p.0@[2].at(z).times(Qm31::of(0, 0, 1, 0)),
        ).plus(p.0@[3].at(z).times(Qm31::of(0, 0, 0, 1))),
{
}

/// Where the coordinates take values in the base field, they are the coordinates of the value.
pub proof fn law_base_coordinates(
    p: SecureCirclePoly,
    z: CirclePoint,
    a: int,
    b: int,
    c: int,
    d: int,
)
    requires
        0 <= a < 0x7fff_ffff,
        0 <= b < 0x7fff_ffff,
        0 <= c < 0x7fff_ffff,
        0 <= d < 0x7fff_ffff,
        p.0@[0].at(z) == Qm31::base(a),
        p.0@[1].at(z) == Qm31::base(b),
        p.0@[2].at(z) == Qm31::base(c),
        p.0@[3].at(z) == Qm31::base(d),
    ensures
        p.at(z) == Qm31::of(a, b, c, d),
{
    lemma_base_scales(b, 0, 1, 0, 0);
    lemma_base_scales(c, 0, 0, 1, 0);
    lemma_base_scales(d, 0, 0, 0, 1);
    reveal(Qm31::plus);
}

/// A base field element times an element whose coordinates are zeros and ones.
proof fn lemma_base_scales(v: int, a: int, b: int, c: int, d: int)
    requires
        0 <= v < 0x7fff_ffff,
        0 <= a <= 1,
        0 <= b <= 1,
        0 <= c <= 1,
        0 <= d <= 1,
    ensures
        Qm31::base(v).times(Qm31::of(a, b, c, d)) == Qm31::of(v * a, v * b, v * c, v * d),
{
    reveal(Qm31::times);
    let x = Qm31::of(a, b, c, d);
    assert(Qm31::base(v).raw_times(x) == Qm31::of(v * a, v * b, v * c, v * d));
    assert(v * 0 == 0 && v * 1 == v);
}

/// The sequence can be coefficients if and only if it has a power of two of entries, all below the
/// modulus.
pub proof fn law_coefficients(coeffs: Seq<u32>)
    ensures
        crate::poly::are_coefficients(coeffs) <==> {
            &&& exists|k: nat| coeffs.len() == #[trigger] vstd::arithmetic::power2::pow2(k)
            &&& forall|i: int| 0 <= i < coeffs.len() ==> #[trigger] coeffs[i] < 0x7fff_ffff
        },
{
}

/// The field: `i*i` is minus one, `u*u` is `2 + i`, and sums and products of base elements are
/// those modulo `2^31 - 1`.
pub proof fn law_field(v: int, w: int)
    ensures
        Qm31::of(0, 1, 0, 0).times(Qm31::of(0, 1, 0, 0)) == Qm31::of(0x7fff_fffe, 0, 0, 0),
        Qm31::of(0, 0, 1, 0).times(Qm31::of(0, 0, 1, 0)) == Qm31::of(2, 1, 0, 0),
        Qm31::of(0, 1, 0, 0).times(Qm31::of(0, 0, 1, 0)) == Qm31::of(0, 0, 0, 1),
        Qm31::base(v).plus(Qm31::base(w)) == Qm31::base((v + w) % 0x7fff_ffff),
        Qm31::base(v).times(Qm31::base(w)) == Qm31::base((v * w) % 0x7fff_ffff),
{
    crate::field::lemma_base_times(v, w);
    reveal(Qm31::plus);
    reveal(Qm31::times);
}

} // verus!
