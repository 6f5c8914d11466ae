//! Points of the circle `x^2 + y^2 = 1` over the secure field.

use vstd::prelude::*;
use crate::field::P;
use crate::field::Qm31;
use crate::field::SecureField;

verus! {

/// A point with coordinates in the secure field.
#[derive(Clone, Copy, Debug, PartialEq, Eq, Structural)]
pub struct CirclePoint {
    pub x: SecureField,
    pub y: SecureField,
}

impl CirclePoint {
    /// The coordinates are canonical.
    pub open spec fn wf(self) -> bool {
        self.x.wf() && self.y.wf()
    }

    /// The point is its own conjugate in the `u` direction: its `y` has no `u` part.
    pub open spec fn self_conjugate(self) -> bool {
        self.y.c == 0 && self.y.d == 0
    }

    /// The coordinates satisfy the equation of the circle, `x^2 + y^2 = 1`.
    pub open spec fn on_circle(self) -> bool {
        self.x@.times(self.x@).plus(self.y@.times(self.y@)) == Qm31::one()
    }

    /// Tests whether a point lies on the circle.
    pub fn is_on_circle(&self) -> (r: bool)
        requires
            self.wf(),
        ensures
            r == self.on_circle(),
    {
        let square: SecureField = crate::field::sum(
            crate::field::multiply(self.x, self.x),
            crate::field::multiply(self.y, self.y),
        );
        proof {
            crate::field::lemma_view_injective(square, SecureField { a: 1, b: 0, c: 0, d: 0 });
        }
        square.a == 1 && square.b == 0 && square.c == 0 && square.d == 0
    }
}

/// The doubling map of the `x` coordinate, `2*x^2 - 1`.
pub open spec fn doubled_x(x: Qm31) -> Qm31 {
    x.times(x).plus(x.times(x)).minus(Qm31::one())
}

/// `1 + t^2`, the denominator of the rational parametrisation of the circle.
pub open spec fn denominator(t: Qm31) -> Qm31 {
    t.times(t).plus(Qm31::one())
}

/// `p` is the point with parameter `t`: `x = (1 - t^2) / (1 + t^2)` and `y = 2*t / (1 + t^2)`.
pub open spec fn has_parameter(p: CirclePoint, t: Qm31) -> bool {
    &&& p.wf()
    &&& p.x@.times(denominator(t)) == Qm31::one().plus(t.times(t).negated())
    &&& p.y@.times(denominator(t)) == t.plus(t)
}

/// The point with parameter `t`.
pub open spec fn point_at(t: Qm31) -> CirclePoint {
    choose|p: CirclePoint| has_parameter(p, t)
}

/// The inverse of `1 + t^2` that a point with parameter `t` gives: `(1 + x) / 2`.
spec fn denominator_inverse(p: CirclePoint) -> Qm31 {
    Qm31::one().plus(p.x@).times(Qm31::base(1073741824))
}

proof fn lemma_denominator_inverse(p: CirclePoint, t: Qm31)
    requires
        has_parameter(p, t),
    ensures
        denominator(t).times(denominator_inverse(p)) == Qm31::one(),
{
    let one = Qm31::one();
    let half = Qm31::base(1073741824);
    let sq = t.times(t);
    let d = denominator(t);
    let x = p.x@;
    crate::field::lemma_reduced(t, t);
    crate::field::lemma_reduced(sq, one);
    // d * (1 + x) = d + (1 - t^2) = 2.
    crate::field::lemma_times_distributive(d, one, x);
    crate::field::lemma_times_one(d);
    crate::field::lemma_times_commutative(d, x);
    lemma_sum_is_two(sq);
    crate::field::lemma_times_associative(d, one.plus(x), half);
    crate::field::lemma_base_times(2, 1073741824);
}

/// `(s + 1) + (1 - s) = 2`.
proof fn lemma_sum_is_two(s: Qm31)
    ensures
        s.plus(Qm31::one()).plus(Qm31::one().plus(s.negated())) == Qm31::base(2),
{
    let one = Qm31::one();
    let n = s.negated();
    crate::field::lemma_plus_associative(s, one, one.plus(n));
    crate::field::lemma_plus_associative(one, one, n);
    crate::field::lemma_plus_commutative(one.plus(one), n);
    crate::field::lemma_plus_associative(s, n, one.plus(one));
    crate::field::lemma_plus_negated(s);
    assert(Qm31::zero().plus(one.plus(one)) == Qm31::base(2)) by {
        reveal(Qm31::plus);
    }
}

/// A parameter determines the point.
pub proof fn lemma_point_unique(p: CirclePoint, q: CirclePoint, t: Qm31)
    requires
        has_parameter(p, t),
        has_parameter(q, t),
    ensures
        p == q,
{
    let d = denominator(t);
    let w = denominator_inverse(p);
    lemma_denominator_inverse(p, t);
    crate::field::lemma_times_associative(p.x@, d, w);
    crate::field::lemma_times_associative(q.x@, d, w);
    crate::field::lemma_times_associative(p.y@, d, w);
    crate::field::lemma_times_associative(q.y@, d, w);
    crate::field::lemma_view_injective(p.x, q.x);
    crate::field::lemma_view_injective(p.y, q.y);
    crate::field::lemma_times_one(p.x@);
    crate::field::lemma_times_one(q.x@);
    crate::field::lemma_times_one(p.y@);
    crate::field::lemma_times_one(q.y@);
}

pub proof fn lemma_square_of_product(x: Qm31, y: Qm31)
    ensures
        x.times(y).times(x.times(y)) == x.times(x).times(y.times(y)),
{
    crate::field::lemma_times_associative(x, y, x.times(y));
    crate::field::lemma_times_associative(y, x, y);
    crate::field::lemma_times_commutative(y, x);
    crate::field::lemma_times_associative(x, y, y);
    crate::field::lemma_times_associative(x, x, y.times(y));
}

/// `(1 + n + n + q) + 4*s = q + s + s + 1` where `n = -s`.
proof fn lemma_cancel(s: Qm31, q: Qm31)
    requires
        s.reduced(),
        q.reduced(),
    ensures
        ({
            let one = Qm31::one();
            let n = s.negated();
            one.plus(n).plus(n.plus(q)).plus(s.plus(s).plus(s.plus(s))) == q.plus(s).plus(
                s.plus(one),
            )
        }),
{
    let one = Qm31::one();
    let zero = Qm31::zero();
    let n = s.negated();
    crate::field::lemma_plus_negated(s);
    crate::field::lemma_plus_commutative(n, s);
    crate::field::lemma_reduced(one, s);
    crate::field::lemma_reduced(q, s);
    // (1 + n) + (s + s) = 1 + s.
    crate::field::lemma_exchange(one, n, s, s);
    crate::field::lemma_plus_zero(one.plus(s));
    // (n + q) + (s + s) = q + s.
    crate::field::lemma_exchange(n, q, s, s);
    crate::field::lemma_plus_commutative(zero, q.plus(s));
    crate::field::lemma_plus_zero(q.plus(s));
    crate::field::lemma_exchange(one.plus(n), n.plus(q), s.plus(s), s.plus(s));
    crate::field::lemma_plus_commutative(one.plus(s), q.plus(s));
    crate::field::lemma_plus_commutative(one, s);
}

/// `(1 - s)^2 + 4*s = (1 + s)^2`.
proof fn lemma_squares_add_up(s: Qm31)
    requires
        s.reduced(),
    ensures
        ({
            let m = Qm31::one().plus(s.negated());
            let d = s.plus(Qm31::one());
            let twice = s.plus(s);
            m.times(m).plus(twice.plus(twice)) == d.times(d)
        }),
{
    let one = Qm31::one();
    let n = s.negated();
    let m = one.plus(n);
    let d = s.plus(one);
    let q = s.times(s);
    let minus_one = Qm31::base(P - 1);
    crate::field::lemma_reduced(s, s);
    crate::field::lemma_reduced(one, n);
    crate::field::lemma_reduced(s, one);
    assert(n.times(n) == q) by {
        crate::field::lemma_times_minus_one(s);
        lemma_square_of_product(s, minus_one);
        crate::field::lemma_base_times(P - 1, P - 1);
        assert((P - 1) * (P - 1) == (P - 2) * P + 1) by (nonlinear_arith);
        vstd::arithmetic::div_mod::lemma_mod_multiples_vanish(P - 2, 1, P as int);
        crate::field::lemma_times_one(q);
    }
    crate::field::lemma_times_distributive(m, one, n);
    crate::field::lemma_times_distributive(n, one, n);
    crate::field::lemma_times_one(m);
    crate::field::lemma_times_one(n);
    assert(m.times(m) == one.plus(n).plus(n.plus(q)));
    crate::field::lemma_times_distributive(d, s, one);
    crate::field::lemma_times_distributive(s, s, one);
    crate::field::lemma_times_one(d);
    crate::field::lemma_times_one(s);
    assert(d.times(d) == q.plus(s).plus(s.plus(one)));
    lemma_cancel(s, q);
}

/// The parametrisation stays on the circle: `x^2 + y^2 = 1`.
pub proof fn lemma_on_circle(p: CirclePoint, t: Qm31)
    requires
        has_parameter(p, t),
    ensures
        p.on_circle(),
{
    let d = denominator(t);
    let w = denominator_inverse(p);
    let x = p.x@;
    let y = p.y@;
    let s = t.times(t);
    let norm = x.times(x).plus(y.times(y));
    crate::field::lemma_reduced(t, t);
    // norm * d^2 = (1 - s)^2 + (2*t)^2 = d^2.
    crate::field::lemma_times_distributive(d.times(d), x.times(x), y.times(y));
    lemma_square_of_product(x, d);
    lemma_square_of_product(y, d);
    crate::field::lemma_times_distributive(t.plus(t), t, t);
    crate::field::lemma_times_distributive(t, t, t);
    lemma_squares_add_up(s);
    assert(norm.times(d.times(d)) == d.times(d));
    // d^2 is invertible.
    lemma_denominator_inverse(p, t);
    lemma_square_of_product(d, w);
    crate::field::lemma_base_times(1, 1);
    crate::field::lemma_times_associative(norm, d.times(d), w.times(w));
    crate::field::lemma_reduced(x.times(x), y.times(y));
    crate::field::lemma_times_one(norm);
}

/// Doubles an `x` coordinate with `CirclePoint::double_x`, the map `2*x^2 - 1`.
#[verifier::external_body]
pub(crate) fn double_x(x: SecureField) -> (r: SecureField)
    requires
        x.wf(),
    ensures
        r.wf(),
        r@ == doubled_x(x@),
{
    let x = stwo::core::fields::qm31::QM31::from_u32_unchecked(x.a, x.b, x.c, x.d);
    let doubled = stwo::core::circle::CirclePoint::double_x(x);
    let [a, b, c, d] = doubled.to_m31_array();
    SecureField { a: a.0, b: b.0, c: c.0, d: d.0 }
}

} // verus!
