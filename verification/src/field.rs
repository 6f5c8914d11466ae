//! The secure field: the degree four extension of the integers modulo `2^31 - 1`.
//!
//! An element is `(a + b*i) + (c + d*i)*u` with `i^2 = -1` and `u^2 = 2 + i`.

use vstd::prelude::*;

verus! {

/// The characteristic of the field, `2^31 - 1`.
pub const P: u32 = 2147483647;

/// A Gaussian integer `re + im*i`, the model of an element of the quadratic extension.
#[verifier::ext_equal]
pub struct Cm31 {
    pub re: int,
    pub im: int,
}

impl Cm31 {
    pub open spec fn raw_plus(self, other: Cm31) -> Cm31 {
        Cm31 { re: self.re + other.re, im: self.im + other.im }
    }

    pub open spec fn raw_times(self, other: Cm31) -> Cm31 {
        Cm31 {
            re: self.re * other.re - self.im * other.im,
            im: self.re * other.im + self.im * other.re,
        }
    }

    pub open spec fn raw_negated(self) -> Cm31 {
        Cm31 { re: -self.re, im: -self.im }
    }

    pub open spec fn reduce(self) -> Cm31 {
        Cm31 { re: self.re % (P as int), im: self.im % (P as int) }
    }

    pub open spec fn reduced(self) -> bool {
        0 <= self.re < P && 0 <= self.im < P
    }

    /// The square of `u`, `2 + i`.
    pub open spec fn r() -> Cm31 {
        Cm31 { re: 2, im: 1 }
    }
}

/// An element `s + t*u` of the secure field, as mathematical integers.
#[verifier::ext_equal]
pub struct Qm31 {
    pub s: Cm31,
    pub t: Cm31,
}

impl Qm31 {
    /// The sum before reduction.
    pub open spec fn raw_plus(self, other: Qm31) -> Qm31 {
        Qm31 { s: self.s.raw_plus(other.s), t: self.t.raw_plus(other.t) }
    }

    /// The product before reduction.
    pub open spec fn raw_times(self, other: Qm31) -> Qm31 {
        Qm31 {
            s: self.s.raw_times(other.s).raw_plus(Cm31::r().raw_times(self.t.raw_times(other.t))),
            t: self.s.raw_times(other.t).raw_plus(self.t.raw_times(other.s)),
        }
    }

    pub open spec fn raw_negated(self) -> Qm31 {
        Qm31 { s: self.s.raw_negated(), t: self.t.raw_negated() }
    }

    /// The representative whose coordinates all lie in `0..P`.
    pub open spec fn reduce(self) -> Qm31 {
        Qm31 { s: self.s.reduce(), t: self.t.reduce() }
    }

    /// The coordinates all lie in `0..P`.
    pub open spec fn reduced(self) -> bool {
        self.s.reduced() && self.t.reduced()
    }

    /// The element with the given coordinates.
    pub open spec fn of(a: int, b: int, c: int, d: int) -> Qm31 {
        Qm31 { s: Cm31 { re: a, im: b }, t: Cm31 { re: c, im: d } }
    }

    /// An element of the base field, seen in the extension.
    pub open spec fn base(v: int) -> Qm31 {
        Qm31::of(v, 0, 0, 0)
    }

    pub open spec fn zero() -> Qm31 {
        Qm31::base(0)
    }

    pub open spec fn one() -> Qm31 {
        Qm31::base(1)
    }

    /// Field addition.
    #[verifier::opaque]
    pub open spec fn plus(self, other: Qm31) -> Qm31 {
        self.raw_plus(other).reduce()
    }

    /// Field multiplication.
    #[verifier::opaque]
    pub open spec fn times(self, other: Qm31) -> Qm31 {
        self.raw_times(other).reduce()
    }

    /// The additive inverse.
    #[verifier::opaque]
    pub open spec fn negated(self) -> Qm31 {
        self.raw_negated().reduce()
    }

    /// Field subtraction.
    pub open spec fn minus(self, other: Qm31) -> Qm31 {
        self.plus(other.negated())
    }
}

// Identities of the integer products, before reduction.

proof fn lemma_complex_commutative(x: Cm31, y: Cm31)
    ensures
        x.raw_times(y) == y.raw_times(x),
{
    vstd::arithmetic::mul::lemma_mul_is_commutative(x.re, y.re);
    vstd::arithmetic::mul::lemma_mul_is_commutative(x.re, y.im);
    vstd::arithmetic::mul::lemma_mul_is_commutative(x.im, y.re);
    vstd::arithmetic::mul::lemma_mul_is_commutative(x.im, y.im);
}

proof fn lemma_complex_distributive(x: Cm31, y: Cm31, z: Cm31)
    ensures
        x.raw_times(y.raw_plus(z)) == x.raw_times(y).raw_plus(x.raw_times(z)),
{
    vstd::arithmetic::mul::lemma_mul_is_distributive_add(x.re, y.re, z.re);
    vstd::arithmetic::mul::lemma_mul_is_distributive_add(x.re, y.im, z.im);
    vstd::arithmetic::mul::lemma_mul_is_distributive_add(x.im, y.re, z.re);
    vstd::arithmetic::mul::lemma_mul_is_distributive_add(x.im, y.im, z.im);
}

proof fn lemma_scalar_expand(a: int, b: int, c: int, d: int, e: int)
    ensures
        (a * b - c * d) * e == a * (b * e) - c * (d * e),
        (a * b + c * d) * e == a * (b * e) + c * (d * e),
        e * (a * b - c * d) == e * (a * b) - e * (c * d),
        e * (a * b + c * d) == e * (a * b) + e * (c * d),
{
    vstd::arithmetic::mul::lemma_mul_is_distributive_sub_other_way(e, a * b, c * d);
    vstd::arithmetic::mul::lemma_mul_is_distributive_add_other_way(e, a * b, c * d);
    vstd::arithmetic::mul::lemma_mul_is_distributive_sub(e, a * b, c * d);
    vstd::arithmetic::mul::lemma_mul_is_distributive_add(e, a * b, c * d);
    vstd::arithmetic::mul::lemma_mul_is_associative(a, b, e);
    vstd::arithmetic::mul::lemma_mul_is_associative(c, d, e);
}

proof fn lemma_complex_associative(x: Cm31, y: Cm31, z: Cm31)
    ensures
        x.raw_times(y).raw_times(z) == x.raw_times(y.raw_times(z)),
{
    lemma_scalar_expand(x.re, y.re, x.im, y.im, z.re);
    lemma_scalar_expand(x.re, y.re, x.im, y.im, z.im);
    lemma_scalar_expand(x.re, y.im, x.im, y.re, z.re);
    lemma_scalar_expand(x.re, y.im, x.im, y.re, z.im);
    lemma_scalar_expand(y.re, z.re, y.im, z.im, x.re);
    lemma_scalar_expand(y.re, z.re, y.im, z.im, x.im);
    lemma_scalar_expand(y.re, z.im, y.im, z.re, x.re);
    lemma_scalar_expand(y.re, z.im, y.im, z.re, x.im);
}

proof fn lemma_raw_commutative(x: Qm31, y: Qm31)
    ensures
        x.raw_times(y) == y.raw_times(x),
{
    lemma_complex_commutative(x.s, y.s);
    lemma_complex_commutative(x.s, y.t);
    lemma_complex_commutative(x.t, y.s);
    lemma_complex_commutative(x.t, y.t);
}

proof fn lemma_raw_distributive(x: Qm31, y: Qm31, z: Qm31)
    ensures
        x.raw_times(y.raw_plus(z)) == x.raw_times(y).raw_plus(x.raw_times(z)),
{
    lemma_complex_distributive(x.s, y.s, z.s);
    lemma_complex_distributive(x.s, y.t, z.t);
    lemma_complex_distributive(x.t, y.s, z.s);
    lemma_complex_distributive(x.t, y.t, z.t);
    lemma_complex_distributive(Cm31::r(), x.t.raw_times(y.t), x.t.raw_times(z.t));
}

/// `(r*t)*w`-shaped products may be regrouped freely.
proof fn lemma_complex_regroup(r: Cm31, x: Cm31, y: Cm31, z: Cm31)
    ensures
        r.raw_times(x.raw_times(y)).raw_times(z) == r.raw_times(x.raw_times(y.raw_times(z))),
        r.raw_times(x.raw_times(y).raw_times(z)) == r.raw_times(x.raw_times(y.raw_times(z))),
        x.raw_times(r.raw_times(y.raw_times(z))) == r.raw_times(x.raw_times(y.raw_times(z))),
{
    lemma_complex_associative(r, x.raw_times(y), z);
    lemma_complex_associative(x, y, z);
    lemma_complex_associative(x, r, y.raw_times(z));
    lemma_complex_commutative(x, r);
    lemma_complex_associative(r, x, y.raw_times(z));
}

proof fn lemma_raw_associative(x: Qm31, y: Qm31, z: Qm31)
    ensures
        x.raw_times(y).raw_times(z) == x.raw_times(y.raw_times(z)),
{
    let r = Cm31::r();
    // Expand the left-hand side, using commutativity to bring the sum to the right.
    let ss = x.s.raw_times(y.s);
    let tt = x.t.raw_times(y.t);
    let st = x.s.raw_times(y.t);
    let ts = x.t.raw_times(y.s);
    lemma_sum_times(ss, r.raw_times(tt), z.s);
    lemma_sum_times(ss, r.raw_times(tt), z.t);
    lemma_sum_times(st, ts, z.s);
    lemma_sum_times(st, ts, z.t);
    lemma_complex_distributive(r, st.raw_times(z.t), ts.raw_times(z.t));
    // Expand the right-hand side.
    let ss2 = y.s.raw_times(z.s);
    let tt2 = y.t.raw_times(z.t);
    let st2 = y.s.raw_times(z.t);
    let ts2 = y.t.raw_times(z.s);
    lemma_complex_distributive(x.s, ss2, r.raw_times(tt2));
    lemma_complex_distributive(x.t, ss2, r.raw_times(tt2));
    lemma_complex_distributive(x.s, st2, ts2);
    lemma_complex_distributive(x.t, st2, ts2);
    lemma_complex_distributive(r, x.t.raw_times(st2), x.t.raw_times(ts2));
    // Match the terms.
    lemma_complex_associative(x.s, y.s, z.s);
    lemma_complex_associative(x.s, y.s, z.t);
    lemma_complex_associative(x.s, y.t, z.s);
    lemma_complex_associative(x.t, y.s, z.s);
    lemma_complex_regroup(r, x.t, y.t, z.s);
    lemma_complex_regroup(r, x.t, y.t, z.t);
    lemma_complex_regroup(r, x.s, y.t, z.t);
    lemma_complex_regroup(r, x.t, y.s, z.t);
}

proof fn lemma_sum_times(x: Cm31, y: Cm31, z: Cm31)
    ensures
        x.raw_plus(y).raw_times(z) == x.raw_times(z).raw_plus(y.raw_times(z)),
{
    lemma_complex_commutative(x.raw_plus(y), z);
    lemma_complex_distributive(z, x, y);
    lemma_complex_commutative(z, x);
    lemma_complex_commutative(z, y);
}


// Reduction is compatible with the operations.

impl Cm31 {
    spec fn scaled(self, k: int) -> Cm31 {
        Cm31 { re: k * self.re, im: k * self.im }
    }

    spec fn quotient(self) -> Cm31 {
        Cm31 { re: self.re / (P as int), im: self.im / (P as int) }
    }
}

impl Qm31 {
    spec fn scaled(self, k: int) -> Qm31 {
        Qm31 { s: self.s.scaled(k), t: self.t.scaled(k) }
    }

    spec fn quotient(self) -> Qm31 {
        Qm31 { s: self.s.quotient(), t: self.t.quotient() }
    }
}

proof fn lemma_complex_scaled_times(x: Cm31, y: Cm31, k: int)
    ensures
        x.scaled(k).raw_times(y) == x.raw_times(y).scaled(k),
{
    vstd::arithmetic::mul::lemma_mul_is_associative(k, x.re, y.re);
    vstd::arithmetic::mul::lemma_mul_is_associative(k, x.re, y.im);
    vstd::arithmetic::mul::lemma_mul_is_associative(k, x.im, y.re);
    vstd::arithmetic::mul::lemma_mul_is_associative(k, x.im, y.im);
    vstd::arithmetic::mul::lemma_mul_is_distributive_sub(k, x.re * y.re, x.im * y.im);
    vstd::arithmetic::mul::lemma_mul_is_distributive_add(k, x.re * y.im, x.im * y.re);
}

proof fn lemma_complex_scaled_plus(x: Cm31, y: Cm31, k: int)
    ensures
        x.scaled(k).raw_plus(y.scaled(k)) == x.raw_plus(y).scaled(k),
{
    vstd::arithmetic::mul::lemma_mul_is_distributive_add(k, x.re, y.re);
    vstd::arithmetic::mul::lemma_mul_is_distributive_add(k, x.im, y.im);
}

proof fn lemma_scaled_times(x: Qm31, y: Qm31, k: int)
    ensures
        x.scaled(k).raw_times(y) == x.raw_times(y).scaled(k),
{
    let r = Cm31::r();
    lemma_complex_scaled_times(x.s, y.s, k);
    lemma_complex_scaled_times(x.s, y.t, k);
    lemma_complex_scaled_times(x.t, y.s, k);
    lemma_complex_scaled_times(x.t, y.t, k);
    let tt = x.t.raw_times(y.t);
    lemma_complex_commutative(r, tt.scaled(k));
    lemma_complex_scaled_times(tt, r, k);
    lemma_complex_commutative(r, tt);
    lemma_complex_scaled_plus(x.s.raw_times(y.s), r.raw_times(tt), k);
    lemma_complex_scaled_plus(x.s.raw_times(y.t), x.t.raw_times(y.s), k);
}

/// Every element is its reduction plus a multiple of `P`.
proof fn lemma_split(x: Qm31)
    ensures
        x == x.reduce().raw_plus(x.quotient().scaled(P as int)),
{
    vstd::arithmetic::div_mod::lemma_fundamental_div_mod(x.s.re, P as int);
    vstd::arithmetic::div_mod::lemma_fundamental_div_mod(x.s.im, P as int);
    vstd::arithmetic::div_mod::lemma_fundamental_div_mod(x.t.re, P as int);
    vstd::arithmetic::div_mod::lemma_fundamental_div_mod(x.t.im, P as int);
}

/// A multiple of `P` vanishes under reduction.
proof fn lemma_vanish(x: Qm31, y: Qm31)
    ensures
        x.raw_plus(y.scaled(P as int)).reduce() == x.reduce(),
{
    vstd::arithmetic::div_mod::lemma_mod_multiples_vanish(y.s.re, x.s.re, P as int);
    vstd::arithmetic::div_mod::lemma_mod_multiples_vanish(y.s.im, x.s.im, P as int);
    vstd::arithmetic::div_mod::lemma_mod_multiples_vanish(y.t.re, x.t.re, P as int);
    vstd::arithmetic::div_mod::lemma_mod_multiples_vanish(y.t.im, x.t.im, P as int);
}

/// Reduction gives canonical coordinates, and leaves canonical coordinates alone.
pub proof fn lemma_reduce(x: Qm31)
    ensures
        x.reduce().reduced(),
        x.reduced() ==> x.reduce() == x,
{
}

proof fn lemma_reduce_left_times(x: Qm31, y: Qm31)
    ensures
        x.reduce().times(y) == x.times(y),
{
    reveal(Qm31::times);
    let q = x.quotient();
    lemma_split(x);
    lemma_raw_commutative(x, y);
    lemma_raw_distributive(y, x.reduce(), q.scaled(P as int));
    lemma_raw_commutative(y, x.reduce());
    lemma_raw_commutative(y, q.scaled(P as int));
    lemma_scaled_times(q, y, P as int);
    lemma_vanish(x.reduce().raw_times(y), q.raw_times(y));
}

proof fn lemma_reduce_left_plus(x: Qm31, y: Qm31)
    ensures
        x.reduce().plus(y) == x.plus(y),
{
    reveal(Qm31::plus);
    let q = x.quotient();
    lemma_split(x);
    lemma_vanish(x.reduce().raw_plus(y), q);
    assert(x.raw_plus(y) == x.reduce().raw_plus(y).raw_plus(q.scaled(P as int)));
}

// The field laws.

pub proof fn lemma_plus_commutative(x: Qm31, y: Qm31)
    ensures
        x.plus(y) == y.plus(x),
{
    reveal(Qm31::plus);
}

pub proof fn lemma_plus_associative(x: Qm31, y: Qm31, z: Qm31)
    ensures
        x.plus(y).plus(z) == x.plus(y.plus(z)),
{
    reveal(Qm31::plus);
    lemma_reduce_left_plus(x.raw_plus(y), z);
    lemma_reduce_left_plus(y.raw_plus(z), x);
    assert(x.raw_plus(y).raw_plus(z) == y.raw_plus(z).raw_plus(x));
    lemma_plus_commutative(x, y.plus(z));
}

pub proof fn lemma_times_commutative(x: Qm31, y: Qm31)
    ensures
        x.times(y) == y.times(x),
{
    reveal(Qm31::times);
    lemma_raw_commutative(x, y);
}

pub proof fn lemma_times_associative(x: Qm31, y: Qm31, z: Qm31)
    ensures
        x.times(y).times(z) == x.times(y.times(z)),
{
    reveal(Qm31::times);
    lemma_reduce_left_times(x.raw_times(y), z);
    lemma_reduce_left_times(y.raw_times(z), x);
    lemma_raw_commutative(y.raw_times(z), x);
    lemma_raw_commutative(y.times(z), x);
    lemma_raw_associative(x, y, z);
}

pub proof fn lemma_times_distributive(x: Qm31, y: Qm31, z: Qm31)
    ensures
        x.times(y.plus(z)) == x.times(y).plus(x.times(z)),
        y.plus(z).times(x) == y.times(x).plus(z.times(x)),
{
    reveal(Qm31::plus);
    reveal(Qm31::times);
    let sum = y.raw_plus(z);
    lemma_reduce_left_times(sum, x);
    lemma_raw_commutative(sum, x);
    lemma_raw_commutative(y.plus(z), x);
    lemma_raw_distributive(x, y, z);
    lemma_reduce_left_plus(x.raw_times(y), x.raw_times(z));
    lemma_plus_commutative(x.times(y), x.raw_times(z));
    lemma_reduce_left_plus(x.raw_times(z), x.times(y));
    lemma_plus_commutative(x.times(z), x.times(y));
    lemma_times_commutative(x, y);
    lemma_times_commutative(x, z);
    lemma_times_commutative(x, y.plus(z));
}

pub proof fn lemma_times_one(x: Qm31)
    requires
        x.reduced(),
    ensures
        x.times(Qm31::one()) == x,
        Qm31::one().times(x) == x,
{
    reveal(Qm31::times);
    lemma_raw_commutative(x, Qm31::one());
    assert(x.raw_times(Qm31::one()) == x) by {
        vstd::arithmetic::mul::lemma_mul_basics(x.s.re);
        vstd::arithmetic::mul::lemma_mul_basics(x.s.im);
        vstd::arithmetic::mul::lemma_mul_basics(x.t.re);
        vstd::arithmetic::mul::lemma_mul_basics(x.t.im);
    }
    lemma_reduce(x);
}

pub proof fn lemma_times_minus_one(x: Qm31)
    ensures
        x.times(Qm31::base(P - 1)) == x.negated(),
{
    reveal(Qm31::times);
    reveal(Qm31::negated);
    let m = Qm31::base(-1);
    lemma_reduce_left_times(m, x);
    assert(m.reduce() == Qm31::base(P - 1));
    lemma_raw_commutative(m, x);
    lemma_raw_commutative(Qm31::base(P - 1), x);
    assert(m.raw_times(x) == x.raw_negated());
}

pub proof fn lemma_plus_zero(x: Qm31)
    requires
        x.reduced(),
    ensures
        x.plus(Qm31::zero()) == x,
{
    reveal(Qm31::plus);
    lemma_reduce(x);
}


/// `(a + b) + (c + d) = (a + c) + (b + d)`.
pub proof fn lemma_exchange(a: Qm31, b: Qm31, c: Qm31, d: Qm31)
    ensures
        a.plus(b).plus(c.plus(d)) == a.plus(c).plus(b.plus(d)),
{
    lemma_plus_associative(a, b, c.plus(d));
    lemma_plus_associative(b, c, d);
    lemma_plus_commutative(b, c);
    lemma_plus_associative(c, b, d);
    lemma_plus_associative(a, c, b.plus(d));
}

pub proof fn lemma_zero_times(x: Qm31)
    ensures
        Qm31::zero().times(x) == Qm31::zero(),
{
    reveal(Qm31::times);
    assert(Qm31::zero().raw_times(x) == Qm31::zero());
}

/// The operations give canonical coordinates.
pub proof fn lemma_reduced(x: Qm31, y: Qm31)
    ensures
        x.plus(y).reduced(),
        x.times(y).reduced(),
        x.negated().reduced(),
{
    reveal(Qm31::plus);
    reveal(Qm31::times);
    reveal(Qm31::negated);
    lemma_reduce(x.raw_plus(y));
    lemma_reduce(x.raw_times(y));
    lemma_reduce(x.raw_negated());
}

pub proof fn lemma_plus_negated(x: Qm31)
    ensures
        x.plus(x.negated()) == Qm31::zero(),
{
    reveal(Qm31::plus);
    reveal(Qm31::negated);
}

/// Products of base field elements are products modulo `P`.
pub proof fn lemma_base_times(v: int, w: int)
    ensures
        Qm31::base(v).times(Qm31::base(w)) == Qm31::base((v * w) % (P as int)),
{
    reveal(Qm31::times);
    assert(Qm31::base(v).raw_times(Qm31::base(w)) == Qm31::base(v * w));
}

// Executable elements.

/// An element of the secure field, by its four base field coordinates.
#[derive(Clone, Copy, Debug, PartialEq, Eq, Structural)]
pub struct SecureField {
    pub a: u32,
    pub b: u32,
    pub c: u32,
    pub d: u32,
}

impl View for SecureField {
    type V = Qm31;

    open spec fn view(&self) -> Qm31 {
        Qm31::of(self.a as int, self.b as int, self.c as int, self.d as int)
    }
}

impl SecureField {
    /// The coordinates are canonical base field elements.
    pub open spec fn wf(self) -> bool {
        &&& self.a < P
        &&& self.b < P
        &&& self.c < P
        &&& self.d < P
    }

    /// The words are such that the conjugate of the element in the `u` direction and its difference
    /// from the element can be formed.
    pub open spec fn conjugable(self) -> bool {
        &&& self.a <= P + 1
        &&& self.b <= P + 1
        &&& self.c <= P
        &&& self.d <= P
    }

    /// Tells whether the conjugate and its difference from the element can be formed.
    pub fn is_conjugable(&self) -> (r: bool)
        ensures
            r == self.conjugable(),
    {
        self.a <= P + 1 && self.b <= P + 1 && self.c <= P && self.d <= P
    }

    /// Tells whether the coordinates are canonical.
    pub fn is_canonical(&self) -> (r: bool)
        ensures
            r == self.wf(),
    {
        self.a < P && self.b < P && self.c < P && self.d < P
    }
}

/// Two elements with the same coordinates are the same element.
pub proof fn lemma_view_injective(x: SecureField, y: SecureField)
    ensures
        x@ == y@ ==> x == y,
        x.wf() == x@.reduced(),
{
}

/// The element whose base field coordinates are the four given elements:
/// `e0 + e1*i + e2*u + e3*i*u`.
pub open spec fn from_coordinates(e0: Qm31, e1: Qm31, e2: Qm31, e3: Qm31) -> Qm31 {
    e0.plus(e1.times(Qm31::of(0, 1, 0, 0))).plus(e2.times(Qm31::of(0, 0, 1, 0))).plus(
        e3.times(Qm31::of(0, 0, 0, 1)),
    )
}

/// Adds two field elements.
pub fn sum(x: SecureField, y: SecureField) -> (r: SecureField)
    requires
        x.wf(),
        y.wf(),
    ensures
        r.wf(),
        r@ == x@.plus(y@),
{
    proof {
        reveal(Qm31::plus);
    }
    SecureField {
        a: add_coordinates(x.a, y.a),
        b: add_coordinates(x.b, y.b),
        c: add_coordinates(x.c, y.c),
        d: add_coordinates(x.d, y.d),
    }
}

/// Adds two base field elements.
fn add_coordinates(v: u32, w: u32) -> (r: u32)
    requires
        v < P,
        w < P,
    ensures
        r < P,
        r == (v + w) % (P as int),
{
    if v < P - w {
        v + w
    } else {
        v - (P - w)
    }
}

/// Multiplies with `<QM31 as Mul>::mul`, which works in the field with `u^2 = 2 + i` and returns
/// canonical coordinates for canonical factors.
#[verifier::external_body]
pub(crate) fn multiply(x: SecureField, y: SecureField) -> (r: SecureField)
    requires
        x.wf(),
        y.wf(),
    ensures
        r.wf(),
        r@ == x@.times(y@),
{
    let x = stwo::core::fields::qm31::QM31::from_u32_unchecked(x.a, x.b, x.c, x.d);
    let y = stwo::core::fields::qm31::QM31::from_u32_unchecked(y.a, y.b, y.c, y.d);
    let [a, b, c, d] = (x * y).to_m31_array();
    SecureField { a: a.0, b: b.0, c: c.0, d: d.0 }
}

/// A word after a canonical word is added to it: `P` is taken off once where the sum reaches it.
pub open spec fn added(w: int, c: int) -> int {
    if w + c >= P {
        w + c - P
    } else {
        w + c
    }
}

/// The words of `e0` after those of three canonical elements are added to it one by one.
pub open spec fn words_added(e0: SecureField, x: Qm31, y: Qm31, z: Qm31) -> SecureField {
    SecureField {
        a: added(added(added(e0.a as int, x.s.re), y.s.re), z.s.re) as u32,
        b: added(added(added(e0.b as int, x.s.im), y.s.im), z.s.im) as u32,
        c: added(added(added(e0.c as int, x.t.re), y.t.re), z.t.re) as u32,
        d: added(added(added(e0.d as int, x.t.im), y.t.im), z.t.im) as u32,
    }
}

/// The words of `e0 + e1*i + e2*u + e3*i*u`, where the words of `e0` need not be canonical and then
/// those of the sum need not be either.
pub open spec fn combined(
    e0: SecureField,
    e1: SecureField,
    e2: SecureField,
    e3: SecureField,
) -> SecureField {
    words_added(
        e0,
        e1@.times(Qm31::of(0, 1, 0, 0)),
        e2@.times(Qm31::of(0, 0, 1, 0)),
        e3@.times(Qm31::of(0, 0, 0, 1)),
    )
}

/// The words of `e0 + e1*i` fit into 32 bits before they are reduced.
pub open spec fn combinable(e0: SecureField, e1: SecureField) -> bool {
    let x = e1@.times(Qm31::of(0, 1, 0, 0));
    &&& e0.a + x.s.re <= u32::MAX
    &&& e0.b + x.s.im <= u32::MAX
    &&& e0.c + x.t.re <= u32::MAX
    &&& e0.d + x.t.im <= u32::MAX
}

/// Canonical elements are combined to the canonical element with these coordinates.
pub proof fn lemma_combined(e0: SecureField, e1: SecureField, e2: SecureField, e3: SecureField)
    requires
        e0.wf(),
    ensures
        combinable(e0, e1),
        combined(e0, e1, e2, e3).wf(),
        combined(e0, e1, e2, e3)@ == from_coordinates(e0@, e1@, e2@, e3@),
{
    let x = e1@.times(Qm31::of(0, 1, 0, 0));
    let y = e2@.times(Qm31::of(0, 0, 1, 0));
    let z = e3@.times(Qm31::of(0, 0, 0, 1));
    lemma_reduced(e1@, Qm31::of(0, 1, 0, 0));
    lemma_reduced(e2@, Qm31::of(0, 0, 1, 0));
    lemma_reduced(e3@, Qm31::of(0, 0, 0, 1));
    lemma_added_plus(e0@, x);
    lemma_added_plus(e0@.plus(x), y);
    lemma_added_plus(e0@.plus(x).plus(y), z);
}

/// Adding canonical words one by one is adding canonical elements.
proof fn lemma_added_plus(x: Qm31, y: Qm31)
    requires
        x.reduced(),
        y.reduced(),
    ensures
        x.plus(y).reduced(),
        x.plus(y) == Qm31::of(
            added(x.s.re, y.s.re),
            added(x.s.im, y.s.im),
            added(x.t.re, y.t.re),
            added(x.t.im, y.t.im),
        ),
{
    reveal(Qm31::plus);
}

/// Tests whether the words of `e0 + e1*i` fit into 32 bits before they are reduced.
pub fn is_combinable(e0: SecureField, e1: SecureField) -> (r: bool)
    ensures
        r == combinable(e0, e1),
{
    let reduced: SecureField = SecureField {
        a: e1.a % P,
        b: e1.b % P,
        c: e1.c % P,
        d: e1.d % P,
    };
    let x: SecureField = multiply(reduced, SecureField { a: 0, b: 1, c: 0, d: 0 });
    proof {
        assert(reduced@ == e1@.reduce());
        lemma_reduce_left_times(e1@, Qm31::of(0, 1, 0, 0));
    }
    e0.a <= u32::MAX - x.a && e0.b <= u32::MAX - x.b && e0.c <= u32::MAX - x.c && e0.d <= u32::MAX
        - x.d
}

/// Combines coordinate values with `QM31::from_partial_evals`, which adds the last three, each
/// times `i`, `u` or `i*u`, to the first. A product has canonical words whatever the words of its
/// factors are; a sum of words loses `P` once where it reaches it, and the call panics where the
/// first sum does not fit into 32 bits. The later sums fit whenever it does.
#[verifier::external_body]
pub(crate) fn from_partial_evals(evals: [SecureField; 4]) -> (r: SecureField)
    requires
        combinable(evals@[0], evals@[1]),
    ensures
        r == combined(evals@[0], evals@[1], evals@[2], evals@[3]),
{
    let evals = evals.map(
        |e| stwo::core::fields::qm31::QM31::from_u32_unchecked(e.a, e.b, e.c, e.d),
    );
    let combined = stwo::core::fields::qm31::QM31::from_partial_evals(evals);
    let [a, b, c, d] = combined.to_m31_array();
    SecureField { a: a.0, b: b.0, c: c.0, d: d.0 }
}

} // verus!
