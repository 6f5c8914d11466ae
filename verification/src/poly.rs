//! Polynomials on the circle, by their coefficients in the FFT basis.
//!
//! The basis is the tensor product of `y, x, pi(x), pi(pi(x)), ...` with `pi(x) = 2*x^2 - 1`:
//! coefficient `i` belongs to the product of those factors whose place carries a one in the
//! binary expansion of `i`.

use vstd::prelude::*;
use crate::circle::CirclePoint;
use crate::field::P;
use crate::field::Qm31;
use crate::field::SecureField;

verus! {

/// The factor of the basis at binary place `j`: `y`, then `x` and its doublings.
pub open spec fn twiddle(z: CirclePoint, j: nat) -> Qm31
    decreases j,
{
    if j == 0 {
        z.y@
    } else if j == 1 {
        z.x@
    } else {
        crate::circle::doubled_x(twiddle(z, (j - 1) as nat))
    }
}

/// The value at `z` of basis function `i`, where `i` has `k` binary places.
pub open spec fn basis(i: nat, k: nat, z: CirclePoint) -> Qm31
    decreases k,
{
    if k == 0 {
        Qm31::one()
    } else {
        let top = vstd::arithmetic::power2::pow2((k - 1) as nat);
        if i >= top {
            basis((i - top) as nat, (k - 1) as nat, z).times(twiddle(z, (k - 1) as nat))
        } else {
            basis(i, (k - 1) as nat, z)
        }
    }
}

/// The sum of the first `n` coefficients, each times its basis function at `z`.
pub open spec fn basis_sum(coeffs: Seq<u32>, n: nat, k: nat, z: CirclePoint) -> Qm31
    decreases n,
{
    if n == 0 {
        Qm31::zero()
    } else {
        let i = (n - 1) as nat;
        basis_sum(coeffs, i, k, z).plus(Qm31::base(coeffs[i as int] as int).times(basis(i, k, z)))
    }
}

/// The value at `z` of the polynomial with the given `2^k` coefficients.
pub open spec fn value_at(coeffs: Seq<u32>, k: nat, z: CirclePoint) -> Qm31 {
    basis_sum(coeffs, vstd::arithmetic::power2::pow2(k), k, z)
}

/// Halves the values repeatedly, weighing the upper half with the next factor.
pub open spec fn folded(values: Seq<u32>, factors: Seq<Qm31>) -> Qm31
    decreases factors.len(),
{
    if factors.len() == 0 {
        Qm31::base(values[0] as int)
    } else {
        let half = values.len() as int / 2;
        let rest = factors.drop_first();
        folded(values.take(half), rest).plus(folded(values.skip(half), rest).times(factors[0]))
    }
}

pub proof fn lemma_basis_reduced(i: nat, k: nat, z: CirclePoint)
    ensures
        basis(i, k, z).reduced(),
    decreases k,
{
    if k > 0 {
        let top = vstd::arithmetic::power2::pow2((k - 1) as nat);
        if i >= top {
            crate::field::lemma_reduced(
                basis((i - top) as nat, (k - 1) as nat, z),
                twiddle(z, (k - 1) as nat),
            );
        } else {
            lemma_basis_reduced(i, (k - 1) as nat, z);
        }
    }
}

pub proof fn lemma_sum_reduced(coeffs: Seq<u32>, n: nat, k: nat, z: CirclePoint)
    ensures
        basis_sum(coeffs, n, k, z).reduced(),
{
    if n > 0 {
        let i = (n - 1) as nat;
        crate::field::lemma_reduced(
            basis_sum(coeffs, i, k, z),
            Qm31::base(coeffs[i as int] as int).times(basis(i, k, z)),
        );
    }
}

/// Below the top place the sum only sees the lower half of the coefficients.
proof fn lemma_sum_lower(coeffs: Seq<u32>, n: nat, k: nat, z: CirclePoint)
    requires
        k > 0,
        n <= vstd::arithmetic::power2::pow2((k - 1) as nat) <= coeffs.len(),
    ensures
        basis_sum(coeffs, n, k, z) == basis_sum(
            coeffs.take(vstd::arithmetic::power2::pow2((k - 1) as nat) as int),
            n,
            (k - 1) as nat,
            z,
        ),
    decreases n,
{
    if n > 0 {
        lemma_sum_lower(coeffs, (n - 1) as nat, k, z);
    }
}

/// Above the top place every basis function gains the top factor.
proof fn lemma_sum_upper(coeffs: Seq<u32>, m: nat, k: nat, z: CirclePoint)
    requires
        k > 0,
        coeffs.len() == vstd::arithmetic::power2::pow2(k),
        m <= vstd::arithmetic::power2::pow2((k - 1) as nat),
    ensures
        ({
            let h = vstd::arithmetic::power2::pow2((k - 1) as nat);
            basis_sum(coeffs, h + m, k, z) == basis_sum(
                coeffs.take(h as int),
                h,
                (k - 1) as nat,
                z,
            ).plus(
                basis_sum(coeffs.skip(h as int), m, (k - 1) as nat, z).times(
                    twiddle(z, (k - 1) as nat),
                ),
            )
        }),
    decreases m,
{
    let h = vstd::arithmetic::power2::pow2((k - 1) as nat);
    let j = (k - 1) as nat;
    let t = twiddle(z, j);
    let lower = basis_sum(coeffs.take(h as int), h, j, z);
    let right = coeffs.skip(h as int);
    vstd::arithmetic::power2::lemma_pow2_unfold(k);
    if m == 0 {
        lemma_sum_lower(coeffs, h, k, z);
        crate::field::lemma_zero_times(t);
        lemma_sum_reduced(coeffs.take(h as int), h, j, z);
        crate::field::lemma_plus_zero(lower);
    } else {
        let i = (m - 1) as nat;
        lemma_sum_upper(coeffs, i, k, z);
        let sum = basis_sum(right, i, j, z);
        let c = Qm31::base(right[i as int] as int);
        let b = basis(i, j, z);
        assert(basis(h + i, k, z) == b.times(t));
        assert(coeffs[(h + i) as int] == right[i as int]);
        crate::field::lemma_times_associative(c, b, t);
        crate::field::lemma_plus_associative(lower, sum.times(t), c.times(b).times(t));
        crate::field::lemma_times_distributive(t, sum, c.times(b));
    }
}

/// Folding by the basis factors, the highest place first, evaluates the polynomial.
pub proof fn lemma_folding_evaluates(coeffs: Seq<u32>, factors: Seq<Qm31>, z: CirclePoint)
    requires
        coeffs.len() == vstd::arithmetic::power2::pow2(factors.len()),
        forall|i: int| 0 <= i < coeffs.len() ==> #[trigger] coeffs[i] < P,
        forall|j: int|
            0 <= j < factors.len() ==> #[trigger] factors[j] == twiddle(
                z,
                (factors.len() - 1 - j) as nat,
            ),
    ensures
        folded(coeffs, factors) == value_at(coeffs, factors.len(), z),
    decreases factors.len(),
{
    let k = factors.len();
    if k == 0 {
        vstd::arithmetic::power2::lemma2_to64();
        let c = Qm31::base(coeffs[0] as int);
        reveal_with_fuel(basis_sum, 2);
        crate::field::lemma_times_one(c);
        crate::field::lemma_plus_commutative(Qm31::zero(), c);
        crate::field::lemma_plus_zero(c);
    } else {
        vstd::arithmetic::power2::lemma_pow2_unfold(k);
        let h = vstd::arithmetic::power2::pow2((k - 1) as nat);
        let rest = factors.drop_first();
        assert(coeffs.len() as int / 2 == h);
        lemma_folding_evaluates(coeffs.take(h as int), rest, z);
        lemma_folding_evaluates(coeffs.skip(h as int), rest, z);
        lemma_sum_upper(coeffs, h, k, z);
        assert(factors[0] == twiddle(z, (k - 1) as nat));
    }
}

/// Folds with `poly::utils::fold`, which halves the values once per factor, adds the folded
/// lower half to the folded upper half times the factor, and panics unless the number of values
/// is two to the number of factors.
#[verifier::external_body]
fn fold(values: &Vec<u32>, factors: &Vec<SecureField>) -> (r: SecureField)
    requires
        values@.len() == vstd::arithmetic::power2::pow2(factors@.len()),
        forall|i: int| 0 <= i < values@.len() ==> #[trigger] values@[i] < P,
        forall|j: int| 0 <= j < factors@.len() ==> (#[trigger] factors@[j]).wf(),
    ensures
        r.wf(),
        r@ == folded(values@, factors@.map_values(|f: SecureField| f@)),
{
    let values: Vec<_> = values.iter().map(|v| stwo::core::fields::m31::M31(*v)).collect();
    let factors: Vec<_> = factors.iter().map(
        |f| stwo::core::fields::qm31::QM31::from_u32_unchecked(f.a, f.b, f.c, f.d),
    ).collect();
    let folded = stwo::core::poly::utils::fold(&values, &factors);
    let [a, b, c, d] = folded.to_m31_array();
    SecureField { a: a.0, b: b.0, c: c.0, d: d.0 }
}

/// A number strictly between two neighbouring powers of two is not a power of two.
proof fn lemma_between_powers(n: nat, j: nat, k: nat)
    requires
        vstd::arithmetic::power2::pow2(j) < n < vstd::arithmetic::power2::pow2(j + 1),
    ensures
        n != vstd::arithmetic::power2::pow2(k),
{
    if k < j {
        vstd::arithmetic::power2::lemma_pow2_strictly_increases(k, j);
    } else if k > j + 1 {
        vstd::arithmetic::power2::lemma_pow2_strictly_increases(j + 1, k);
    }
}

/// The logarithm of a power of two.
pub proof fn lemma_log_size(n: nat, k: nat)
    requires
        n == vstd::arithmetic::power2::pow2(k),
    ensures
        vstd::arithmetic::logarithm::log(2, n as int) == k,
{
    vstd::arithmetic::power2::lemma_pow2(k);
    vstd::arithmetic::logarithm::lemma_log_pow(2, k);
}

/// A polynomial on the circle with base field coefficients.
pub struct CirclePoly {
    coeffs: Vec<u32>,
    log_size: u32,
}

impl View for CirclePoly {
    type V = Seq<u32>;

    closed spec fn view(&self) -> Seq<u32> {
        self.coeffs@
    }
}

/// The sequence can be the coefficients of a circle polynomial: its length is a power of two and
/// its entries are canonical.
pub open spec fn are_coefficients(coeffs: Seq<u32>) -> bool {
    &&& exists|k: nat| coeffs.len() == #[trigger] vstd::arithmetic::power2::pow2(k)
    &&& forall|i: int| 0 <= i < coeffs.len() ==> #[trigger] coeffs[i] < P
}

impl CirclePoly {
    #[verifier::type_invariant]
    spec fn inv(self) -> bool {
        &&& self.coeffs@.len() == vstd::arithmetic::power2::pow2(self.log_size as nat)
        &&& forall|i: int| 0 <= i < self.coeffs@.len() ==> #[trigger] self.coeffs@[i] < P
    }

    /// The logarithm of the number of coefficients.
    pub open spec fn spec_log_size(self) -> nat {
        vstd::arithmetic::logarithm::log(2, self@.len() as int) as nat
    }

    /// The value of the polynomial at a point.
    pub open spec fn at(self, z: CirclePoint) -> Qm31 {
        value_at(self@, self.spec_log_size(), z)
    }

    /// Makes a polynomial of its coefficients, if their number is a power of two and all of them
    /// are canonical.
    pub fn new(coeffs: Vec<u32>) -> (r: Option<CirclePoly>)
        ensures
            r is Some <==> are_coefficients(coeffs@),
            r matches Some(p) ==> p@ == coeffs@ && coeffs@.len()
                == vstd::arithmetic::power2::pow2(p.spec_log_size()),
    {
        let n: usize = coeffs.len();
        let mut i: usize = 0;
        while i < n
            invariant
                n == coeffs@.len(),
                i <= n,
                forall|j: int| 0 <= j < i ==> #[trigger] coeffs@[j] < P,
            decreases n - i,
        {
            if coeffs[i] >= P {
                return None;
            }
            i += 1;
        }
        let mut size: usize = 1;
        let mut log_size: u32 = 0;
        proof {
            vstd::arithmetic::power2::lemma2_to64();
        }
        while size < n && size <= usize::MAX / 2
            invariant
                size == vstd::arithmetic::power2::pow2(log_size as nat),
                size >= 1,
                log_size > 0 ==> vstd::arithmetic::power2::pow2((log_size - 1) as nat) < n,
            decreases usize::MAX - size,
        {
            proof {
                vstd::arithmetic::power2::lemma_pow2_unfold((log_size + 1) as nat);
            }
            assert(log_size < 64) by {
                vstd::arithmetic::power2::lemma2_to64();
                if log_size > 64 {
                    vstd::arithmetic::power2::lemma_pow2_strictly_increases(64, log_size as nat);
                }
            }
            size *= 2;
            log_size += 1;
        }
        if size == n {
            proof {
                lemma_log_size(n as nat, log_size as nat);
            }
            Some(CirclePoly { coeffs, log_size })
        } else {
            proof {
                assert forall|k: nat| n != #[trigger] vstd::arithmetic::power2::pow2(k) by {
                    if size > n {
                        if n > 0 {
                            lemma_between_powers(n as nat, (log_size - 1) as nat, k);
                        } else {
                            vstd::arithmetic::power2::lemma_pow2_pos(k);
                        }
                    } else {
                        vstd::arithmetic::power2::lemma_pow2_unfold((log_size + 1) as nat);
                        lemma_between_powers(n as nat, log_size as nat, k);
                    }
                }
            }
            None
        }
    }

    /// The coefficients, in the order of the basis.
    pub fn coeffs(&self) -> (r: &Vec<u32>)
        ensures
            r@ == self@,
            are_coefficients(r@),
    {
        proof {
            use_type_invariant(self);
        }
        &self.coeffs
    }

    /// Evaluates the polynomial at a point.
    pub fn eval_at_point(&self, point: CirclePoint) -> (r: SecureField)
        requires
            point.wf(),
        ensures
            r.wf(),
            r@ == self.at(point),
    {
        proof {
            use_type_invariant(self);
        }
        let mut factors: Vec<SecureField> = Vec::new();
        if self.log_size > 0 {
            factors.push(point.y);
            let mut x: SecureField = point.x;
            let mut j: u32 = 1;
            while j < self.log_size
                invariant
                    1 <= j <= self.log_size,
                    factors@.len() == j,
                    x.wf(),
                    x@ == twiddle(point, j as nat),
                    forall|m: int|
                        0 <= m < j ==> (#[trigger] factors@[m]).wf() && factors@[m]@ == twiddle(
                            point,
                            (j - 1 - m) as nat,
                        ),
                decreases self.log_size - j,
            {
                factors.insert(0, x);
                x = crate::circle::double_x(x);
                j += 1;
            }
        }
        proof {
            let views = factors@.map_values(|f: SecureField| f@);
            assert forall|m: int| 0 <= m < views.len() implies #[trigger] views[m] == twiddle(
                point,
                (views.len() - 1 - m) as nat,
            ) by {
                assert(views[m] == factors@[m]@);
            }
            lemma_folding_evaluates(self.coeffs@, views, point);
            lemma_log_size(self.coeffs@.len(), self.log_size as nat);
        }
        fold(&self.coeffs, &factors)
    }
}

/// A polynomial with secure field values, by its four coordinate polynomials.
pub struct SecureCirclePoly(pub [CirclePoly; 4]);

/// The value of a polynomial is canonical.
pub proof fn lemma_value_reduced(poly: CirclePoly, z: CirclePoint)
    ensures
        poly.at(z).reduced(),
{
    let k = poly.spec_log_size();
    lemma_sum_reduced(poly@, vstd::arithmetic::power2::pow2(k), k, z);
}

impl SecureCirclePoly {
    /// The value of the polynomial at a point.
    pub open spec fn at(self, z: CirclePoint) -> Qm31 {
        crate::field::from_coordinates(
            self.0@[0].at(z),
            self.0@[1].at(z),
            self.0@[2].at(z),
            self.0@[3].at(z),
        )
    }

    /// Evaluates the four coordinate polynomials at a point.
    pub fn eval_columns_at_point(&self, point: CirclePoint) -> (r: [SecureField; 4])
        requires
            point.wf(),
        ensures
            forall|k: int|
                0 <= k < 4 ==> (#[trigger] r@[k]).wf() && r@[k]@ == self.0@[k].at(point),
    {
        [
            self.0[0].eval_at_point(point),
            self.0[1].eval_at_point(point),
            self.0[2].eval_at_point(point),
            self.0[3].eval_at_point(point),
        ]
    }

    /// Evaluates the polynomial at a point.
    pub fn eval_at_point(&self, point: CirclePoint) -> (r: SecureField)
        requires
            point.wf(),
        ensures
            r.wf(),
            r@ == self.at(point),
    {
        let evals: [SecureField; 4] = self.eval_columns_at_point(point);
        proof {
            assert(evals@[0].wf());
            crate::field::lemma_combined(evals@[0], evals@[1], evals@[2], evals@[3]);
            assert(evals@[1]@ == self.0@[1].at(point));
            assert(evals@[2]@ == self.0@[2].at(point));
            assert(evals@[3]@ == self.0@[3].at(point));
        }
        crate::field::from_partial_evals(evals)
    }
}

} // verus!
