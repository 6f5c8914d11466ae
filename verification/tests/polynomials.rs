use stwo_polynomial::circle::CirclePoint;
use stwo_polynomial::field::sum;
use stwo_polynomial::field::SecureField;
use stwo_polynomial::field::P;
use stwo_polynomial::poly::CirclePoly;
use stwo_polynomial::poly::SecureCirclePoly;

fn base(v: u32) -> SecureField {
    SecureField { a: v, b: 0, c: 0, d: 0 }
}

fn constant(v: u32) -> CirclePoly {
    CirclePoly::new(vec![v]).unwrap()
}

fn outside(v: SecureField) -> stwo::core::fields::qm31::QM31 {
    stwo::core::fields::qm31::QM31::from_u32_unchecked(v.a, v.b, v.c, v.d)
}

fn inside(v: stwo::core::fields::qm31::QM31) -> SecureField {
    let [a, b, c, d] = v.to_m31_array();
    SecureField { a: a.0, b: b.0, c: c.0, d: d.0 }
}

#[test]
fn constant_polynomial_takes_its_value() {
    let point = CirclePoint { x: base(5), y: base(8) };
    assert_eq!(constant(7).eval_at_point(point), base(7));
}

#[test]
fn four_coefficients_weigh_y_x_and_xy() {
    let poly = CirclePoly::new(vec![1, 3, 2, 4]).unwrap();
    let point = CirclePoint { x: base(5), y: base(8) };
    assert_eq!(poly.eval_at_point(point), base(1 + 3 * 8 + 2 * 5 + 4 * 5 * 8));
}

#[test]
fn fifth_coefficient_weighs_doubled_x() {
    let poly = CirclePoly::new(vec![0, 0, 0, 0, 1, 0, 0, 0]).unwrap();
    let point = CirclePoint { x: base(5), y: base(8) };
    assert_eq!(poly.eval_at_point(point), base(49));
    let poly = CirclePoly::new(vec![0, 0, 0, 0, 0, 0, 0, 1]).unwrap();
    assert_eq!(poly.eval_at_point(point), base(49 * 5 * 8));
}

#[test]
fn evaluation_agrees_with_arithmetic_in_the_extension() {
    let x = SecureField { a: 11, b: 22, c: 33, d: 44 };
    let y = SecureField { a: 5, b: P - 1, c: 7, d: 123456 };
    let poly = CirclePoly::new(vec![9, 8, 7, 6]).unwrap();
    let (ox, oy) = (outside(x), outside(y));
    let m = stwo::core::fields::m31::M31::from_u32_unchecked;
    let expected = ox * oy * m(6) + ox * m(7) + oy * m(8) + m(9);
    assert_eq!(poly.eval_at_point(CirclePoint { x, y }), inside(expected));
}

#[test]
fn coefficients_are_a_power_of_two_of_canonical_values() {
    assert!(CirclePoly::new(vec![]).is_none());
    assert!(CirclePoly::new(vec![1, 2, 3]).is_none());
    assert!(CirclePoly::new(vec![P]).is_none());
    assert!(CirclePoly::new(vec![0, P]).is_none());
    assert!(CirclePoly::new(vec![P - 1, 0]).is_some());
    assert_eq!(CirclePoly::new(vec![4, 3, 2, 1]).unwrap().coeffs(), &vec![4, 3, 2, 1]);
}

#[test]
fn secure_polynomial_combines_its_coordinates() {
    let poly = SecureCirclePoly([constant(1), constant(2), constant(3), constant(4)]);
    let point = CirclePoint { x: base(5), y: base(8) };
    assert_eq!(poly.eval_at_point(point), SecureField { a: 1, b: 2, c: 3, d: 4 });
    assert_eq!(poly.eval_columns_at_point(point), [base(1), base(2), base(3), base(4)]);
}

#[test]
fn secure_polynomial_multiplies_by_i_and_u() {
    let y = SecureField { a: 0, b: 1, c: 0, d: 0 };
    let point = CirclePoint { x: base(1), y };
    let linear = CirclePoly::new(vec![0, 1]).unwrap();
    // i * i = -1
    let poly = SecureCirclePoly([constant(0), linear, constant(0), constant(0)]);
    assert_eq!(poly.eval_at_point(point), base(P - 1));
    // u * u = 2 + i
    let linear = CirclePoly::new(vec![0, 1]).unwrap();
    let poly = SecureCirclePoly([constant(0), constant(0), linear, constant(0)]);
    let point = CirclePoint { x: base(1), y: SecureField { a: 0, b: 0, c: 1, d: 0 } };
    assert_eq!(poly.eval_at_point(point), SecureField { a: 2, b: 1, c: 0, d: 0 });
}

#[test]
fn sums_wrap_at_the_modulus() {
    let x = SecureField { a: P - 1, b: 1, c: 0, d: P - 1 };
    let y = SecureField { a: 1, b: 1, c: 0, d: P - 1 };
    assert_eq!(sum(x, y), SecureField { a: 0, b: 2, c: 0, d: P - 2 });
}

#[test]
fn canonical_elements_lie_below_the_modulus() {
    assert!(SecureField { a: P - 1, b: 0, c: 0, d: 0 }.is_canonical());
    assert!(!SecureField { a: 0, b: P, c: 0, d: 0 }.is_canonical());
    assert!(!SecureField { a: 0, b: 0, c: 0, d: u32::MAX }.is_canonical());
}

#[test]
fn generator_lies_on_the_circle() {
    let generator = CirclePoint { x: base(2), y: base(1268011823) };
    assert!(generator.is_on_circle());
    assert!(CirclePoint { x: base(1), y: base(0) }.is_on_circle());
    assert!(!CirclePoint { x: base(5), y: base(8) }.is_on_circle());
    assert!(!CirclePoint { x: base(2), y: base(1) }.is_on_circle());
}
