use stwo_polynomial::air::assemble;
use stwo_polynomial::channel::draw_point;
use stwo_polynomial::circle::CirclePoint;
use stwo_polynomial::field::SecureField;
use stwo_polynomial::field::P;
use stwo_polynomial::oods::extract_composition_oods_eval;
use stwo_polynomial::oods::is_composition_row_present;
use stwo_polynomial::oods::flatten_values;
use stwo_polynomial::oods::have_same_columns;
use stwo_polynomial::oods::have_same_samples;
use stwo_polynomial::oods::is_row_combinable;
use stwo_polynomial::oods::sample_points;
use stwo_polynomial::oods::samples_are_proper;
use stwo_polynomial::oods::values_are_canonical;

type BlakeChannel = stwo::core::channel::Blake2sChannel;

fn base(v: u32) -> SecureField {
    SecureField { a: v, b: 0, c: 0, d: 0 }
}

fn inside(v: stwo::core::fields::qm31::QM31) -> SecureField {
    let [a, b, c, d] = v.to_m31_array();
    SecureField { a: a.0, b: b.0, c: c.0, d: d.0 }
}

#[test]
fn composition_columns_are_sampled_at_the_point() {
    let point = CirclePoint { x: base(2), y: base(1268011823) };
    let other = CirclePoint { x: base(1), y: base(0) };
    let points = sample_points(vec![vec![], vec![vec![other, point]]], point);
    assert_eq!(
        points,
        vec![
            vec![],
            vec![vec![other, point]],
            vec![vec![point], vec![point], vec![point], vec![point]],
        ]
    );
}

#[test]
fn last_row_gives_the_composition_value() {
    let row = vec![vec![base(1)], vec![base(2)], vec![base(3)], vec![base(4)]];
    let values = vec![vec![vec![base(9), base(8)]], row];
    assert!(is_composition_row_present(&values));
    assert_eq!(
        extract_composition_oods_eval(&values),
        Some(SecureField { a: 1, b: 2, c: 3, d: 4 })
    );
}

#[test]
fn coordinates_are_weighed_with_u() {
    // (0 + 0*i + u*u) with u * u = 2 + i
    let u = SecureField { a: 0, b: 0, c: 1, d: 0 };
    let values = vec![vec![vec![base(0)], vec![base(0)], vec![u], vec![base(0)]]];
    assert_eq!(
        extract_composition_oods_eval(&values),
        Some(SecureField { a: 2, b: 1, c: 0, d: 0 })
    );
}

#[test]
fn rows_of_another_shape_give_no_value() {
    let one = || vec![base(1)];
    assert_eq!(extract_composition_oods_eval(&vec![]), None);
    assert_eq!(extract_composition_oods_eval(&vec![vec![]]), None);
    assert_eq!(extract_composition_oods_eval(&vec![vec![one(), one(), one()]]), None);
    let five = vec![vec![one(), one(), one(), one(), one()]];
    assert_eq!(extract_composition_oods_eval(&five), None);
    let twice = vec![vec![one(), one(), one(), vec![base(1), base(1)]]];
    assert_eq!(extract_composition_oods_eval(&twice), None);
    let missing = vec![vec![one(), vec![], one(), one()]];
    assert!(!is_composition_row_present(&missing));
    assert_eq!(extract_composition_oods_eval(&missing), None);
    // Only the last tree counts.
    let first = vec![vec![one(), one(), one(), one()], vec![]];
    assert_eq!(extract_composition_oods_eval(&first), None);
}

#[test]
fn canonical_values_are_told_from_others() {
    assert!(values_are_canonical(&vec![vec![vec![base(P - 1)], vec![]], vec![]]));
    assert!(!values_are_canonical(&vec![vec![vec![base(1), base(P)]]]));
    assert!(!values_are_canonical(&vec![vec![], vec![vec![], vec![base(u32::MAX)]]]));
}

#[test]
fn proper_points_lie_on_the_circle_off_their_conjugate() {
    let mut channel = BlakeChannel::default();
    let drawn = draw_point(&mut channel).unwrap();
    let one = || vec![vec![vec![base(1)]]];
    assert!(samples_are_proper(&vec![vec![vec![drawn]]], &one()));
    let generator = CirclePoint { x: base(2), y: base(1268011823) };
    assert!(!samples_are_proper(&vec![vec![vec![generator]]], &one()));
    let off = CirclePoint { x: drawn.y, y: drawn.y };
    assert!(!samples_are_proper(&vec![vec![vec![off]]], &one()));
    let unreduced = CirclePoint { x: SecureField { a: P, ..drawn.x }, y: drawn.y };
    assert!(!samples_are_proper(&vec![vec![vec![unreduced]]], &one()));
    let with = |value| samples_are_proper(&vec![vec![vec![drawn]]], &vec![vec![vec![value]]]);
    assert!(with(base(P + 1)));
    assert!(!with(base(P + 2)));
    assert!(with(SecureField { a: 0, b: 0, c: P, d: P }));
    assert!(!with(SecureField { a: 0, b: 0, c: 0, d: P + 1 }));
    // A point without a value, and a value without a point, do not count.
    assert!(samples_are_proper(&vec![vec![vec![drawn, off]]], &one()));
    assert!(samples_are_proper(&vec![vec![vec![]]], &vec![vec![vec![base(u32::MAX)]]]));
}

#[test]
fn shapes_are_compared_by_columns_and_by_samples() {
    let points = vec![vec![], vec![vec![1u8, 2], vec![3]]];
    assert!(have_same_columns(&points, &vec![vec![], vec![vec![4u8], vec![]]]));
    assert!(!have_same_columns(&points, &vec![vec![], vec![vec![4u8]]]));
    assert!(!have_same_columns(&points, &vec![vec![vec![4u8], vec![]]]));
    assert!(have_same_samples(&points, &vec![vec![], vec![vec![4u8, 5], vec![6]]]));
    assert!(!have_same_samples(&points, &vec![vec![], vec![vec![4u8, 5], vec![]]]));
}

#[test]
fn values_are_flattened_tree_after_tree() {
    let values = vec![vec![vec![base(1), base(2)], vec![]], vec![], vec![vec![base(3)]]];
    assert_eq!(flatten_values(&values), vec![base(1), base(2), base(3)]);
}

/// The value that stwo combines the coordinates to.
fn combined(row: [SecureField; 4]) -> SecureField {
    type Outside = stwo::core::fields::qm31::QM31;
    let row = row.map(|v| Outside::from_u32_unchecked(v.a, v.b, v.c, v.d));
    inside(Outside::from_partial_evals(row))
}

#[test]
fn words_of_a_row_need_not_be_reduced() {
    let odd = SecureField { a: u32::MAX, b: P, c: P + 7, d: 3 };
    let rows = [
        [base(1), base(2), base(3), base(4)],
        [base(P), base(2), base(3), base(4)],
        [base(u32::MAX), base(2), base(3), base(4)],
        [base(1), odd, odd, odd],
        [base(P + 5), base(P), odd, base(u32::MAX)],
        [SecureField { a: 0, b: 0, c: P + 9, d: u32::MAX }, base(1), odd, odd],
    ];
    for row in rows {
        let values = vec![vec![vec![base(u32::MAX)]], row.map(|v| vec![v]).to_vec()];
        assert!(is_row_combinable(&values));
        assert_eq!(extract_composition_oods_eval(&values), Some(combined(row)));
    }
    assert_eq!(combined(rows[1]), SecureField { a: 0, b: 2, c: 3, d: 4 });
}

#[test]
fn a_row_whose_sum_runs_over_is_told() {
    // i * i = -1, and 2^32 - 1 + P - 1 does not fit into 32 bits.
    let i = SecureField { a: 0, b: 1, c: 0, d: 0 };
    let row = |first| vec![vec![vec![base(first)], vec![i], vec![base(0)], vec![base(0)]]];
    assert!(!is_row_combinable(&row(u32::MAX)));
    assert!(!is_row_combinable(&row(P + 3)));
    assert!(is_row_combinable(&row(P + 2)));
}

#[test]
fn masks_are_joined_tree_by_tree() {
    let point = CirclePoint { x: base(2), y: base(1268011823) };
    let at = |v: u32| CirclePoint { x: base(v), y: base(v) };
    let first = vec![vec![vec![at(9)]], vec![vec![at(1)], vec![at(2), at(3)]]];
    let second = vec![vec![], vec![vec![at(4)]], vec![vec![]]];
    let masks = vec![first, second];
    let indices = vec![vec![2], vec![0, 2]];
    assert_eq!(
        assemble(&masks, &indices, 3, point),
        Some(vec![
            vec![vec![point], vec![], vec![point]],
            vec![vec![at(1)], vec![at(2), at(3)], vec![at(4)]],
            vec![vec![]],
        ])
    );
    // A preprocessed column that is not there, or no tree at all.
    assert_eq!(assemble(&masks, &indices, 2, point), None);
    assert_eq!(assemble(&vec![], &vec![], 3, point), None);
    assert_eq!(assemble(&vec![vec![], vec![]], &vec![vec![], vec![]], 3, point), None);
}

#[test]
fn point_is_drawn_by_its_parameter() {
    let mut channel = BlakeChannel::default();
    stwo::core::channel::Channel::mix_u64(&mut channel, 17);
    let mut twin = channel.clone();
    let expected = stwo::core::circle::CirclePoint::get_random_point(&mut twin);
    let point = draw_point(&mut channel).unwrap();
    assert_eq!(point.x, inside(expected.x));
    assert_eq!(point.y, inside(expected.y));
    assert!(point.is_on_circle());
    // The channels go on alike.
    assert_eq!(channel.digest(), twin.digest());
    assert_eq!(draw_point(&mut channel), draw_point(&mut twin));
}

#[test]
fn a_new_channel_has_absorbed_nothing() {
    let channel = stwo_polynomial::channel::new_channel();
    assert_eq!(channel.digest().0, [0; 32]);
    assert_eq!(channel.channel_time.n_challenges, 0);
}

#[test]
fn another_channel_draws_another_point() {
    let mut channel = BlakeChannel::default();
    let first = draw_point(&mut channel).unwrap();
    let second = draw_point(&mut channel).unwrap();
    assert_ne!(first, second);
}
