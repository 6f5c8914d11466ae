use std::collections::BTreeSet;

use stwo_polynomial::circle::CirclePoint;
use stwo_polynomial::error::ProvingError;
use stwo_polynomial::error::VerificationError;
use stwo_polynomial::field::SecureField;
use stwo_polynomial::field::P;
use stwo_polynomial::pcs::CommitmentSchemeVerifier;
use stwo_polynomial::pcs::PcsConfig;
use stwo_polynomial::poly::CirclePoly;
use stwo_polynomial::poly::SecureCirclePoly;
use stwo_polynomial::prove::check_constraints;
use stwo_polynomial::prove::prove;
use stwo_polynomial::prove::ProveAction;
use stwo_polynomial::prove::ProveEvent;
use stwo_polynomial::prove::ProveStage;
use stwo_polynomial::stark_proof::StarkProof;
use stwo_polynomial::verify::check_samples;
use stwo_polynomial::verify::is_ready;
use stwo_polynomial::verify::read_composition;
use stwo_polynomial::verify::verify;
use stwo_polynomial::verify::verify_with_queries;

/// Logarithm of the degree bound of all columns.
const LOG_DEGREE: u32 = 2;

/// Logarithm of the commitment domain of all columns.
const LOG_SIZE: u32 = 3;

/// The constant in the column of the trace.
const TRACE: u32 = 7;

type BlakeChannel = stwo::core::channel::Blake2sChannel;
type Parts<'a> = stwo::core::air::Components<'a>;
type Hash = stwo::core::vcs::blake2_hash::Blake2sHash;
type Hasher = stwo::core::vcs::blake2_merkle::Blake2sMerkleHasher;
type Decommitment = stwo::core::vcs::verifier::MerkleDecommitment<Hasher>;
type LayerProof = stwo::core::fri::FriLayerProof<Hasher>;
type Merkle = stwo::core::vcs::blake2_merkle::Blake2sMerkleChannel;
type LinePoly = stwo::core::poly::line::LinePoly;
type M31 = stwo::core::fields::m31::M31;
type QM31 = stwo::core::fields::qm31::QM31;
type OutsidePoint = stwo::core::circle::CirclePoint<QM31>;
type OutsideProof = stwo::core::pcs::quotients::CommitmentSchemeProof<Hasher>;
type TreeVec<T> = stwo::core::pcs::TreeVec<T>;

/// Draws a field element.
fn draw_felt(channel: &mut BlakeChannel) -> QM31 {
    stwo::core::channel::Channel::draw_secure_felt(channel)
}

/// Draws bytes, by which two channels are told apart.
fn draw_bytes(channel: &mut BlakeChannel) -> Vec<u8> {
    stwo::core::channel::Channel::draw_random_bytes(channel)
}

/// Absorbs field elements.
fn mix_felts(channel: &mut BlakeChannel, felts: &[QM31]) {
    stwo::core::channel::Channel::mix_felts(channel, felts)
}

/// Absorbs a root.
fn mix_root(channel: &mut BlakeChannel, root: Hash) {
    <Merkle as stwo::core::channel::MerkleChannel>::mix_root(channel, root)
}

/// The hash of a node of a tree.
fn hash_node(children: Option<(Hash, Hash)>, values: &[M31]) -> Hash {
    <Hasher as stwo::core::vcs::MerkleHasher>::hash_node(children, values)
}

fn hash(bytes: [u8; 32]) -> Hash {
    stwo::core::vcs::blake2_hash::Blake2sHash(bytes)
}

fn config() -> PcsConfig {
    PcsConfig { pow_bits: 0, log_blowup_factor: 1, log_last_layer_degree_bound: 0, n_queries: 3 }
}

fn base(v: u32) -> SecureField {
    SecureField { a: v, b: 0, c: 0, d: 0 }
}

fn inside(v: QM31) -> SecureField {
    let [a, b, c, d] = v.to_m31_array();
    SecureField { a: a.0, b: b.0, c: c.0, d: d.0 }
}

fn felt(v: u32) -> QM31 {
    QM31::from_u32_unchecked(v, 0, 0, 0)
}

/// The polynomial with the constant coordinates 1, 2, 3 and 4.
fn polynomial() -> SecureCirclePoly {
    SecureCirclePoly([1, 2, 3, 4].map(|v| CirclePoly::new(vec![v]).unwrap()))
}

/// A component with one column, sampled at the point, whose constraint has a fixed value where the
/// column has that of the trace.
struct Fixed {
    value: QM31,
    bound: u32,
    preprocessed: Vec<usize>,
}

impl stwo::core::air::Component for Fixed {
    fn n_constraints(&self) -> usize {
        1
    }

    fn max_constraint_log_degree_bound(&self) -> u32 {
        self.bound
    }

    fn trace_log_degree_bounds(&self) -> TreeVec<Vec<u32>> {
        TreeVec::new(vec![vec![], vec![LOG_DEGREE]])
    }

    fn mask_points(
        &self,
        point: OutsidePoint,
    ) -> TreeVec<Vec<Vec<OutsidePoint>>> {
        TreeVec::new(vec![vec![], vec![vec![point]]])
    }

    fn preproccessed_column_indices(&self) -> Vec<usize> {
        self.preprocessed.clone()
    }

    fn evaluate_constraint_quotients_at_point(
        &self,
        _point: OutsidePoint,
        mask: &TreeVec<Vec<Vec<QM31>>>,
        accumulator: &mut stwo::core::air::accumulation::PointEvaluationAccumulator,
    ) {
        accumulator.accumulate(self.value + mask[1][0][0] - felt(TRACE));
    }
}

fn component() -> Fixed {
    Fixed {
        value: QM31::from_u32_unchecked(1, 2, 3, 4),
        bound: LOG_DEGREE,
        preprocessed: vec![],
    }
}

fn components(component: &Fixed) -> Parts<'_> {
    Parts { components: vec![component], n_preprocessed_columns: 0 }
}

/// The hash of a node of each layer of a tree whose columns are constant, from the leaves up.
fn layer_hashes(values: &[u32], log_size: u32) -> Vec<Hash> {
    let values: Vec<M31> = values.iter().map(|v| M31::from_u32_unchecked(*v)).collect();
    let mut hashes = vec![hash_node(None, &values)];
    for layer in 0..log_size as usize {
        let child = hashes[layer];
        hashes.push(hash_node(Some((child, child)), &[]));
    }
    hashes
}

/// What opens such a tree at the given positions.
fn decommitment(
    hashes: &[Hash],
    positions: &BTreeSet<usize>,
) -> Decommitment {
    let mut hash_witness = vec![];
    let mut nodes = positions.clone();
    for hash in &hashes[..hashes.len() - 1] {
        let parents: BTreeSet<usize> = nodes.iter().map(|n| n / 2).collect();
        for _ in 0..2 * parents.len() - nodes.len() {
            hash_witness.push(*hash);
        }
        nodes = parents;
    }
    Decommitment { hash_witness, column_witness: vec![] }
}

/// A layer of FRI with zeros only, opened at the pairs of the queries.
fn zero_layer(log_size: u32, queries: &BTreeSet<usize>) -> LayerProof {
    let hashes = layer_hashes(&[0, 0, 0, 0], log_size);
    let pairs: BTreeSet<usize> =
        queries.iter().flat_map(|q| [q / 2 * 2, q / 2 * 2 + 1]).collect();
    LayerProof {
        fri_witness: vec![felt(0); pairs.len() - queries.len()],
        decommitment: decommitment(&hashes, &pairs),
        commitment: hashes[log_size as usize],
    }
}

/// The roots of the trees: no preprocessed column, one of the trace, four of the composition.
fn roots() -> [Hash; 3] {
    [
        hash([9; 32]),
        layer_hashes(&[TRACE], LOG_SIZE)[LOG_SIZE as usize],
        layer_hashes(&[1, 2, 3, 4], LOG_SIZE)[LOG_SIZE as usize],
    ]
}

/// A proof of columns that are constant, so that all quotients are zero.
fn constant_proof() -> OutsideProof {
    let sampled_values = TreeVec::new(vec![
        vec![],
        vec![vec![felt(TRACE)]],
        vec![vec![felt(1)], vec![felt(2)], vec![felt(3)], vec![felt(4)]],
    ]);
    let none = BTreeSet::from([0]);
    let (first_root, inner_root) = (zero_layer(3, &none).commitment, zero_layer(2, &none).commitment);
    let last_layer_poly = LinePoly::new(vec![felt(0)]);

    let mut channel = BlakeChannel::default();
    mix_root(&mut channel, roots()[0]);
    mix_root(&mut channel, roots()[1]);
    draw_felt(&mut channel);
    mix_root(&mut channel, roots()[2]);
    OutsidePoint::get_random_point(&mut channel);
    mix_felts(&mut channel, &sampled_values.clone().flatten_cols());
    draw_felt(&mut channel);
    mix_root(&mut channel, first_root);
    draw_felt(&mut channel);
    mix_root(&mut channel, inner_root);
    draw_felt(&mut channel);
    mix_felts(&mut channel, &last_layer_poly);
    stwo::core::channel::Channel::mix_u64(&mut channel, 0);
    let queries = stwo::core::queries::Queries::generate(&mut channel, LOG_SIZE, config().n_queries).positions;
    let queries: BTreeSet<usize> = queries.into_iter().collect();
    let folded: BTreeSet<usize> = queries.iter().map(|q| q / 2).collect();

    let repeat = |values: &[u32]| -> Vec<M31> {
        queries.iter().flat_map(|_| values.iter().map(|v| M31::from_u32_unchecked(*v))).collect()
    };
    OutsideProof {
        config: stwo::core::pcs::PcsConfig { pow_bits: 0, fri_config: stwo::core::fri::FriConfig::new(0, 1, 3) },
        commitments: TreeVec::new(roots().to_vec()),
        sampled_values,
        decommitments: TreeVec::new(vec![
            Decommitment::empty(),
            decommitment(&layer_hashes(&[TRACE], LOG_SIZE), &queries),
            decommitment(&layer_hashes(&[1, 2, 3, 4], LOG_SIZE), &queries),
        ]),
        queried_values: TreeVec::new(vec![vec![], repeat(&[TRACE]), repeat(&[1, 2, 3, 4])]),
        proof_of_work: 0,
        fri_proof: stwo::core::fri::FriProof {
            first_layer: zero_layer(LOG_SIZE, &queries),
            inner_layers: vec![zero_layer(LOG_SIZE - 1, &folded)],
            last_layer_poly,
        },
    }
}

fn text(proof: OutsideProof) -> String {
    serde_json::to_string(&stwo::core::proof::StarkProof(proof)).unwrap()
}

fn parsed(proof: OutsideProof) -> StarkProof {
    StarkProof::from_json(&text(proof)).unwrap()
}

/// A scheme and a channel after the trees before the composition polynomial were committed.
fn committed(config: PcsConfig) -> (CommitmentSchemeVerifier, BlakeChannel) {
    let mut channel = BlakeChannel::default();
    let mut scheme = CommitmentSchemeVerifier::new(config);
    scheme.commit(roots()[0].0, &vec![], &mut channel);
    scheme.commit(roots()[1].0, &vec![LOG_DEGREE], &mut channel);
    (scheme, channel)
}

fn verdict(proof: StarkProof, polynomial: SecureCirclePoly) -> Result<(), VerificationError> {
    let (mut scheme, mut channel) = committed(config());
    let component = component();
    verify_with_queries(&components(&component), &mut channel, &mut scheme, proof, polynomial)
}

#[test]
fn constant_columns_are_accepted() {
    assert!(matches!(verdict(parsed(constant_proof()), polynomial()), Ok(())));
}

#[test]
fn acceptance_commits_the_composition_tree() {
    let (mut scheme, mut channel) = committed(config());
    let component = component();
    let proof = parsed(constant_proof());
    assert_eq!(scheme.column_log_sizes(), vec![vec![], vec![3]]);
    let r = verify(&components(&component), &mut channel, &mut scheme, proof, polynomial());
    assert!(matches!(r, Ok(())));
    assert_eq!(scheme.column_log_sizes(), vec![vec![], vec![3], vec![3, 3, 3, 3]]);
    assert_eq!(scheme.config(), config());
}

#[test]
fn acceptance_leaves_the_channel_of_the_opening() {
    let (mut scheme, mut channel) = committed(config());
    let mut twin = channel.clone();
    let component = component();
    let proof = parsed(constant_proof());
    let r = verify(&components(&component), &mut channel, &mut scheme, proof, polynomial());
    assert!(matches!(r, Ok(())));
    draw_felt(&mut twin);
    mix_root(&mut twin, roots()[2]);
    OutsidePoint::get_random_point(&mut twin);
    assert_ne!(channel.digest(), twin.digest());
}

#[test]
fn another_polynomial_is_refused() {
    for k in 0..4 {
        let mut values = [1, 2, 3, 4];
        values[k] = 5;
        let other = SecureCirclePoly(values.map(|v| CirclePoly::new(vec![v]).unwrap()));
        let r = verdict(parsed(constant_proof()), other);
        assert!(matches!(r, Err(VerificationError::OodsNotMatching)));
    }
}

#[test]
fn a_polynomial_of_higher_degree_is_refused() {
    let other = SecureCirclePoly([vec![1, 1], vec![2], vec![3], vec![4]]
        .map(|coeffs| CirclePoly::new(coeffs).unwrap()));
    let r = verdict(parsed(constant_proof()), other);
    assert!(matches!(r, Err(VerificationError::OodsNotMatching)));
}

#[test]
fn a_padded_polynomial_is_the_same_polynomial() {
    let padded = SecureCirclePoly([vec![1, 0, 0, 0], vec![2, 0], vec![3], vec![4, 0]]
        .map(|coeffs| CirclePoly::new(coeffs).unwrap()));
    assert!(matches!(verdict(parsed(constant_proof()), padded), Ok(())));
}

#[test]
fn other_samples_are_refused() {
    let mut proof = constant_proof();
    proof.sampled_values[2][1][0] = felt(9);
    assert!(matches!(
        verdict(parsed(proof), polynomial()),
        Err(VerificationError::OodsNotMatching)
    ));
}

#[test]
fn samples_without_composition_row_are_refused() {
    let expect = |proof: OutsideProof| match verdict(parsed(proof), polynomial()) {
        Err(VerificationError::InvalidStructure(reason)) => {
            assert_eq!(reason, "Unexpected sampled_values structure")
        }
        other => panic!("{:?}", other),
    };
    let mut proof = constant_proof();
    proof.sampled_values[2].pop();
    expect(proof);
    let mut proof = constant_proof();
    proof.sampled_values[2][0].push(felt(1));
    expect(proof);
    let mut proof = constant_proof();
    proof.sampled_values[2][3].clear();
    expect(proof);
    let mut proof = constant_proof();
    proof.sampled_values.0.clear();
    expect(proof);
}

#[test]
fn other_queried_values_are_refused() {
    let mut proof = constant_proof();
    proof.queried_values[1][0] = M31::from_u32_unchecked(TRACE + 1);
    assert!(matches!(
        verdict(parsed(proof), polynomial()),
        Err(VerificationError::Merkle(
            stwo::core::vcs::verifier::MerkleVerificationError::RootMismatch
        ))
    ));
}

#[test]
fn another_number_of_layers_is_refused() {
    let mut proof = constant_proof();
    proof.fri_proof.inner_layers.clear();
    assert!(matches!(
        verdict(parsed(proof), polynomial()),
        Err(VerificationError::Fri(
            stwo::core::fri::FriVerificationError::InvalidNumFriLayers
        ))
    ));
}

#[test]
fn a_small_proof_of_work_is_refused() {
    let (mut scheme, mut channel) = committed(PcsConfig { pow_bits: 120, ..config() });
    let component = component();
    let proof = parsed(constant_proof());
    let r = verify(&components(&component), &mut channel, &mut scheme, proof, polynomial());
    assert!(matches!(r, Err(VerificationError::ProofOfWork)));
}

#[test]
fn nothing_is_checked_without_components() {
    let (mut scheme, mut channel) = committed(config());
    let twin = channel.clone();
    let none = Parts { components: vec![], n_preprocessed_columns: 0 };
    let r = verify(&none, &mut channel, &mut scheme, parsed(constant_proof()), polynomial());
    assert!(matches!(r, Err(VerificationError::NotCheckable)));
    assert_eq!(channel.digest(), twin.digest());
    assert_eq!(scheme.column_log_sizes().len(), 2);
}

#[test]
fn nothing_is_checked_without_trees_or_commitments() {
    let component = component();
    let mut channel = BlakeChannel::default();
    let mut scheme = CommitmentSchemeVerifier::new(config());
    let proof = parsed(constant_proof());
    let r = verify(&components(&component), &mut channel, &mut scheme, proof, polynomial());
    assert!(matches!(r, Err(VerificationError::NotCheckable)));
    let (mut scheme, mut channel) = committed(config());
    let mut proof = constant_proof();
    proof.commitments.0.clear();
    let proof = parsed(proof);
    let r = verify(&components(&component), &mut channel, &mut scheme, proof, polynomial());
    assert!(matches!(r, Err(VerificationError::NotCheckable)));
}

#[test]
fn readiness_is_told() {
    let component = component();
    let parts = components(&component);
    let (scheme, _) = committed(config());
    assert!(is_ready(&parts, &scheme, &parsed(constant_proof())));
    let none = Parts { components: vec![], n_preprocessed_columns: 0 };
    assert!(!is_ready(&none, &scheme, &parsed(constant_proof())));
    let empty = CommitmentSchemeVerifier::new(config());
    assert!(!is_ready(&parts, &empty, &parsed(constant_proof())));
    let mut proof = constant_proof();
    proof.commitments.0.clear();
    assert!(!is_ready(&parts, &scheme, &parsed(proof)));
}

#[test]
fn a_bound_out_of_range_is_not_checked() {
    let (mut scheme, mut channel) = committed(config());
    let component = Fixed { bound: u32::MAX, ..component() };
    let proof = parsed(constant_proof());
    let r = verify(&components(&component), &mut channel, &mut scheme, proof, polynomial());
    assert!(matches!(r, Err(VerificationError::NotCheckable)));
    assert_eq!(scheme.column_log_sizes().len(), 2);
}

#[test]
fn columns_of_other_sizes_are_refused() {
    let check = |bound: u32| {
        let (mut scheme, mut channel) = committed(config());
        let component = Fixed { bound, ..component() };
        let proof = parsed(constant_proof());
        let r = verify(&components(&component), &mut channel, &mut scheme, proof, polynomial());
        assert_eq!(scheme.column_log_sizes()[2], vec![bound + 1; 4]);
        r
    };
    // The composition tree is then shorter than its root is high.
    assert!(matches!(check(0), Err(VerificationError::Merkle(_))));
    assert!(matches!(check(1), Err(VerificationError::Merkle(_))));
    assert!(matches!(check(30), Err(VerificationError::NotCheckable)));
    assert!(matches!(check(3), Err(VerificationError::Fri(_))));
}

#[test]
fn no_queries_are_not_checked() {
    let (mut scheme, mut channel) = committed(PcsConfig { n_queries: 0, ..config() });
    let component = component();
    let proof = parsed(constant_proof());
    let r = verify(&components(&component), &mut channel, &mut scheme, proof, polynomial());
    assert!(matches!(r, Err(VerificationError::NotCheckable)));
}

#[test]
fn a_missing_tree_is_not_checked() {
    let mut proof = constant_proof();
    proof.decommitments.0.pop();
    let r = verdict(parsed(proof), polynomial());
    assert!(matches!(r, Err(VerificationError::NotCheckable)));
    let mut proof = constant_proof();
    proof.queried_values.0.pop();
    let r = verdict(parsed(proof), polynomial());
    assert!(matches!(r, Err(VerificationError::NotCheckable)));
}

#[test]
fn samples_of_another_shape_are_not_checked() {
    let mut proof = constant_proof();
    proof.sampled_values[1].push(vec![]);
    let r = verdict(parsed(proof), polynomial());
    assert!(matches!(r, Err(VerificationError::NotCheckable)));
    let mut proof = constant_proof();
    proof.sampled_values.0.insert(0, vec![]);
    let r = verdict(parsed(proof), polynomial());
    assert!(matches!(r, Err(VerificationError::NotCheckable)));
}

#[test]
fn what_is_found_before_the_samples_is_found_whatever_their_shape() {
    let misfit = || {
        let mut proof = constant_proof();
        proof.sampled_values[1].push(vec![]);
        proof
    };
    // The number of layers.
    let mut proof = misfit();
    proof.fri_proof.inner_layers.clear();
    let r = verdict(parsed(proof), polynomial());
    assert!(matches!(
        r,
        Err(VerificationError::Fri(stwo::core::fri::FriVerificationError::InvalidNumFriLayers))
    ));
    // The proof of work.
    let (mut scheme, mut channel) = committed(PcsConfig { pow_bits: 120, ..config() });
    let component = component();
    let parts = components(&component);
    let r = verify(&parts, &mut channel, &mut scheme, parsed(misfit()), polynomial());
    assert!(matches!(r, Err(VerificationError::ProofOfWork)));
    // The openings of the trees, if each tree has one.
    let mut proof = misfit();
    proof.queried_values[1][0] = M31::from_u32_unchecked(TRACE + 1);
    let r = verdict(parsed(proof), polynomial());
    assert!(matches!(
        r,
        Err(VerificationError::Merkle(
            stwo::core::vcs::verifier::MerkleVerificationError::RootMismatch
        ))
    ));
    let mut proof = misfit();
    proof.queried_values[1][0] = M31::from_u32_unchecked(TRACE + 1);
    proof.decommitments.0.push(Decommitment::empty());
    let r = verdict(parsed(proof), polynomial());
    assert!(matches!(r, Err(VerificationError::NotCheckable)));
}

/// The verdict here and in stwo on a proof opened at points that do not fit, with a digest of the
/// channel that is left.
fn misfit_verdicts(
    pow_bits: u32,
    proof: OutsideProof,
) -> (
    (Result<(), VerificationError>, Hash, usize),
    (Result<(), stwo::core::verifier::VerificationError>, Hash, usize),
) {
    let fri_config = stwo::core::fri::FriConfig::new(0, 1, 3);
    let outside_config = stwo::core::pcs::PcsConfig { pow_bits, fri_config };
    let (mut scheme, mut channel) = committed(PcsConfig { pow_bits, ..config() });
    let mut twin = BlakeChannel::default();
    let mut outside = stwo::core::pcs::CommitmentSchemeVerifier::<Merkle>::new(outside_config);
    outside.commit(roots()[0], &[], &mut twin);
    outside.commit(roots()[1], &[LOG_DEGREE], &mut twin);
    let root = roots()[2].0;
    let point = read_composition(&mut scheme, root, LOG_DEGREE, &mut channel).unwrap();
    draw_felt(&mut twin);
    outside.commit(roots()[2], &[LOG_DEGREE; 4], &mut twin);
    OutsidePoint::get_random_point(&mut twin);
    let mask = vec![vec![], vec![vec![point], vec![point]]];
    let copy = parsed(proof.clone());
    let r = check_samples(&scheme, mask, point, copy, &polynomial(), &mut channel);
    let s = outside.verify_values(TreeVec::new(vec![]), proof, &mut twin);
    (
        (r, channel.digest(), channel.channel_time.n_challenges),
        (s, twin.digest(), twin.channel_time.n_challenges),
    )
}

#[test]
fn a_misfit_is_told_like_stwo_tells_it() {
    type Outside = stwo::core::verifier::VerificationError;
    // Until it panics on the shapes, stwo finds what is found here, and leaves the same channel.
    let (here, there) = misfit_verdicts(120, constant_proof());
    assert!(matches!(here.0, Err(VerificationError::ProofOfWork)));
    assert!(matches!(there.0, Err(Outside::ProofOfWork)));
    assert_eq!((here.1, here.2), (there.1, there.2));

    let mut proof = constant_proof();
    proof.fri_proof.inner_layers.clear();
    let (here, there) = misfit_verdicts(0, proof);
    assert!(matches!(here.0, Err(VerificationError::Fri(_))));
    assert!(matches!(there.0, Err(Outside::Fri(_))));
    assert_eq!((here.1, here.2), (there.1, there.2));

    let mut proof = constant_proof();
    proof.queried_values[1][0] = M31::from_u32_unchecked(TRACE + 1);
    let (here, there) = misfit_verdicts(0, proof);
    match (here.0, there.0) {
        (Err(VerificationError::Merkle(here)), Err(Outside::Merkle(there))) => {
            assert_eq!(here, there)
        }
        _ => panic!("the trees opened"),
    }
    assert_eq!((here.1, here.2), (there.1, there.2));

    let mut proof = constant_proof();
    proof.decommitments[2].hash_witness.push(roots()[0]);
    proof.queried_values[1].push(M31::from_u32_unchecked(0));
    let (here, there) = misfit_verdicts(0, proof);
    match (here.0, there.0) {
        (Err(VerificationError::Merkle(here)), Err(Outside::Merkle(there))) => {
            assert_eq!(here, there)
        }
        _ => panic!("the trees opened"),
    }
}

#[test]
fn absorbing_is_counted() {
    let (mut scheme, mut channel) = committed(config());
    assert_eq!(channel.channel_time.n_challenges, 2);
    let component = component();
    let proof = parsed(constant_proof());
    let r = verify(&components(&component), &mut channel, &mut scheme, proof, polynomial());
    assert!(matches!(r, Ok(())));
    // The root, the values, three layers and the nonce.
    assert_eq!(channel.channel_time.n_challenges, 8);
}

#[test]
fn the_last_layer_is_looked_at_only_after_the_right_number_of_layers() {
    let mut proof = constant_proof();
    proof.fri_proof.inner_layers.clear();
    let broken = text(proof).replace("\"log_size\":0", "\"log_size\":1");
    let r = verdict(StarkProof::from_json(&broken).unwrap(), polynomial());
    assert!(matches!(
        r,
        Err(VerificationError::Fri(stwo::core::fri::FriVerificationError::InvalidNumFriLayers))
    ));
}

#[test]
fn samples_may_be_grouped_into_other_trees() {
    let (mut scheme, mut channel) = committed(config());
    let root = roots()[2].0;
    let point = read_composition(&mut scheme, root, LOG_DEGREE, &mut channel).unwrap();
    let mut proof = constant_proof();
    proof.sampled_values.0.insert(1, vec![]);
    let mask = vec![vec![], vec![], vec![vec![point]]];
    let r = check_samples(&scheme, mask, point, parsed(proof), &polynomial(), &mut channel);
    assert!(matches!(r, Ok(())));
}

#[test]
fn words_of_fri_that_cannot_be_added_are_not_checked() {
    let with = |word: u32| {
        let mut proof = constant_proof();
        proof.fri_proof.first_layer.fri_witness.push(felt(word));
        verdict(parsed(proof), polynomial())
    };
    // One witness too many.
    assert!(matches!(with(P), Err(VerificationError::Fri(_))));
    assert!(matches!(with(P + 1), Err(VerificationError::NotCheckable)));
    let mut proof = constant_proof();
    proof.fri_proof.inner_layers[0].fri_witness.push(felt(P + 1));
    let r = verdict(parsed(proof), polynomial());
    assert!(matches!(r, Err(VerificationError::NotCheckable)));
}

#[test]
fn an_unreduced_row_is_compared_as_it_is() {
    let mut proof = constant_proof();
    proof.sampled_values[2][0][0] = felt(P);
    let r = verdict(parsed(proof), polynomial());
    assert!(matches!(r, Err(VerificationError::OodsNotMatching)));
    // P + 1 is 1 once it is added to, and so matches; opening has the last word.
    let mut proof = constant_proof();
    proof.sampled_values[2][0][0] = felt(P + 1);
    let r = verdict(parsed(proof), polynomial());
    let refused = |e| {
        matches!(e, VerificationError::OodsNotMatching | VerificationError::NotCheckable)
    };
    assert!(!r.is_err_and(refused));
    // A sum of words that runs over.
    let mut proof = constant_proof();
    proof.sampled_values[2][0][0] = felt(u32::MAX);
    proof.sampled_values[2][1][0] = QM31::from_u32_unchecked(0, 1, 0, 0);
    let r = verdict(parsed(proof), polynomial());
    assert!(matches!(r, Err(VerificationError::NotCheckable)));
}

#[test]
fn unreduced_elements_that_are_only_hashed_are_refused_as_others() {
    let merkle = |proof: OutsideProof| {
        matches!(verdict(parsed(proof), polynomial()), Err(VerificationError::Merkle(_)))
    };
    let unreduced = M31::from_u32_unchecked(u32::MAX);
    let mut proof = constant_proof();
    proof.queried_values[1][0] = unreduced;
    assert!(merkle(proof));
    let mut proof = constant_proof();
    proof.decommitments[1].column_witness.push(unreduced);
    assert!(merkle(proof));
    let mut proof = constant_proof();
    proof.fri_proof.inner_layers[0].decommitment.column_witness.push(unreduced);
    assert!(matches!(verdict(parsed(proof), polynomial()), Err(VerificationError::Fri(_))));
}

#[test]
fn another_row_is_refused_whatever_the_other_samples_are() {
    let mut proof = constant_proof();
    proof.sampled_values[1][0][0] = felt(u32::MAX);
    proof.sampled_values[2][1][0] = felt(9);
    assert!(matches!(
        verdict(parsed(proof), polynomial()),
        Err(VerificationError::OodsNotMatching)
    ));
}

#[test]
fn columns_below_the_last_layer_have_no_right_number_of_layers() {
    let (mut scheme, mut channel) =
        committed(PcsConfig { log_last_layer_degree_bound: 5, ..config() });
    let component = component();
    let proof = parsed(constant_proof());
    let r = verify(&components(&component), &mut channel, &mut scheme, proof, polynomial());
    assert!(matches!(
        r,
        Err(VerificationError::Fri(stwo::core::fri::FriVerificationError::InvalidNumFriLayers))
    ));
}

#[test]
fn a_preprocessed_column_that_is_missing_is_not_checked() {
    let (mut scheme, mut channel) = committed(config());
    let component = Fixed { preprocessed: vec![0], ..component() };
    let proof = parsed(constant_proof());
    let r = verify(&components(&component), &mut channel, &mut scheme, proof, polynomial());
    assert!(matches!(r, Err(VerificationError::NotCheckable)));
    assert_eq!(scheme.column_log_sizes().len(), 3);
}

#[test]
fn a_last_layer_of_another_size_is_not_checked() {
    let whole = text(constant_proof());
    let broken = whole.replace("\"log_size\":0", "\"log_size\":1");
    assert_ne!(whole, broken);
    let r = verdict(StarkProof::from_json(&broken).unwrap(), polynomial());
    assert!(matches!(r, Err(VerificationError::NotCheckable)));
}

#[test]
fn a_text_that_is_no_proof_is_not_read() {
    assert!(StarkProof::from_json("").is_none());
    assert!(StarkProof::from_json("{}").is_none());
    let whole = text(constant_proof());
    assert!(StarkProof::from_json(&whole[1..]).is_none());
}

#[test]
fn a_proof_is_read_as_it_was_written() {
    let proof = parsed(constant_proof());
    assert_eq!(proof.commitments(), roots().map(|root| root.0).to_vec());
    assert_eq!(
        proof.sampled_values(),
        vec![
            vec![],
            vec![vec![base(TRACE)]],
            vec![vec![base(1)], vec![base(2)], vec![base(3)], vec![base(4)]],
        ]
    );
}

#[test]
fn commitment_is_absorbed_and_extended() {
    let mut channel = BlakeChannel::default();
    let mut twin = channel.clone();
    let mut scheme =
        CommitmentSchemeVerifier::new(PcsConfig { log_blowup_factor: 4, ..config() });
    scheme.commit([3; 32], &vec![5, 1], &mut channel);
    mix_root(&mut twin, hash([3; 32]));
    assert_eq!(channel.digest(), twin.digest());
    assert_eq!(scheme.column_log_sizes(), vec![vec![9, 5]]);
}

#[test]
fn composition_is_read_between_coefficient_and_point() {
    let (mut scheme, mut channel) = committed(config());
    let mut twin = channel.clone();
    let point = read_composition(&mut scheme, [5; 32], 4, &mut channel).unwrap();
    draw_felt(&mut twin);
    mix_root(&mut twin, hash([5; 32]));
    let expected = OutsidePoint::get_random_point(&mut twin);
    assert_eq!(point, CirclePoint { x: inside(expected.x), y: inside(expected.y) });
    assert_eq!(scheme.column_log_sizes()[2], vec![5, 5, 5, 5]);
    assert_eq!(draw_bytes(&mut channel), draw_bytes(&mut twin));
    // A bound that cannot be extended changes nothing.
    let digest = channel.digest();
    assert!(read_composition(&mut scheme, [5; 32], u32::MAX, &mut channel).is_none());
    assert_eq!(channel.digest(), digest);
    assert_eq!(scheme.column_log_sizes().len(), 3);
}

#[test]
fn samples_are_checked_at_the_given_mask() {
    let (mut scheme, mut channel) = committed(config());
    let root = roots()[2].0;
    let point = read_composition(&mut scheme, root, LOG_DEGREE, &mut channel).unwrap();
    let mut twin = channel.clone();
    let proof = parsed(constant_proof());
    let mask = vec![vec![], vec![vec![point]]];
    let r = check_samples(&scheme, mask, point, proof, &polynomial(), &mut twin);
    assert!(matches!(r, Ok(())));
    // A mask of another shape cannot be opened.
    let mut twin = channel.clone();
    let proof = parsed(constant_proof());
    let mask = vec![vec![], vec![vec![point], vec![point]]];
    let r = check_samples(&scheme, mask, point, proof, &polynomial(), &mut twin);
    assert!(matches!(r, Err(VerificationError::NotCheckable)));
    // Nor can a column be opened at a point of the base field.
    let mut twin = channel.clone();
    let proof = parsed(constant_proof());
    let generator = CirclePoint { x: base(2), y: base(1268011823) };
    let mask = vec![vec![], vec![vec![generator]]];
    let r = check_samples(&scheme, mask, point, proof, &polynomial(), &mut twin);
    assert!(matches!(r, Err(VerificationError::NotCheckable)));
}

#[test]
fn openable_arguments_are_told_from_others() {
    let (mut scheme, mut channel) = committed(config());
    let root = roots()[2].0;
    let point = read_composition(&mut scheme, root, LOG_DEGREE, &mut channel).unwrap();
    let points = stwo_polynomial::oods::sample_points(vec![vec![], vec![vec![point]]], point);
    let proof = parsed(constant_proof());
    assert!(scheme.is_committable(&proof));
    assert!(scheme.is_openable(&points, &proof));
    assert!(!scheme.is_openable(&vec![], &proof));
    assert!(matches!(scheme.verify_values(points, proof, &mut channel), Ok(())));
}

/// Runs the two steps of proving that lead to the opening, and hands out the points.
fn until_opening(
    components: &Parts<'_>,
    channel: &mut BlakeChannel,
    n_preprocessed_columns: usize,
) -> (ProveStage, Vec<Vec<Vec<CirclePoint>>>) {
    let begin = ProveEvent::Begin { n_preprocessed_columns };
    let (stage, action) = prove(components, channel, ProveStage::Start, begin);
    assert!(matches!(action, ProveAction::CommitComposition { .. }));
    mix_root(channel, roots()[2]);
    let committed = ProveEvent::CompositionCommitted { composition_polynomial: polynomial() };
    match prove(components, channel, stage, committed) {
        (stage, ProveAction::ProveValues { sample_points }) => (stage, sample_points),
        _ => panic!("no points"),
    }
}

#[test]
fn proving_draws_the_coefficient() {
    let component = component();
    let mut channel = BlakeChannel::default();
    let mut twin = channel.clone();
    let begin = ProveEvent::Begin { n_preprocessed_columns: 0 };
    let (_, action) = prove(&components(&component), &mut channel, ProveStage::Start, begin);
    let expected = inside(draw_felt(&mut twin));
    match action {
        ProveAction::CommitComposition { random_coeff } => assert_eq!(random_coeff, expected),
        _ => panic!("no coefficient"),
    }
    assert_eq!(draw_bytes(&mut channel), draw_bytes(&mut twin));
}

#[test]
fn prover_and_verifier_sample_at_the_same_point() {
    let component = component();
    let (mut scheme, mut channel) = committed(config());
    let mut twin = channel.clone();
    let (_, points) = until_opening(&components(&component), &mut channel, 0);
    let root = roots()[2].0;
    let point = read_composition(&mut scheme, root, LOG_DEGREE, &mut twin).unwrap();
    let row = vec![vec![point], vec![point], vec![point], vec![point]];
    assert_eq!(points, vec![vec![], vec![vec![point]], row]);
    assert_eq!(draw_bytes(&mut channel), draw_bytes(&mut twin));
}

#[test]
fn preprocessed_columns_are_sampled_where_used() {
    let component = Fixed { preprocessed: vec![1], ..component() };
    let mut channel = BlakeChannel::default();
    let (_, points) = until_opening(&components(&component), &mut channel, 3);
    let point = points[1][0][0];
    assert_eq!(points[0], vec![vec![], vec![point], vec![]]);
}

#[test]
fn a_preprocessed_column_that_is_missing_aborts_proving() {
    let component = Fixed { preprocessed: vec![1], ..component() };
    let mut channel = BlakeChannel::default();
    let begin = ProveEvent::Begin { n_preprocessed_columns: 1 };
    let (stage, _) = prove(&components(&component), &mut channel, ProveStage::Start, begin);
    let committed = ProveEvent::CompositionCommitted { composition_polynomial: polynomial() };
    let (stage, action) = prove(&components(&component), &mut channel, stage, committed);
    assert!(matches!(stage, ProveStage::Finished));
    assert!(matches!(action, ProveAction::Abort));
}

fn row(values: [u32; 4]) -> Vec<Vec<Vec<SecureField>>> {
    let last = values.map(|v| vec![base(v)]).to_vec();
    vec![vec![], vec![vec![base(TRACE)]], last]
}

fn conclusion(component: &Fixed, sampled_values: Vec<Vec<Vec<SecureField>>>) -> ProveAction {
    let mut channel = BlakeChannel::default();
    let (stage, _) = until_opening(&components(component), &mut channel, 0);
    let proved = ProveEvent::ValuesProved { sampled_values };
    let (stage, action) = prove(&components(component), &mut channel, stage, proved);
    assert!(matches!(stage, ProveStage::Finished));
    action
}

#[test]
fn satisfied_constraints_deliver_the_polynomial() {
    match conclusion(&component(), row([1, 2, 3, 4])) {
        ProveAction::Deliver { composition_polynomial } => {
            let coeffs: Vec<u32> =
                composition_polynomial.0.iter().map(|poly| poly.coeffs()[0]).collect();
            assert_eq!(coeffs, vec![1, 2, 3, 4]);
        }
        _ => panic!("nothing delivered"),
    }
}

#[test]
fn violated_constraints_are_rejected() {
    let rejected = |action: ProveAction| {
        matches!(action, ProveAction::Reject(ProvingError::ConstraintsNotSatisfied))
    };
    assert!(rejected(conclusion(&component(), row([1, 2, 3, 5]))));
    let other = Fixed { value: QM31::from_u32_unchecked(0, 2, 3, 4), ..component() };
    assert!(rejected(conclusion(&other, row([1, 2, 3, 4]))));
    let mut values = row([1, 2, 3, 4]);
    values[1][0][0] = base(TRACE + 1);
    assert!(rejected(conclusion(&component(), values)));
}

#[test]
fn malformed_values_abort_proving() {
    assert!(matches!(conclusion(&component(), vec![]), ProveAction::Abort));
    let mut values = row([1, 2, 3, 4]);
    values[2].pop();
    assert!(matches!(conclusion(&component(), values), ProveAction::Abort));
    let mut values = row([1, 2, 3, 4]);
    values[1].clear();
    assert!(matches!(conclusion(&component(), values), ProveAction::Abort));
    let mut values = row([1, 2, 3, 4]);
    values[1][0].clear();
    assert!(matches!(conclusion(&component(), values), ProveAction::Abort));
    assert!(matches!(conclusion(&component(), row([1, 2, 3, P])), ProveAction::Abort));
}

#[test]
fn constraints_are_held_against_the_given_value() {
    let expected = SecureField { a: 1, b: 2, c: 3, d: 4 };
    let action = check_constraints(&row([1, 2, 3, 4]), expected, polynomial());
    assert!(matches!(action, ProveAction::Deliver { .. }));
    let action = check_constraints(&row([1, 2, 3, 4]), base(1), polynomial());
    assert!(matches!(action, ProveAction::Reject(ProvingError::ConstraintsNotSatisfied)));
    let action = check_constraints(&vec![], base(1), polynomial());
    assert!(matches!(action, ProveAction::Abort));
}

#[test]
fn proving_without_components_aborts() {
    let none = Parts { components: vec![], n_preprocessed_columns: 0 };
    let mut channel = BlakeChannel::default();
    let mut twin = channel.clone();
    let begin = ProveEvent::Begin { n_preprocessed_columns: 0 };
    let (stage, action) = prove(&none, &mut channel, ProveStage::Start, begin);
    assert!(matches!(stage, ProveStage::Finished));
    assert!(matches!(action, ProveAction::Abort));
    assert_eq!(draw_bytes(&mut channel), draw_bytes(&mut twin));
}

#[test]
fn events_out_of_order_abort_proving() {
    let component = component();
    let mut channel = BlakeChannel::default();
    let proved = || ProveEvent::ValuesProved { sampled_values: row([1, 2, 3, 4]) };
    let (stage, action) =
        prove(&components(&component), &mut channel, ProveStage::Start, proved());
    assert!(matches!(action, ProveAction::Abort));
    // A finished proof stays finished.
    let begin = ProveEvent::Begin { n_preprocessed_columns: 0 };
    let (stage, action) = prove(&components(&component), &mut channel, stage, begin);
    assert!(matches!(stage, ProveStage::Finished));
    assert!(matches!(action, ProveAction::Abort));
}

#[test]
fn a_delivered_polynomial_is_accepted() {
    let component = component();
    let (mut scheme, mut channel) = committed(config());
    let mut prover_channel = channel.clone();
    let (stage, _) = until_opening(&components(&component), &mut prover_channel, 0);
    let proof = parsed(constant_proof());
    let proved = ProveEvent::ValuesProved { sampled_values: proof.sampled_values() };
    let (_, action) = prove(&components(&component), &mut prover_channel, stage, proved);
    match action {
        ProveAction::Deliver { composition_polynomial } => {
            let r = verify(
                &components(&component),
                &mut channel,
                &mut scheme,
                proof,
                composition_polynomial,
            );
            assert!(matches!(r, Ok(())));
        }
        _ => panic!("nothing delivered"),
    }
}
