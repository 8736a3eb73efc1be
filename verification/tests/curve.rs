use debye_scattering::binary64::Binary64;
use debye_scattering::curve::{
    check_q_range, compute_scattering_curve, fold_values, intensity, intensity_by_rows,
    intensity_over, q_grid, q_point_count, scattering_curve, Strategy,
};
use debye_scattering::error::DseError;
use debye_scattering::kernel::contribution;
use debye_scattering::lattice::cube_grid;
use debye_scattering::matrix::{pair_count, DistanceMatrix};

fn scalar(x: f64) -> Binary64 {
    Binary64::from_bits(x.to_bits())
}

fn distance_sq(a: &[f64; 3], b: &[f64; 3]) -> f64 {
    let dx = a[0] - b[0];
    let dy = a[1] - b[1];
    let dz = a[2] - b[2];
    dx * dx + dy * dy + dz * dz
}

fn kernel(q: &f64, distance_sq: &f64) -> f64 {
    contribution(
        q,
        distance_sq,
        1.0,
        &|x: &f64| *x == 0.0,
        &|q: &f64, distance_sq: &f64| q * distance_sq.sqrt(),
        &|x: &f64| x.sin() / x,
    )
}

fn plain_kernel(q: f64, distance_sq: f64) -> f64 {
    if distance_sq == 0.0 {
        return 1.0;
    }
    let qd = q * distance_sq.sqrt();
    qd.sin() / qd
}

fn plus(a: f64, b: f64) -> f64 {
    a + b
}

fn cube_points(steps: usize, lattice_param: f64) -> Vec<[f64; 3]> {
    cube_grid(steps)
        .iter()
        .map(|site| {
            [
                site.i as f64 * lattice_param,
                site.j as f64 * lattice_param,
                site.k as f64 * lattice_param,
            ]
        })
        .collect()
}

fn curve_of(
    strategy: Strategy,
    min_q: f64,
    max_q: f64,
    q_step: f64,
    lattice: &Vec<[f64; 3]>,
) -> Result<Vec<f64>, DseError> {
    compute_scattering_curve(
        strategy,
        scalar(min_q),
        scalar(max_q),
        scalar(q_step),
        scalar((max_q - min_q) / q_step),
        lattice,
        &distance_sq,
        &|index: usize| min_q + index as f64 * q_step,
        &kernel,
        &plus,
        0.0,
    )
}

fn double_sum_curve(min_q: f64, q_step: f64, n_points: usize, lattice: &[[f64; 3]]) -> Vec<f64> {
    (0..n_points)
        .map(|index| {
            let q = min_q + index as f64 * q_step;
            let mut total = 0.0;
            for a in lattice {
                for b in lattice {
                    total += plain_kernel(q, distance_sq(a, b));
                }
            }
            total
        })
        .collect()
}

#[test]
fn matrix_of_a_generated_lattice_is_symmetric_with_zero_diagonal() {
    let points = cube_points(3, 0.7);
    let matrix = DistanceMatrix::build(&points, &distance_sq);
    assert_eq!(matrix.size(), 27);
    assert_eq!(matrix.entries.len(), 27 * 27);
    for i in 0..27 {
        assert_eq!(*matrix.get(i, i), 0.0);
        for j in 0..27 {
            assert_eq!(*matrix.get(i, j), *matrix.get(j, i));
        }
    }
}

#[test]
fn matrix_holds_the_squared_distance_of_each_ordered_pair() {
    let points = vec![[0.0, 0.0, 0.0], [1.0, 2.0, 2.0], [3.0, 0.0, 4.0]];
    let matrix = DistanceMatrix::build(&points, &distance_sq);
    assert_eq!(matrix.entries, vec![0.0, 9.0, 25.0, 9.0, 0.0, 12.0, 25.0, 12.0, 0.0]);
    assert_eq!(*matrix.get(0, 1), 9.0);
    assert_eq!(*matrix.get(1, 2), 12.0);
    assert_eq!(*matrix.get(2, 0), 25.0);
}

#[test]
fn matrix_is_stored_row_by_row_in_pair_order() {
    let points: Vec<usize> = vec![0, 1, 2, 3];
    let matrix = DistanceMatrix::build(&points, &|a: &usize, b: &usize| (*a, *b));
    assert_eq!(matrix.entries.len(), 16);
    for row in 0..4 {
        for column in 0..4 {
            assert_eq!(matrix.entries[row * 4 + column], (row, column));
            assert_eq!(*matrix.get(row, column), (row, column));
        }
    }
}

#[test]
fn matrix_of_no_points_is_empty() {
    let points: Vec<[f64; 3]> = Vec::new();
    let matrix = DistanceMatrix::build(&points, &distance_sq);
    assert_eq!(matrix.size(), 0);
    assert!(matrix.entries.is_empty());
}

#[test]
fn pair_count_is_the_square_where_it_fits() {
    assert_eq!(pair_count(0), Some(0));
    assert_eq!(pair_count(125), Some(15625));
    assert_eq!(pair_count(usize::MAX), None);
    assert_eq!(pair_count(1 << (usize::BITS / 2)), None);
}

#[test]
fn empty_lattice_gives_a_curve_of_zeros() {
    let lattice: Vec<[f64; 3]> = Vec::new();
    for strategy in [Strategy::Sequential, Strategy::ParallelByQ, Strategy::ParallelByRow] {
        let curve = curve_of(strategy, 0.1, 1.1, 0.1, &lattice).unwrap();
        assert_eq!(curve, vec![0.0; 10]);
    }
}

#[test]
fn empty_lattice_and_no_points_give_an_empty_curve() {
    let lattice: Vec<[f64; 3]> = Vec::new();
    let curve = curve_of(Strategy::Sequential, 0.1, 0.15, 0.1, &lattice).unwrap();
    assert!(curve.is_empty());
}

#[test]
fn range_narrower_than_a_step_gives_an_empty_curve() {
    let lattice = cube_points(2, 1.0);
    let curve = curve_of(Strategy::ParallelByQ, 1.0, 1.05, 0.1, &lattice).unwrap();
    assert!(curve.is_empty());
}

#[test]
fn kernel_of_a_zero_distance_counts_one_per_point() {
    let lattice = vec![[0.3, 0.3, 0.3]];
    let curve = curve_of(Strategy::Sequential, 0.5, 5.5, 0.5, &lattice).unwrap();
    assert_eq!(curve, vec![1.0; 10]);
}

#[test]
fn curve_approaches_the_square_of_the_point_count_as_q_vanishes() {
    let lattice = cube_points(3, 1.0);
    let n = lattice.len() as f64;
    for strategy in [Strategy::Sequential, Strategy::ParallelByQ, Strategy::ParallelByRow] {
        let curve = curve_of(strategy, 1e-9, 3.5e-9, 1e-9, &lattice).unwrap();
        assert_eq!(curve.len(), 2);
        for value in curve {
            assert!((value - n * n).abs() < 1e-6, "{value}");
        }
    }
}

#[test]
fn range_from_a_tenth_to_eleven_tenths_has_ten_points() {
    let lattice = cube_points(2, 1.0);
    let curve = curve_of(Strategy::Sequential, 0.1, 1.1, 0.1, &lattice).unwrap();
    assert_eq!(curve.len(), 10);
    assert_eq!(q_point_count(scalar((1.1 - 0.1) / 0.1)), 10);
    assert_eq!(((1.1f64 - 0.1) / 0.1).floor() as usize, 10);
}

#[test]
fn upper_end_is_left_out_unless_the_steps_reach_it() {
    assert_eq!(q_point_count(scalar((1.0 - 0.0) / 0.25)), 4);
    assert_eq!(q_point_count(scalar((1.0 - 0.0) / 0.3)), 3);
    assert_eq!(q_point_count(scalar((0.3 - 0.0) / 0.1)), 2);
}

#[test]
fn two_points_at_unit_distance_at_half_pi() {
    let lattice = vec![[0.0, 0.0, 0.0], [0.0, 0.0, 1.0]];
    let q = std::f64::consts::FRAC_PI_2;
    let curve = curve_of(Strategy::Sequential, q, q + 1.0, 1.0, &lattice).unwrap();
    assert_eq!(curve.len(), 1);
    let expected = 2.0 + 4.0 / std::f64::consts::PI;
    assert!((curve[0] - expected).abs() < 1e-12, "{}", curve[0]);
}

#[test]
fn curve_matches_the_double_sum_over_all_pairs() {
    let lattice = cube_points(3, 0.8);
    let curve = curve_of(Strategy::Sequential, 0.1, 3.1, 0.1, &lattice).unwrap();
    let expected = double_sum_curve(0.1, 0.1, 30, &lattice);
    assert_eq!(curve, expected);
}

#[test]
fn sequential_runs_are_identical() {
    let lattice = cube_points(3, 1.0);
    let first = curve_of(Strategy::Sequential, 0.1, 5.0, 0.1, &lattice).unwrap();
    let second = curve_of(Strategy::Sequential, 0.1, 5.0, 0.1, &lattice).unwrap();
    assert_eq!(first.len(), 49);
    assert_eq!(first, second);
}

#[test]
fn parallel_by_q_returns_the_values_in_the_order_of_q() {
    let lattice = cube_points(3, 1.0);
    let sequential = curve_of(Strategy::Sequential, 0.1, 20.0, 0.1, &lattice).unwrap();
    let parallel = curve_of(Strategy::ParallelByQ, 0.1, 20.0, 0.1, &lattice).unwrap();
    // (20.0 - 0.1) / 0.1 falls just short of 199.
    assert_eq!(sequential.len(), 198);
    assert_eq!(parallel, sequential);
    assert!(sequential.windows(2).any(|pair| pair[0] != pair[1]));
}

#[test]
fn parallel_by_row_is_within_tolerance_of_sequential() {
    let lattice = cube_points(4, 0.9);
    let sequential = curve_of(Strategy::Sequential, 0.1, 10.0, 0.1, &lattice).unwrap();
    let parallel = curve_of(Strategy::ParallelByRow, 0.1, 10.0, 0.1, &lattice).unwrap();
    assert_eq!(parallel.len(), sequential.len());
    for (a, b) in parallel.iter().zip(&sequential) {
        assert!((a - b).abs() <= 1e-9 * (1.0 + b.abs()), "{a} {b}");
    }
}

#[test]
fn parallel_by_row_adds_the_row_totals_in_row_order() {
    let numbers = DistanceMatrix { size: 3, entries: vec![1u64, 2, 3, 4, 5, 6, 7, 8, 9] };
    // Each term is the entry times q; a total is ten times what came before
    // plus the term, so it spells the order of addition.
    let spell = |a: u64, b: u64| a * 10 + b;
    let by_rows = intensity_by_rows(&numbers, &1, 0, &|q: &u64, d: &u64| q * d, &spell);
    assert_eq!(by_rows, 123 * 100 + 456 * 10 + 789);
    let in_one_pass = intensity(&numbers, &1, 0, &|q: &u64, d: &u64| q * d, &spell);
    assert_eq!(in_one_pass, 123456789);
}

#[test]
fn intensity_over_sums_the_given_part_only() {
    let entries = vec![1u64, 2, 3, 4, 5];
    let times = |q: &u64, d: &u64| q * d;
    let sum = |a: u64, b: u64| a + b;
    assert_eq!(intensity_over(&entries, 1, 4, &2, 100, &times, &sum), 100 + 2 * (2 + 3 + 4));
    assert_eq!(intensity_over(&entries, 2, 2, &2, 100, &times, &sum), 100);
    assert_eq!(intensity_over(&entries, 0, 5, &1, 0, &times, &sum), 15);
}

#[test]
fn fold_adds_from_the_first_to_the_last() {
    let values = vec![1u64, 2, 3];
    assert_eq!(fold_values(&values, 0, &|a: u64, b: u64| a * 10 + b), 123);
    assert_eq!(fold_values(&Vec::new(), 7, &|a: u64, b: u64| a + b), 7);
}

#[test]
fn q_grid_evaluates_every_index_in_order() {
    let grid = q_grid(4, &|index: usize| 0.5 + index as f64 * 0.25);
    assert_eq!(grid, vec![0.5, 0.75, 1.0, 1.25]);
    assert!(q_grid(0, &|index: usize| index).is_empty());
}

#[test]
fn scattering_curve_has_one_value_for_each_q() {
    let points = cube_points(2, 1.0);
    let matrix = DistanceMatrix::build(&points, &distance_sq);
    let q_values = vec![0.5, 1.0, 2.0];
    for strategy in [Strategy::Sequential, Strategy::ParallelByQ, Strategy::ParallelByRow] {
        let curve = scattering_curve(strategy, &matrix, &q_values, 0.0, &kernel, &plus);
        assert_eq!(curve.len(), 3);
        for (value, q) in curve.iter().zip(&q_values) {
            let expected = intensity(&matrix, q, 0.0, &kernel, &plus);
            assert!((value - expected).abs() < 1e-9);
        }
    }
}

#[test]
fn zero_step_is_rejected() {
    let lattice = cube_points(2, 1.0);
    assert_eq!(curve_of(Strategy::Sequential, 0.1, 1.1, 0.0, &lattice), Err(DseError::InvalidRange));
    assert_eq!(curve_of(Strategy::ParallelByQ, 0.1, 1.1, -0.0, &lattice), Err(DseError::InvalidRange));
}

#[test]
fn negative_step_is_rejected() {
    let lattice = cube_points(2, 1.0);
    assert_eq!(curve_of(Strategy::Sequential, 0.1, 1.1, -0.1, &lattice), Err(DseError::InvalidRange));
    assert_eq!(curve_of(Strategy::Sequential, 1.1, 0.1, -0.1, &lattice), Err(DseError::InvalidRange));
}

#[test]
fn upper_end_not_above_lower_end_is_rejected() {
    let lattice = cube_points(2, 1.0);
    assert_eq!(curve_of(Strategy::Sequential, 1.0, 1.0, 0.1, &lattice), Err(DseError::InvalidRange));
    assert_eq!(curve_of(Strategy::ParallelByRow, 2.0, 1.0, 0.1, &lattice), Err(DseError::InvalidRange));
    assert_eq!(curve_of(Strategy::Sequential, 0.0, -0.0, 0.1, &lattice), Err(DseError::InvalidRange));
}

#[test]
fn range_with_nan_is_rejected() {
    assert_eq!(check_q_range(scalar(f64::NAN), scalar(1.0), scalar(0.1)), Err(DseError::InvalidRange));
    assert_eq!(check_q_range(scalar(0.0), scalar(f64::NAN), scalar(0.1)), Err(DseError::InvalidRange));
    assert_eq!(check_q_range(scalar(0.0), scalar(1.0), scalar(f64::NAN)), Err(DseError::InvalidRange));
}

#[test]
fn proper_range_is_accepted() {
    assert_eq!(check_q_range(scalar(0.1), scalar(1.1), scalar(0.1)), Ok(()));
    assert_eq!(check_q_range(scalar(-1.0), scalar(0.0), scalar(5e-324)), Ok(()));
    assert_eq!(check_q_range(scalar(0.0), scalar(1.0), scalar(f64::INFINITY)), Ok(()));
}

#[test]
fn invalid_range_is_reported_for_an_empty_lattice_too() {
    let lattice: Vec<[f64; 3]> = Vec::new();
    assert_eq!(curve_of(Strategy::Sequential, 1.0, 0.5, 0.1, &lattice), Err(DseError::InvalidRange));
}
