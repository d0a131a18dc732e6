use lllreduce::driver::{Phase, ReductionDriver};
use lllreduce::lattice::{add_row_multiple, swap_basis_rows};
use lllreduce::passes::{first_blocking_pair, size_reduction_pairs};
use lllreduce::rows::{coefficient_row, swap_adjacent_rows};
use lllreduce::DotProduct;

fn scenario_basis() -> Vec<Vec<i64>> {
    vec![
        vec![0, 3, 4, 7, 8],
        vec![1, 0, 1, 8, 7],
        vec![1, 1, 3, 5, 6],
        vec![0, 3, 4, 7, 6],
        vec![0, 3, 4, 8, 9],
    ]
}

#[test]
fn dotprod_small_rows() {
    let a: Vec<i64> = vec![1, 2, 3];
    let b: Vec<i64> = vec![4, 5, 6];
    assert_eq!(a.dotprod(&b), 32);
    let c: Vec<i64> = vec![-1, 0, 2];
    assert_eq!(a.dotprod(&c), 5);
}

#[test]
fn dotprod_empty_rows() {
    let a: Vec<i64> = Vec::new();
    assert_eq!(a.dotprod(&a), 0);
}

#[test]
fn dotprod_largest_entries() {
    let a: Vec<i64> = vec![i64::MAX, i64::MIN];
    let b: Vec<i64> = vec![i64::MAX, 1];
    let expected: i128 = (i64::MAX as i128) * (i64::MAX as i128) + (i64::MIN as i128);
    assert_eq!(a.dotprod(&b), expected);
}

#[test]
fn gram_schmidt_second_row_scenario() {
    // The first orthogonal row is the first basis row; the second, scaled by
    // the squared length 138 of the first, is 138 * b1 - 116 * b0.
    let basis = scenario_basis();
    let norm = basis[0].dotprod(&basis[0]);
    let proj = basis[1].dotprod(&basis[0]);
    assert_eq!(norm, 138);
    assert_eq!(proj, 116);
    let scaled: Vec<i64> = basis[1].iter().map(|x| x * 138).collect();
    let mut o = vec![basis[0].clone(), scaled];
    assert!(add_row_multiple(&mut o, 1, 0, -116));
    assert_eq!(o[0], vec![0, 3, 4, 7, 8]);
    assert_eq!(o[1], vec![138, -348, -326, 292, 38]);
    // [1, -58/23, -163/69, 146/69, 19/69] times 138
    assert_eq!(o[1][1] * 23, -58 * 138);
    assert_eq!(o[1][2] * 69, -163 * 138);
    assert_eq!(o[1][3] * 69, 146 * 138);
    assert_eq!(o[1][4] * 69, 19 * 138);
    assert_eq!(o[1].dotprod(&o[0]), 0);
}

#[test]
fn add_row_multiple_changes_only_target_row() {
    let mut o = scenario_basis();
    assert!(add_row_multiple(&mut o, 3, 0, -1));
    assert_eq!(o[3], vec![0, 0, 0, 0, -2]);
    let before = scenario_basis();
    for k in [0usize, 1, 2, 4] {
        assert_eq!(o[k], before[k]);
    }
}

#[test]
fn add_row_multiple_undone_by_opposite_multiple() {
    let mut o = scenario_basis();
    assert!(add_row_multiple(&mut o, 0, 4, 7));
    assert_ne!(o, scenario_basis());
    assert!(add_row_multiple(&mut o, 0, 4, -7));
    assert_eq!(o, scenario_basis());
}

#[test]
fn add_row_multiple_refuses_overflow() {
    let mut o: Vec<Vec<i64>> = vec![vec![i64::MAX, 0], vec![1, 1]];
    let before = o.clone();
    assert!(!add_row_multiple(&mut o, 0, 1, 1));
    assert_eq!(o, before);
    assert!(add_row_multiple(&mut o, 0, 1, -1));
    assert_eq!(o[0], vec![i64::MAX - 1, -1]);
}

#[test]
fn swap_basis_rows_exchanges_neighbours() {
    let mut o = scenario_basis();
    swap_basis_rows(&mut o, 2);
    assert_eq!(o[2], vec![0, 3, 4, 7, 6]);
    assert_eq!(o[3], vec![1, 1, 3, 5, 6]);
    swap_basis_rows(&mut o, 2);
    assert_eq!(o, scenario_basis());
}

#[test]
fn swap_adjacent_float_rows() {
    let mut m: Vec<Vec<f32>> = vec![vec![1.0, 0.0], vec![0.5, 2.0], vec![3.0, 3.0]];
    swap_adjacent_rows(&mut m, 0);
    assert_eq!(m, vec![vec![0.5, 2.0], vec![1.0, 0.0], vec![3.0, 3.0]]);
}

#[test]
fn coefficient_row_layout() {
    let r = coefficient_row(vec![0.25f32, -1.5], 1.0, 0.0, 5);
    assert_eq!(r, vec![0.25, -1.5, 1.0, 0.0, 0.0]);
    let first = coefficient_row(Vec::<f32>::new(), 1.0, 0.0, 3);
    assert_eq!(first, vec![1.0, 0.0, 0.0]);
    let last = coefficient_row(vec![7i64, 8], 1, 0, 3);
    assert_eq!(last, vec![7, 8, 1]);
}

#[test]
fn size_reduction_pairs_order() {
    assert_eq!(size_reduction_pairs(0), Vec::<(usize, usize)>::new());
    assert_eq!(size_reduction_pairs(1), Vec::<(usize, usize)>::new());
    assert_eq!(size_reduction_pairs(3), vec![(2, 1), (1, 0), (2, 0)]);
    assert_eq!(
        size_reduction_pairs(4),
        vec![(3, 2), (2, 1), (3, 1), (1, 0), (2, 0), (3, 0)]
    );
}

#[test]
fn size_reduction_pairs_cover_lower_triangle_once() {
    let n = 6;
    let pairs = size_reduction_pairs(n);
    assert_eq!(pairs.len(), n * (n - 1) / 2);
    for j in 0..n {
        for i in j + 1..n {
            assert_eq!(pairs.iter().filter(|p| **p == (i, j)).count(), 1);
        }
    }
}

#[test]
fn first_blocking_pair_picks_first() {
    assert_eq!(first_blocking_pair(&vec![false, true, true]), Some(1));
    assert_eq!(first_blocking_pair(&vec![true, false]), Some(0));
    assert_eq!(first_blocking_pair(&vec![false, false, false]), None);
    assert_eq!(first_blocking_pair(&Vec::new()), None);
}

#[test]
fn driver_stops_after_quiet_round() {
    let mut d = ReductionDriver::new();
    assert_eq!(d.next_phase(), Phase::SizeReduction);
    d.record(false);
    assert_eq!(d.next_phase(), Phase::Swap);
    d.record(false);
    assert_eq!(d.next_phase(), Phase::Done);
}

#[test]
fn driver_runs_again_after_change() {
    let mut d = ReductionDriver::new();
    d.record(true);
    d.record(false);
    assert_eq!(d.next_phase(), Phase::SizeReduction);
    d.record(false);
    d.record(true);
    assert_eq!(d.next_phase(), Phase::SizeReduction);
    assert!(!d.gauss_changed);
    assert!(d.lovasz_changed);
    d.record(false);
    d.record(false);
    assert_eq!(d.next_phase(), Phase::Done);
}
