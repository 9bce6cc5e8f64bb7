use csv_nose::table::Table;
use csv_nose::uniformity::{
    calculate_tau_0, calculate_tau_1, calculate_uniformity, is_uniform, isqrt, standard_deviation,
    FieldCountStats,
};

fn counts(v: Vec<usize>) -> Table {
    let mut t = Table::new();
    t.field_counts = v;
    t.update_modal_field_count();
    t
}

#[test]
fn test_is_uniform() {
    let uniform_table = counts(vec![3, 3, 3]);
    assert!(is_uniform(&uniform_table));

    let varied_table = counts(vec![3, 4, 3]);
    assert!(!is_uniform(&varied_table));
}

#[test]
fn tau_0_values() {
    assert_eq!(calculate_tau_0(&counts(vec![3, 3, 3, 3, 3])), 1_000_000);
    assert_eq!(calculate_tau_0(&counts(vec![])), 0);
    // Counts 3,4,3,5,3: variance 0.64, sigma 0.8, tau_0 = 1 / 2.6.
    assert_eq!(calculate_tau_0(&counts(vec![3, 4, 3, 5, 3])), 384_615);
}

#[test]
fn tau_1_values() {
    assert_eq!(calculate_tau_1(&counts(vec![3, 3, 3, 3, 3])), 1_000_000);
    assert_eq!(calculate_tau_1(&counts(vec![7])), 1_000_000);
    // Range 1 - 2/5, 4 transitions of 4, 3 of 5 rows modal.
    assert_eq!(calculate_tau_1(&counts(vec![3, 4, 3, 5, 3])), (3 * 600_000 + 0 + 4 * 600_000) / 10);
}

#[test]
fn integer_square_root() {
    assert_eq!(isqrt(0), 0);
    assert_eq!(isqrt(15), 3);
    assert_eq!(isqrt(16), 4);
    assert_eq!(isqrt(u128::MAX), u64::MAX);
}

#[test]
fn stats_and_uniformity() {
    let t = counts(vec![3, 4, 3, 5, 3]);
    let stats = FieldCountStats::from_table(&t);
    assert_eq!(stats.min, 3);
    assert_eq!(stats.max, 5);
    assert_eq!(stats.mode, 3);
    assert_eq!(stats.mean, 3_600_000);
    assert_eq!(stats.std_dev, 800_000);
    assert!(!stats.is_uniform);
    assert_eq!(standard_deviation(&vec![2, 2]), 0);
    // sqrt(384615 * 420000)
    assert_eq!(calculate_uniformity(&t), 401_918);
    assert_eq!(calculate_uniformity(&counts(vec![4, 4])), 1_000_000);
}
