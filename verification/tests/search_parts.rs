use php_mt_seed::args::{lint_arguments, normalize_arguments};
use php_mt_seed::driver::{build_input_data, candidate_seed, extract_results};
use php_mt_seed::mt19937::Mt19937;
use php_mt_seed::predicate::seed_matches;

#[test]
fn test_build_input_data_prefixes_step() {
    let arguments = vec![1u32, 2, 3, 4];
    assert_eq!(build_input_data(&arguments, 7), vec![7, 1, 2, 3, 4]);
}

#[test]
fn test_extract_results_reads_count_prefix() {
    let words = vec![2u32, 11, 22, 0, 0];
    assert_eq!(extract_results(&words), Some(vec![11, 22]));
}

#[test]
fn test_extract_results_empty() {
    let words = vec![0u32, 9, 9];
    assert_eq!(extract_results(&words), Some(vec![]));
}

#[test]
fn test_extract_results_overflow() {
    let words = vec![5u32, 1, 2, 3];
    assert_eq!(extract_results(&words), None);
    let exact_fit = vec![2u32, 7, 8];
    assert_eq!(extract_results(&exact_fit), Some(vec![7, 8]));
}

#[test]
fn test_candidate_seed_examples() {
    assert_eq!(candidate_seed(0, 0, 0), 0);
    assert_eq!(candidate_seed(3, 2, 1), 3 + 256 * (2 * 256 + 1));
    assert_eq!(candidate_seed(255, 65535, 255), 0xFFFFFFFF);
}

#[test]
fn test_candidate_seed_reconstructs_any_seed() {
    for s in [0u32, 1, 255, 256, 65536, 0xDEADBEEF, 0xFFFFFFFF] {
        let step = s % 256;
        let workgroup = s / 65536;
        let local = (s / 256) % 256;
        assert_eq!(candidate_seed(step, workgroup, local), s);
    }
}

#[test]
fn test_predicate_accepts_seed_zero() {
    let mut arguments = vec![1178568022u32];
    normalize_arguments(&mut arguments);
    assert!(lint_arguments(&arguments));
    assert!(seed_matches(0, &arguments));

    let mut other = vec![1178568023u32];
    normalize_arguments(&mut other);
    assert!(lint_arguments(&other));
    assert!(!seed_matches(0, &other));
}

#[test]
fn test_predicate_accepts_seed_zero_short_range() {
    let mut arguments = vec![16378811u32, 16378811, 0, 21474836];
    normalize_arguments(&mut arguments);
    assert!(lint_arguments(&arguments));
    assert!(seed_matches(0, &arguments));
}

#[test]
fn test_predicate_accepts_seed_4242_three_slots() {
    let arguments = vec![
        697823703u32, 697823703, 0, 0x7FFFFFFF, 1736388855, 1736388855, 0, 0x7FFFFFFF,
        2019524934, 2019524934, 0, 0x7FFFFFFF,
    ];
    assert!(lint_arguments(&arguments));
    assert!(seed_matches(4242, &arguments));
    assert!(!seed_matches(4243, &arguments));
    assert!(!seed_matches(0, &arguments));
}

#[test]
fn test_predicate_accepts_seed_424242_bounded_ranges() {
    let arguments = vec![
        7505u32, 7505, 1000, 10000, 2986, 2986, 1000, 10000, 1457, 1457, 1000, 10000,
    ];
    assert!(lint_arguments(&arguments));
    assert!(seed_matches(424242, &arguments));
    assert!(!seed_matches(424243, &arguments));
}

#[test]
fn test_predicate_matches_interval_not_just_point() {
    let arguments = vec![7000u32, 8000, 1000, 10000];
    assert!(lint_arguments(&arguments));
    // The first value of this seed for the span is 7505, inside the interval.
    assert!(seed_matches(424242, &arguments));
    let narrow = vec![7506u32, 8000, 1000, 10000];
    assert!(lint_arguments(&narrow));
    assert!(!seed_matches(424242, &narrow));
}

#[test]
fn test_round_trip_recovers_seed() {
    // Observing a seed's own outputs as exact slots always accepts that seed.
    let seed = 987654321u32;
    let mut rng = Mt19937::new(seed);
    let v1 = rng.rand_range(0, 0x7FFFFFFF).unwrap();
    let v2 = rng.rand_range(10, 99).unwrap();
    let v3 = rng.rand_range(1000, 10000).unwrap();
    assert_eq!((v1, v2, v3), (156741251, 94, 2618));
    let arguments = vec![v1, v1, 0, 0x7FFFFFFF, v2, v2, 10, 99, v3, v3, 1000, 10000];
    assert!(lint_arguments(&arguments));
    assert!(seed_matches(seed, &arguments));
}
