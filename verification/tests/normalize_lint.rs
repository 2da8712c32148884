use php_mt_seed::args::{lint_arguments, normalize_arguments, slot_cap_exceeded};

#[test]
fn test_normalize_single_token() {
    let mut arguments = vec![5u32];
    normalize_arguments(&mut arguments);
    assert_eq!(arguments, vec![5, 5, 0, 0x7FFFFFFF]);
}

#[test]
fn test_normalize_two_tokens() {
    let mut arguments = vec![3u32, 9];
    normalize_arguments(&mut arguments);
    assert_eq!(arguments, vec![3, 9, 0, 0x7FFFFFFF]);
}

#[test]
fn test_normalize_canonical_identity() {
    let mut arguments = vec![1u32, 2, 0, 100, 5, 6, 0, 200];
    normalize_arguments(&mut arguments);
    assert_eq!(arguments, vec![1, 2, 0, 100, 5, 6, 0, 200]);
}

#[test]
fn test_normalize_three_tokens_unchanged_and_rejected() {
    let mut arguments = vec![1u32, 2, 3];
    normalize_arguments(&mut arguments);
    assert_eq!(arguments, vec![1, 2, 3]);
    assert_eq!(false, lint_arguments(&arguments));
}

#[test]
fn test_lint_empty_args() {
    let mut arguments: Vec<u32> = Vec::new();
    normalize_arguments(&mut arguments);
    assert!(arguments.is_empty());
    assert_eq!(false, lint_arguments(&arguments));
}

#[test]
fn test_lint_too_big_range() {
    let arguments = vec![
        1395647406, 1395647406, 0, 4294967295, 3472777710, 3472777710, 0, 4294967295, 4039049869,
        4039049869, 0, 4294967295,
    ];
    assert_eq!(false, lint_arguments(&arguments));
}

#[test]
fn test_lint_range_max_boundary() {
    let valid = vec![7u32, 7, 0, 0x7FFFFFFF];
    assert_eq!(true, lint_arguments(&valid));
    let rejected = vec![7u32, 7, 0, 0x80000000];
    assert_eq!(false, lint_arguments(&rejected));
}

#[test]
fn test_lint_range_max_all_ones_rejected() {
    let arguments = vec![7u32, 7, 0, 0xFFFFFFFF];
    assert_eq!(false, lint_arguments(&arguments));
}

#[test]
fn test_lint_nine_slots_rejected() {
    let mut arguments: Vec<u32> = Vec::new();
    for _ in 0..9 {
        arguments.extend_from_slice(&[1, 1, 0, 100]);
    }
    assert_eq!(true, slot_cap_exceeded(&arguments));
    assert_eq!(false, lint_arguments(&arguments));
}

#[test]
fn test_lint_eight_slots_accepted() {
    let mut arguments: Vec<u32> = Vec::new();
    for _ in 0..8 {
        arguments.extend_from_slice(&[1, 1, 0, 100]);
    }
    assert_eq!(false, slot_cap_exceeded(&arguments));
    assert_eq!(true, lint_arguments(&arguments));
}

#[test]
fn test_lint_match_outside_range() {
    assert_eq!(false, lint_arguments(&vec![5u32, 5, 10, 20]));
    assert_eq!(false, lint_arguments(&vec![15u32, 25, 10, 20]));
}

#[test]
fn test_lint_match_min_above_match_max() {
    assert_eq!(false, lint_arguments(&vec![9u32, 3, 0, 100]));
}

#[test]
fn test_lint_range_min_above_range_max() {
    assert_eq!(false, lint_arguments(&vec![50u32, 50, 60, 40]));
}
