use opcode_bench::stats::{average, median, median_fits, sort_samples, sum_fits, total};

#[test]
fn total_and_average() {
    let s = vec![3u128, 5, 7];
    assert_eq!(total(&s), 15);
    assert_eq!(average(&s, 1), 15);
    assert_eq!(average(&s, 3), 5);
    assert_eq!(average(&vec![10u128, 11], 2), 10);
    assert_eq!(average(&vec![], 4), 0);
}

#[test]
fn median_odd_and_even() {
    assert_eq!(median(&vec![5u128, 1, 3], 3), 3);
    assert_eq!(median(&vec![4u128, 1, 3, 2], 4), 2);
    assert_eq!(median(&vec![9u128], 1), 9);
    assert_eq!(median(&vec![10u128, 20], 2), 15);
    // with one run, the first sorted sample is the median whatever the count
    assert_eq!(median(&vec![8u128, 2, 5], 1), 2);
}

#[test]
fn median_ignores_order() {
    assert_eq!(median(&vec![1u128, 2, 3, 4, 5], 5), median(&vec![5u128, 3, 1, 4, 2], 5));
}

#[test]
fn sorting_samples() {
    assert_eq!(sort_samples(&vec![3u128, 1, 2, 1]), vec![1u128, 1, 2, 3]);
    assert_eq!(sort_samples(&vec![]), Vec::<u128>::new());
}

#[test]
fn overflow_and_missing_samples_are_detected() {
    assert!(!sum_fits(&vec![u128::MAX, 1]));
    assert!(sum_fits(&vec![u128::MAX, 0]));
    assert!(!median_fits(&vec![1u128], 2));
    assert!(!median_fits(&vec![u128::MAX, u128::MAX], 2));
    assert!(median_fits(&vec![u128::MAX, u128::MAX], 1));
    assert!(!median_fits(&vec![1u128], 0));
}

#[test]
fn average_lies_between_samples() {
    let s = vec![9u128, 2, 7, 4];
    let avg = average(&s, s.len());
    assert_eq!(avg, 5);
    assert!(*s.iter().min().unwrap() <= avg && avg <= *s.iter().max().unwrap());
}
