use aoc22::util::max_n;

#[test]
fn test_max_n() {
    assert_eq!(max_n::<3>(&vec![1, 2, 3, 4, 5]), [5, 4, 3]);
    assert_eq!(max_n::<3>(&vec![2, 6, 5, 4, 10, 9, 1, 7, 3, 8]), [10, 9, 8]);
}

#[test]
fn sum_and_max() {
    assert_eq!(aoc22::util::sum_checked(&vec![1, 2, 3]), Some(6));
    assert_eq!(aoc22::util::sum_checked(&vec![usize::MAX, 1]), None);
    assert_eq!(aoc22::util::max_checked(&vec![3, 9, 4]), Some(9));
    assert_eq!(aoc22::util::max_checked(&Vec::new()), None);
}

#[test]
fn parse_number_ranges() {
    let v: Vec<u8> = b"12345".to_vec();
    assert_eq!(aoc22::util::parse_usize_in(&v, 0, 5), Some(12345));
    assert_eq!(aoc22::util::parse_usize_in(&v, 1, 3), Some(23));
    assert_eq!(aoc22::util::parse_usize_in(&v, 2, 2), None);
    let bad: Vec<u8> = b"12a".to_vec();
    assert_eq!(aoc22::util::parse_usize_in(&bad, 0, 3), None);
}
