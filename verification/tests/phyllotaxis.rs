use mathatura::constants::FIBONACCI;
use mathatura::phyllotaxis::count_parastichies;

#[test]
fn test_parastichies_fibonacci() {
    let pairs = count_parastichies(200);
    // All parastichy pairs should be consecutive Fibonacci numbers
    for (a, b) in &pairs {
        assert!(FIBONACCI.contains(&(*a as u64)));
        assert!(FIBONACCI.contains(&(*b as u64)));
    }
}

#[test]
fn parastichies_of_200_elements() {
    assert_eq!(
        count_parastichies(200),
        vec![(1, 1), (1, 2), (2, 3), (3, 5), (5, 8), (8, 13), (13, 21), (21, 34), (34, 55),
            (55, 89), (89, 144)]
    );
}

#[test]
fn parastichies_need_ten_elements() {
    assert_eq!(count_parastichies(0), vec![]);
    assert_eq!(count_parastichies(9), vec![]);
    assert_eq!(count_parastichies(10), vec![(1, 1), (1, 2), (2, 3), (3, 5), (5, 8)]);
}

#[test]
fn parastichies_stop_below_the_count() {
    assert_eq!(count_parastichies(13).last(), Some(&(5, 8)));
    assert_eq!(count_parastichies(14).last(), Some(&(8, 13)));
}

#[test]
fn parastichies_end_with_the_table() {
    let all = count_parastichies(usize::MAX);
    assert_eq!(all.len(), 19);
    assert_eq!(all.last(), Some(&(4181, 6765)));
    assert_eq!(count_parastichies(6766), all);
    assert_eq!(count_parastichies(6765).len(), 18);
}
