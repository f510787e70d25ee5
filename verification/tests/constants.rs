use mathatura::constants::{fibonacci_sequence, is_fibonacci, FIBONACCI_TERMS, FIBONACCI_TEST_MAX};

#[test]
fn fibonacci_sequence_first_terms() {
    assert_eq!(fibonacci_sequence(0), Vec::<u64>::new());
    assert_eq!(fibonacci_sequence(1), vec![0]);
    assert_eq!(fibonacci_sequence(2), vec![0, 1]);
    assert_eq!(
        fibonacci_sequence(21),
        vec![
            0, 1, 1, 2, 3, 5, 8, 13, 21, 34, 55, 89, 144, 233, 377, 610, 987, 1597, 2584, 4181,
            6765
        ]
    );
}

#[test]
fn fibonacci_sequence_reaches_the_last_term_of_a_word() {
    let all = fibonacci_sequence(FIBONACCI_TERMS);
    assert_eq!(all.len(), 94);
    assert_eq!(all[93], 12200160415121876738);
    assert_eq!(all[92] + all[91], all[93]);
    assert!(all[93].checked_add(all[92]).is_none());
}

#[test]
fn is_fibonacci_on_small_numbers() {
    let fibs = [0u64, 1, 2, 3, 5, 8, 13, 21, 34, 55, 89, 144, 233];
    for n in 0..=240u64 {
        assert_eq!(is_fibonacci(n), fibs.contains(&n), "n = {}", n);
    }
}

#[test]
fn is_fibonacci_on_large_numbers() {
    assert!(is_fibonacci(1836311903));
    assert!(is_fibonacci(1134903170));
    assert!(!is_fibonacci(1836311904));
    assert!(!is_fibonacci(FIBONACCI_TEST_MAX));
}
