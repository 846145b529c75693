use ds210::numbers::{fibonacci, sumcube};

#[test]
fn fibonacci_small_values() {
    assert_eq!(fibonacci(0), 0);
    assert_eq!(fibonacci(1), 1);
    assert_eq!(fibonacci(10), 55);
    assert_eq!(fibonacci(20), 6765);
}

#[test]
fn sumcube_matches_the_closed_form() {
    assert_eq!(sumcube(0), 0);
    assert_eq!(sumcube(1), 1);
    assert_eq!(sumcube(3), 36);
    assert_eq!(sumcube(10), 3025);
    assert_eq!(sumcube(255), 1065369600);
}
