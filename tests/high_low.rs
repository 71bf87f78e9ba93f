use kata_threadpool::high_low::high_and_low;

#[test]
fn example_test_1() {
    assert_eq!("42 -9", high_and_low("8 3 -5 42 -1 0 0 -9 4 7 4 -4"));
}

#[test]
fn example_test_2() {
    assert_eq!("3 1", high_and_low("1 2 3"));
}

#[test]
fn single_number_is_both_ends() {
    assert_eq!("-7 -7", high_and_low("-7"));
}

#[test]
fn pieces_that_are_not_numbers_are_skipped() {
    assert_eq!("12 5", high_and_low("  x 5  +12 - 3.5 ab"));
}

#[test]
fn extremes_of_i32() {
    assert_eq!("2147483647 -2147483648", high_and_low("-2147483648 2147483647 2147483648"));
}
