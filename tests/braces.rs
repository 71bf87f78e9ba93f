use kata_threadpool::braces::valid_braces;

fn expect_true(s: &str) {
    assert!(valid_braces(s), "Expected {s:?} to be valid. Got false", s = s);
}

fn expect_false(s: &str) {
    assert!(!valid_braces(s), "Expected {s:?} to be invalid. Got true", s = s);
}

#[test]
fn basic_tests() {
    expect_true("()");
    expect_false("[(])");
    expect_false("(");
    expect_false(")");
}

#[test]
fn nested_and_mixed_brackets() {
    expect_true("");
    expect_true("([{}])[]{}");
    expect_true("a(b[c]d)e");
    expect_false("(]");
    expect_false("{[}]");
    expect_false("())(");
}
