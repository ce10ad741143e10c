use amyst::interpreter::display::{bool_text, native_fn_text, range_text, user_fn_text};

#[test]
fn ranges_are_written_with_their_ends() {
    assert_eq!(range_text(1, 5, false), "1..5");
    assert_eq!(range_text(-3, 0, true), "-3..=0");
    assert_eq!(range_text(i32::MIN, i32::MAX, false), "-2147483648..2147483647");
}

#[test]
fn functions_and_booleans_are_written_by_name() {
    assert_eq!(native_fn_text("clock"), "<native fn clock>");
    assert_eq!(user_fn_text("fib"), "<fn fib>");
    assert_eq!(bool_text(true), "true");
    assert_eq!(bool_text(false), "false");
}
