use editor_backend::quit::exit_code;

#[test]
fn exit_code_of_plain_number() {
    assert_eq!(exit_code("42"), 42);
    assert_eq!(exit_code("0"), 0);
}

#[test]
fn exit_code_with_sign() {
    assert_eq!(exit_code("-7"), -7);
    assert_eq!(exit_code("+5"), 5);
}

#[test]
fn exit_code_with_leading_zeros() {
    assert_eq!(exit_code("0000000000012"), 12);
}

#[test]
fn exit_code_at_the_bounds() {
    assert_eq!(exit_code("2147483647"), i32::MAX);
    assert_eq!(exit_code("-2147483648"), i32::MIN);
}

#[test]
fn exit_code_out_of_range_is_zero() {
    assert_eq!(exit_code("2147483648"), 0);
    assert_eq!(exit_code("-2147483649"), 0);
    assert_eq!(exit_code("99999999999999999999"), 0);
}

#[test]
fn exit_code_of_non_numbers_is_zero() {
    assert_eq!(exit_code(""), 0);
    assert_eq!(exit_code("-"), 0);
    assert_eq!(exit_code("+"), 0);
    assert_eq!(exit_code("abc"), 0);
    assert_eq!(exit_code(" 1"), 0);
    assert_eq!(exit_code("1 "), 0);
    assert_eq!(exit_code("3.5"), 0);
    assert_eq!(exit_code("--1"), 0);
}

#[test]
fn exit_code_agrees_with_std() {
    for p in ["12", "-0", "+0", "007", "-2147483648", "2147483648", "x1", "1x", "١"] {
        assert_eq!(exit_code(p), p.parse::<i32>().unwrap_or(0), "payload {:?}", p);
    }
}
