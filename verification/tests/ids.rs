use user_directory::ids::render_number;

#[test]
fn renders_single_digits() {
    assert_eq!(render_number(0), "0");
    assert_eq!(render_number(7), "7");
    assert_eq!(render_number(9), "9");
}

#[test]
fn renders_multi_digit_numbers() {
    assert_eq!(render_number(10), "10");
    assert_eq!(render_number(105), "105");
    assert_eq!(render_number(987654), "987654");
}
