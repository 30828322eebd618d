use termctl::decimal::dec_string_u32;

#[test]
fn decimal_rendering() {
    assert_eq!(dec_string_u32(0), "0");
    assert_eq!(dec_string_u32(7), "7");
    assert_eq!(dec_string_u32(10), "10");
    assert_eq!(dec_string_u32(255), "255");
    assert_eq!(dec_string_u32(4294967295), "4294967295");
}
