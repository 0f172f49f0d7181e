use hsl_telepresence_robot::config::{parse_flag, parse_address};

#[test]
fn flags_accept_the_usual_spellings_in_any_case() {
    for on in ["1", "true", "TRUE", " Yes ", "on", "On\n"] {
        assert!(parse_flag(on, false), "{on:?} should turn a flag on");
        assert!(parse_flag(on, true), "{on:?} should turn a flag on");
    }
}

#[test]
fn anything_else_gives_the_default() {
    for other in ["0", "false", "", "  ", "enabled", "yes please", "banana"] {
        assert!(!parse_flag(other, false), "{other:?} should give the default");
        assert!(parse_flag(other, true), "{other:?} should give the default");
    }
}

#[test]
fn the_i2c_address_is_hex_after_0x_and_decimal_otherwise() {
    assert_eq!(parse_address("0x60"), Some(0x60));
    assert_eq!(parse_address(" 0x6F "), Some(0x6f));
    assert_eq!(parse_address("96"), Some(96));
    assert_eq!(parse_address("+96"), Some(96));
    assert_eq!(parse_address("256"), None);
    assert_eq!(parse_address("0x100"), None);
    assert_eq!(parse_address("0x"), None);
    assert_eq!(parse_address("0X60"), None);
    assert_eq!(parse_address(""), None);
    assert_eq!(parse_address("6O"), None);
}
