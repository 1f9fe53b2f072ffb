use hassle_rs::os::HRESULT;

#[test]
fn negative_codes_are_errors() {
    assert!(HRESULT(-1).is_err());
    assert!(HRESULT(i32::MIN).is_err());
    assert!(HRESULT(-2_147_024_894).is_err());
}

#[test]
fn zero_and_positive_codes_are_not_errors() {
    assert!(!HRESULT(0).is_err());
    assert!(!HRESULT(1).is_err());
    assert!(!HRESULT(i32::MAX).is_err());
}

#[test]
fn from_i32_keeps_the_code() {
    assert_eq!(HRESULT::from(-5), HRESULT(-5));
    assert_eq!(HRESULT::from(7).0, 7);
    let code: HRESULT = 0.into();
    assert_eq!(code, HRESULT(0));
}

#[test]
fn codes_order_by_value() {
    assert!(HRESULT(-1) < HRESULT(0));
    assert!(HRESULT(3) > HRESULT(2));
}

#[test]
fn to_string_of_success_codes() {
    assert_eq!(HRESULT(0).to_string(), "0x0");
    assert_eq!(HRESULT(1).to_string(), "0x1");
    assert_eq!(HRESULT(0xf).to_string(), "0xf");
    assert_eq!(HRESULT(0x10).to_string(), "0x10");
    assert_eq!(HRESULT(0x1234abcd).to_string(), "0x1234abcd");
    assert_eq!(HRESULT(i32::MAX).to_string(), "0x7fffffff");
}

#[test]
fn to_string_of_failure_codes() {
    assert_eq!(HRESULT(-1).to_string(), "-0x1");
    // ERROR_FILE_NOT_FOUND, 0x80070002
    assert_eq!(HRESULT(-2_147_024_894).to_string(), "-0x7ff8fffe");
    // E_NOINTERFACE, 0x80004002
    assert_eq!(HRESULT(-2_147_467_262).to_string(), "-0x7fffbffe");
    assert_eq!(HRESULT(i32::MIN).to_string(), "-0x80000000");
}

#[test]
fn to_string_agrees_with_std_formatting() {
    for v in [0i32, 1, 9, 10, 15, 16, 255, 256, 4095, 65536, 0x0fff_ffff, 0x1000_0000, i32::MAX] {
        assert_eq!(HRESULT(v).to_string(), format!("{:#x}", v));
        assert_eq!(HRESULT(v).to_lower_hex(), format!("{:x}", v));
        if v != 0 {
            assert_eq!(HRESULT(-v).to_string(), format!("-{:#x}", v));
            assert_eq!(HRESULT(-v).to_lower_hex(), format!("-{:x}", v));
        }
    }
}

#[test]
fn to_lower_hex_has_no_prefix() {
    assert_eq!(HRESULT(0).to_lower_hex(), "0");
    assert_eq!(HRESULT(0xabc).to_lower_hex(), "abc");
    assert_eq!(HRESULT(-2_147_024_894).to_lower_hex(), "-7ff8fffe");
    assert_eq!(HRESULT(i32::MIN).to_lower_hex(), "-80000000");
}
