use netlab::text::{ascii_lower_code, parse_decimal};

#[test]
fn decimal_matches_std_for_u16() {
    let cases = [
        "0", "80", "65535", "65536", "+443", "+", "-", "-1", "", " 1", "1 ", "00012", "12a",
        "999999999999999999999", "٣",
    ];
    for c in cases.iter() {
        let ours = parse_decimal(c, 65535).map(|v| v as u16);
        let std = c.parse::<u16>().ok();
        assert_eq!(ours, std, "input {:?}", c);
    }
}

#[test]
fn decimal_matches_std_for_u64() {
    let cases = ["18446744073709551615", "18446744073709551616", "4", "+0"];
    for c in cases.iter() {
        assert_eq!(parse_decimal(c, u64::MAX), c.parse::<u64>().ok(), "input {:?}", c);
    }
}

#[test]
fn lower_case_codes() {
    assert_eq!(ascii_lower_code('C'), 'c' as u32);
    assert_eq!(ascii_lower_code('c'), 'c' as u32);
    assert_eq!(ascii_lower_code('['), '[' as u32);
    assert_eq!(ascii_lower_code('É'), 'É' as u32);
}
