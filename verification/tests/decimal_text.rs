use rtxlink::decimal::{format_mhz, parse_mhz};

#[test]
fn parse_mhz_reads_the_documented_example() {
    assert_eq!(parse_mhz("433.5"), Some(433_500_000));
    assert_eq!(433_500_000u32.to_le_bytes(), [0x60, 0xAF, 0xD6, 0x19]);
}

#[test]
fn parse_mhz_reads_whole_megahertz() {
    assert_eq!(parse_mhz("446"), Some(446_000_000));
    assert_eq!(parse_mhz("446.0"), Some(446_000_000));
    assert_eq!(parse_mhz("446."), Some(446_000_000));
    assert_eq!(parse_mhz("0"), Some(0));
    assert_eq!(parse_mhz("+144.8"), Some(144_800_000));
    assert_eq!(parse_mhz("0446.000000"), Some(446_000_000));
}

#[test]
fn parse_mhz_reads_down_to_one_hertz() {
    assert_eq!(parse_mhz("0.000001"), Some(1));
    assert_eq!(parse_mhz(".5"), Some(500_000));
    assert_eq!(parse_mhz("433.1"), Some(433_100_000));
    assert_eq!(parse_mhz("145.212500"), Some(145_212_500));
    assert_eq!(parse_mhz("1.000010"), Some(1_000_010));
}

#[test]
fn parse_mhz_drops_what_is_less_than_a_hertz() {
    assert_eq!(parse_mhz("433.4999999"), Some(433_499_999));
    assert_eq!(parse_mhz("0.0000009"), Some(0));
    assert_eq!(parse_mhz("1.00000199999999999999999999999"), Some(1_000_001));
}

#[test]
fn parse_mhz_knows_the_limit_of_32_bits() {
    assert_eq!(parse_mhz("4294.967295"), Some(u32::MAX));
    assert_eq!(parse_mhz("4294.9672959"), Some(u32::MAX));
    assert_eq!(parse_mhz("4294.967296"), None);
    assert_eq!(parse_mhz("4295"), None);
    assert_eq!(parse_mhz("5000"), None);
    assert_eq!(parse_mhz("99999999999999999999999999"), None);
    assert_eq!(parse_mhz("000000000000000000000004294.5"), Some(4_294_500_000));
}

#[test]
fn parse_mhz_refuses_what_is_no_decimal() {
    for bad in ["", ".", "+", "+.", "-1", "1e3", "1.2.3", "1,5", " 1", "1 ", "MHz", "433.5MHz", "4 33", "++1", "inf", "NaN"] {
        assert_eq!(parse_mhz(bad), None);
    }
}

#[test]
fn format_mhz_writes_the_documented_example() {
    assert_eq!(format_mhz(446_000_000), b"446.0".to_vec());
    assert_eq!(format_mhz(433_500_000), b"433.5".to_vec());
}

#[test]
fn format_mhz_trims_zeros_at_the_end() {
    assert_eq!(format_mhz(0), b"0.0".to_vec());
    assert_eq!(format_mhz(1), b"0.000001".to_vec());
    assert_eq!(format_mhz(10), b"0.00001".to_vec());
    assert_eq!(format_mhz(1_000_000), b"1.0".to_vec());
    assert_eq!(format_mhz(145_212_500), b"145.2125".to_vec());
    assert_eq!(format_mhz(100_000_100), b"100.0001".to_vec());
    assert_eq!(format_mhz(u32::MAX), b"4294.967295".to_vec());
    assert_eq!(format_mhz(0x1AB7_8C40), b"448.236608".to_vec());
}

#[test]
fn mhz_text_round_trips() {
    let samples = [
        0u32, 1, 9, 10, 999_999, 1_000_000, 1_000_001, 144_800_000, 433_500_000, 446_000_000,
        446_006_250, 999_999_999, 1_000_000_000, 4_294_000_000, u32::MAX - 1, u32::MAX,
    ];
    for hz in samples {
        let text = String::from_utf8(format_mhz(hz)).unwrap();
        assert_eq!(parse_mhz(&text), Some(hz));
    }
    let mut hz: u32 = 12_345;
    for _ in 0..2000 {
        hz = hz.wrapping_mul(1_664_525).wrapping_add(1_013_904_223);
        let text = String::from_utf8(format_mhz(hz)).unwrap();
        assert_eq!(parse_mhz(&text), Some(hz));
    }
}
