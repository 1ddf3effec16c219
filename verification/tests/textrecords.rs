use speedtest_rs::speedtest_csv::SpeedTestCsvResult;
use speedtest_rs::speedtest_json::SpeedTestJsonClientResult;
use speedtest_rs::speedtest_config::{parse_ipv4, Ipv4Address};
use speedtest_rs::textutil::{
    bytes_to_string, parse_micro_deg, parse_u32, parse_u64, u64_to_string,
};

#[test]
fn test_header_serialize() {
    let expected =
        "Server ID,Sponsor,Server Name,Timestamp,Distance,Ping,Download,Upload,Share,IP Address";

    let results = SpeedTestCsvResult::default();

    assert_eq!(results.header_serialize(), expected);
}

#[test]
fn test_make_json_result() {
    let client = SpeedTestJsonClientResult::default();
    assert_eq!(client.ip, "");
    assert_eq!(client.isp, "");
}

#[test]
fn test_u64_to_string() {
    assert_eq!(u64_to_string(0), "0");
    assert_eq!(u64_to_string(4876), "4876");
    assert_eq!(u64_to_string(u64::MAX), "18446744073709551615");
}

#[test]
fn test_parse_u64_cases() {
    assert_eq!(parse_u64(b"0"), Some(0));
    assert_eq!(parse_u64(b"007"), Some(7));
    assert_eq!(parse_u64(b"18446744073709551615"), Some(u64::MAX));
    assert_eq!(parse_u64(b"18446744073709551616"), None);
    assert_eq!(parse_u64(b""), None);
    assert_eq!(parse_u64(b"12a"), None);
    assert_eq!(parse_u32(b"4294967296"), None);
}

#[test]
fn test_parse_micro_deg_cases() {
    assert_eq!(parse_micro_deg(b"32.9954", 90_000_000), Some(32_995_400));
    assert_eq!(
        parse_micro_deg(b"-117.0753", 180_000_000),
        Some(-117_075_300)
    );
    assert_eq!(parse_micro_deg(b"0", 90_000_000), Some(0));
    assert_eq!(parse_micro_deg(b"90.000001", 90_000_000), None);
    // Digits past the sixth carry no weight.
    assert_eq!(parse_micro_deg(b"1.2345678", 90_000_000), Some(1_234_567));
    assert_eq!(parse_micro_deg(b"1..2", 90_000_000), None);
    assert_eq!(parse_micro_deg(b"1.", 90_000_000), None);
    assert_eq!(parse_micro_deg(b"-", 90_000_000), None);
}

#[test]
fn test_parse_ipv4_cases() {
    assert_eq!(
        parse_ipv4(b"174.79.12.26"),
        Some(Ipv4Address {
            a: 174,
            b: 79,
            c: 12,
            d: 26
        })
    );
    assert_eq!(parse_ipv4(b"256.0.0.1"), None);
    assert_eq!(parse_ipv4(b"1.2.3"), None);
    assert_eq!(parse_ipv4(b"01.2.3.4"), None);
    assert_eq!(parse_ipv4(b"1.2.3.4.5"), None);
    let ip = parse_ipv4(b"174.79.12.26").unwrap();
    assert_eq!(ip.to_display_string(), "174.79.12.26");
}

#[test]
fn test_bytes_to_string() {
    assert_eq!(bytes_to_string(b"Cox Communications"), "Cox Communications");
    assert_eq!(bytes_to_string(b""), "");
}
