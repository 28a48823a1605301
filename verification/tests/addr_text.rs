//! Address text handling: parsing, formatting, and the command-line
//! argument shapes.
use netlyser::addr::{ipv4_to_string, mac_to_string, parse_ipv4, parse_mac};
use netlyser::cli::{is_file_yaml, is_ipmask};

#[test]
fn parse_ipv4_accepts_canonical_texts() {
    assert_eq!(parse_ipv4("10.0.0.1"), Some(167772161));
    assert_eq!(parse_ipv4("192.168.1.0"), Some(3232235776));
    assert_eq!(parse_ipv4("0.0.0.0"), Some(0));
    assert_eq!(parse_ipv4("255.255.255.255"), Some(4294967295));
}

#[test]
fn parse_ipv4_rejects_malformed_texts() {
    assert_eq!(parse_ipv4(""), None);
    assert_eq!(parse_ipv4("10.0.0"), None);
    assert_eq!(parse_ipv4("10.0.0.0.1"), None);
    assert_eq!(parse_ipv4("10.0.0.256"), None);
    assert_eq!(parse_ipv4("01.2.3.4"), None);
    assert_eq!(parse_ipv4("1.2.3.4x"), None);
    assert_eq!(parse_ipv4("1..2.3"), None);
    assert_eq!(parse_ipv4("a.b.c.d"), None);
}

#[test]
fn ipv4_to_string_writes_dotted_decimal() {
    assert_eq!(ipv4_to_string(3232235776), "192.168.1.0");
    assert_eq!(ipv4_to_string(0), "0.0.0.0");
    assert_eq!(ipv4_to_string(4294967295), "255.255.255.255");
    assert_eq!(ipv4_to_string(167772161), "10.0.0.1");
}

#[test]
fn ipv4_text_round_trips() {
    for text in ["172.16.254.3", "8.8.8.8", "100.64.0.1"] {
        let v = parse_ipv4(text).unwrap();
        assert_eq!(ipv4_to_string(v), text);
    }
}

#[test]
fn parse_mac_accepts_colon_hex_either_case() {
    assert_eq!(parse_mac("aa:bb:cc:dd:ee:ff"), Some(0xaabbccddeeff));
    assert_eq!(parse_mac("AA:BB:CC:DD:EE:FF"), Some(0xaabbccddeeff));
    assert_eq!(parse_mac("00:00:00:00:00:00"), Some(0));
    assert_eq!(parse_mac("01:23:45:67:89:ab"), Some(0x0123456789ab));
}

#[test]
fn parse_mac_rejects_malformed_texts() {
    assert_eq!(parse_mac(""), None);
    assert_eq!(parse_mac("aa:bb:cc:dd:ee"), None);
    assert_eq!(parse_mac("aa:bb:cc:dd:ee:f"), None);
    assert_eq!(parse_mac("aa:bb:cc:dd:ee:ff:00"), None);
    assert_eq!(parse_mac("gg:bb:cc:dd:ee:ff"), None);
    assert_eq!(parse_mac("aa-bb-cc-dd-ee-ff"), None);
}

#[test]
fn mac_to_string_writes_lowercase_pairs() {
    assert_eq!(mac_to_string(0xaabbccddeeff), "aa:bb:cc:dd:ee:ff");
    assert_eq!(mac_to_string(0), "00:00:00:00:00:00");
    assert_eq!(mac_to_string(0x0123456789ab), "01:23:45:67:89:ab");
}

#[test]
fn mac_text_round_trips() {
    for text in ["de:ad:be:ef:00:01", "02:42:ac:11:00:02"] {
        let v = parse_mac(text).unwrap();
        assert_eq!(mac_to_string(v), text);
    }
}

#[test]
fn ipmask_shape_is_checked() {
    assert!(is_ipmask("192.168.1.0/24"));
    assert!(is_ipmask("10.0.0.0/8"));
    assert!(is_ipmask("999.999.999.999/39"));
    assert!(is_ipmask("1.2.3.4/0"));
    assert!(!is_ipmask("1.2.3.4/40"));
    assert!(!is_ipmask("1.2.3.4"));
    assert!(!is_ipmask("1.2.3/24"));
    assert!(!is_ipmask("1.2.3.4/"));
    assert!(!is_ipmask("1.2.3.4/245"));
    assert!(!is_ipmask("1234.1.1.1/24"));
    assert!(!is_ipmask(""));
}

#[test]
fn yaml_path_shape_is_checked() {
    assert!(is_file_yaml("config.yaml"));
    assert!(is_file_yaml("netlyser_2.yaml"));
    assert!(is_file_yaml("/etc/netlyser/config.yaml"));
    assert!(is_file_yaml("dir/config.yaml"));
    assert!(!is_file_yaml("config.yml"));
    assert!(!is_file_yaml("con-fig.yaml"));
    assert!(!is_file_yaml("/a.yaml"));
    assert!(!is_file_yaml(".yaml"));
    assert!(!is_file_yaml("dir/.yaml"));
    assert!(!is_file_yaml(""));
}
