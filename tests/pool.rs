use l7_flood::addr::{dedup_addresses, ip_to_string, pool_file_text, read_ip_files, ClientBuildError, IpAddress};
use l7_flood::command::parse_ip;

#[test]
fn pool_with_malformed_line_fails() {
    match read_ip_files("1.1.1.1\n1.1.1.1\nbad-line\n2.2.2.2") {
        Err(ClientBuildError::InvalidAddressFormat(l)) => assert_eq!(l, "bad-line"),
        other => panic!("unexpected {:?}", other),
    }
}

#[test]
fn pool_is_deduplicated_blank_lines_ignored() {
    let p = read_ip_files("1.1.1.1\n\n  1.1.1.1  \r\n2.2.2.2\n").unwrap();
    assert_eq!(p, vec![IpAddress::V4(1, 1, 1, 1), IpAddress::V4(2, 2, 2, 2)]);
}

#[test]
fn pool_without_addresses_fails() {
    assert!(matches!(read_ip_files(""), Err(ClientBuildError::NoValidIpInFile)));
    assert!(matches!(read_ip_files("\n  \n"), Err(ClientBuildError::NoValidIpInFile)));
}

#[test]
fn pool_rewrite_then_reload_is_identical() {
    let first = read_ip_files("10.0.0.1\n10.0.0.2\n10.0.0.1\n192.168.100.255").unwrap();
    let text = pool_file_text(&first);
    assert_eq!(text, "10.0.0.1\n10.0.0.2\n192.168.100.255");
    let second = read_ip_files(&text).unwrap();
    assert_eq!(first, second);
    let again = read_ip_files("10.0.0.1\n10.0.0.2\n10.0.0.1\n192.168.100.255").unwrap();
    assert_eq!(first, again);
}

#[test]
fn ipv4_parse_edges() {
    assert_eq!(parse_ip("0.0.0.0"), Some(IpAddress::V4(0, 0, 0, 0)));
    assert_eq!(parse_ip("255.255.255.255"), Some(IpAddress::V4(255, 255, 255, 255)));
    assert_eq!(parse_ip("256.1.1.1"), None);
    assert_eq!(parse_ip("01.1.1.1"), None);
    assert_eq!(parse_ip("1.1.1"), None);
    assert_eq!(parse_ip("1.1.1.1.1"), None);
    assert_eq!(parse_ip("1..1.1"), None);
    assert_eq!(parse_ip("1.1.1.1 "), None);
}

#[test]
fn dedup_keeps_first_occurrences() {
    let a = IpAddress::V4(1, 2, 3, 4);
    let b = IpAddress::V4(5, 6, 7, 8);
    assert_eq!(dedup_addresses(&vec![a, b, a, a, b]), vec![a, b]);
}

#[test]
fn address_text() {
    assert_eq!(ip_to_string(IpAddress::V4(127, 0, 0, 1)), "127.0.0.1");
    assert_eq!(ip_to_string(IpAddress::V6(0x2001, 0xdb8, 0, 0, 0, 0, 0, 1)), "2001:db8::1");
    assert_eq!(ip_to_string(IpAddress::V6(0, 0, 0, 0, 0, 0, 0, 0)), "::");
    assert_eq!(ip_to_string(IpAddress::V6(0, 0, 0, 0, 0, 0, 0, 1)), "::1");
    assert_eq!(ip_to_string(IpAddress::V6(1, 0, 0, 0, 0, 0, 0, 0)), "1::");
    assert_eq!(ip_to_string(IpAddress::V6(1, 0, 2, 0, 0, 3, 0, 0)), "1:0:2::3:0:0");
    assert_eq!(ip_to_string(IpAddress::V6(1, 0, 0, 2, 3, 0, 0, 4)), "1::2:3:0:0:4");
    assert_eq!(ip_to_string(IpAddress::V6(1, 2, 3, 4, 5, 6, 0, 8)), "1:2:3:4:5:6:0:8");
    assert_eq!(ip_to_string(IpAddress::V6(0, 0, 0, 0, 0, 0xffff, 0x0102, 0x0304)), "::ffff:1.2.3.4");
    for a in [
        IpAddress::V6(0x2001, 0xdb8, 0, 0, 0, 0, 0, 1),
        IpAddress::V6(1, 0, 2, 0, 0, 3, 0, 0),
        IpAddress::V6(0, 0, 0, 0, 0, 0xffff, 0x0a00, 1),
        IpAddress::V6(0xfe80, 0, 0, 0, 0xabcd, 0, 0, 0),
    ] {
        assert_eq!(parse_ip(&ip_to_string(a)), Some(a));
    }
}

#[test]
fn ipv6_parse_forms() {
    assert_eq!(parse_ip("::1"), Some(IpAddress::V6(0, 0, 0, 0, 0, 0, 0, 1)));
    assert_eq!(parse_ip("::"), Some(IpAddress::V6(0, 0, 0, 0, 0, 0, 0, 0)));
    assert_eq!(parse_ip("2001:DB8::8:800:200C:417A"), Some(IpAddress::V6(0x2001, 0xdb8, 0, 0, 8, 0x800, 0x200c, 0x417a)));
    assert_eq!(parse_ip("fe80::"), Some(IpAddress::V6(0xfe80, 0, 0, 0, 0, 0, 0, 0)));
    assert_eq!(parse_ip("1:2:3:4:5:6:7:8"), Some(IpAddress::V6(1, 2, 3, 4, 5, 6, 7, 8)));
    assert_eq!(parse_ip("1:2:3:4:5:6:7"), None);
    assert_eq!(parse_ip("1:2:3:4:5:6:7:8:9"), None);
    assert_eq!(parse_ip("1::2::3"), None);
    assert_eq!(parse_ip(":::"), None);
    assert_eq!(parse_ip("12345::"), None);
    assert_eq!(parse_ip("1:2:3:4::5:6:7:8"), None);
    assert_eq!(parse_ip("g::"), None);
}

#[test]
fn ipv6_pool_rewrite_round_trip() {
    let first = read_ip_files("::1\n2001:db8::1\n0:0:0:0:0:0:0:1\n1.2.3.4").unwrap();
    assert_eq!(first.len(), 3);
    let text = pool_file_text(&first);
    assert_eq!(text, "::1\n2001:db8::1\n1.2.3.4");
    assert_eq!(read_ip_files(&text).unwrap(), first);
}

#[test]
fn ipv6_with_dotted_ipv4_tail() {
    assert_eq!(parse_ip("::ffff:1.2.3.4"), Some(IpAddress::V6(0, 0, 0, 0, 0, 0xffff, 0x0102, 0x0304)));
    assert_eq!(parse_ip("::1.2.3.4"), Some(IpAddress::V6(0, 0, 0, 0, 0, 0, 0x0102, 0x0304)));
    assert_eq!(parse_ip("1:2:3:4:5:6:1.2.3.4"), Some(IpAddress::V6(1, 2, 3, 4, 5, 6, 0x0102, 0x0304)));
    assert_eq!(parse_ip("64:ff9b::192.0.2.33"), Some(IpAddress::V6(0x64, 0xff9b, 0, 0, 0, 0, 0xc000, 0x0221)));
    assert_eq!(parse_ip("1:2:3:4:5:6:7:1.2.3.4"), None);
    assert_eq!(parse_ip("1.2.3.4::"), None);
    assert_eq!(parse_ip("::1.2.3.4:5"), None);
    assert_eq!(parse_ip(":::1.2.3.4"), None);
    assert_eq!(parse_ip("::1.2.3.256"), None);
    let p = read_ip_files("::ffff:10.0.0.1\n").unwrap();
    assert_eq!(p, vec![IpAddress::V6(0, 0, 0, 0, 0, 0xffff, 0x0a00, 0x0001)]);
}
