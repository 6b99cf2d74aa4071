use adq_pingora::filter::address::IpAddress;
use adq_pingora::filter::IPFilter;

fn ip(s: &str) -> IpAddress {
    IpAddress::parse(s).unwrap()
}

#[test]
fn test_ip_filter_new() {
    let filter = IPFilter::new();
    assert!(!filter.should_block_ip(ip("127.0.0.1")));
}

#[test]
fn test_ip_filter_blacklist() {
    let mut filter = IPFilter::new();
    filter.add_to_blacklist(ip("192.168.1.100"));

    assert!(filter.should_block_ip(ip("192.168.1.100")));
    assert!(!filter.should_block_ip(ip("127.0.0.1")));
}

#[test]
fn test_ip_filter_whitelist() {
    let whitelist = vec![ip("127.0.0.1"), ip("10.0.0.1")];
    let filter = IPFilter::with_whitelist(whitelist);

    assert!(!filter.should_block_ip(ip("127.0.0.1")));
    assert!(filter.should_block_ip(ip("192.168.1.100")));
}

#[test]
fn test_ip_filter_max_connections() {
    let mut filter = IPFilter::new();
    filter.set_max_connections_per_ip(2);

    let a = ip("127.0.0.1");

    assert!(!filter.should_block_ip(a));

    filter.increment_connection_count(a);
    assert!(!filter.should_block_ip(a));

    filter.increment_connection_count(a);
    assert!(filter.should_block_ip(a));

    filter.decrement_connection_count(a);
    assert!(!filter.should_block_ip(a));
}

#[test]
fn whitelist_is_exclusive_whatever_the_blacklist() {
    let mut filter = IPFilter::with_whitelist(vec![ip("10.0.0.1"), ip("10.0.0.2")]);
    filter.add_to_blacklist(ip("10.0.0.2"));
    filter.add_to_blacklist(ip("172.16.0.1"));
    assert!(!filter.should_block_ip(ip("10.0.0.1")));
    // listed on both: the blacklist still blocks it
    assert!(filter.should_block_ip(ip("10.0.0.2")));
    assert!(filter.should_block_ip(ip("172.16.0.1")));
    assert!(filter.should_block_ip(ip("8.8.8.8")));
    filter.add_to_whitelist(ip("8.8.8.8"));
    assert!(!filter.should_block_ip(ip("8.8.8.8")));
}

#[test]
fn add_to_whitelist_without_whitelist_changes_nothing() {
    let mut filter = IPFilter::new();
    filter.add_to_whitelist(ip("10.0.0.1"));
    assert!(!filter.should_block_ip(ip("10.0.0.1")));
    assert!(!filter.should_block_ip(ip("10.0.0.2")));
}

#[test]
fn blacklist_blocks_exactly_the_listed() {
    let mut filter = IPFilter::new();
    filter.add_to_blacklist(ip("1.2.3.4"));
    filter.add_to_blacklist(ip("5.6.7.8"));
    assert!(filter.should_block_ip(ip("1.2.3.4")));
    assert!(filter.should_block_ip(ip("5.6.7.8")));
    assert!(!filter.should_block_ip(ip("1.2.3.5")));
    assert!(!filter.should_block_ip(IpAddress::V6(0x01020304)));
    filter.remove_from_blacklist(ip("1.2.3.4"));
    assert!(!filter.should_block_ip(ip("1.2.3.4")));
    assert!(filter.should_block_ip(ip("5.6.7.8")));
}

#[test]
fn connection_counts_never_go_negative() {
    let mut filter = IPFilter::new();
    filter.set_max_connections_per_ip(3);
    let a = ip("9.9.9.9");
    filter.decrement_connection_count(a);
    assert_eq!(filter.get_connection_count(a), 0);
    filter.increment_connection_count(a);
    filter.increment_connection_count(a);
    assert_eq!(filter.get_connection_count(a), 2);
    assert_eq!(filter.get_connection_count(ip("9.9.9.8")), 0);
    filter.decrement_connection_count(a);
    filter.decrement_connection_count(a);
    filter.decrement_connection_count(a);
    assert_eq!(filter.get_connection_count(a), 0);
}

#[test]
fn connections_are_not_counted_without_limit() {
    let mut filter = IPFilter::new();
    let a = ip("9.9.9.9");
    filter.increment_connection_count(a);
    assert_eq!(filter.get_connection_count(a), 0);
    assert!(!filter.should_block_ip(a));
}

#[test]
fn limit_of_n_blocks_the_next_connection() {
    let mut filter = IPFilter::new();
    filter.set_max_connections_per_ip(4);
    let a = ip("9.9.9.9");
    for _ in 0..4 {
        assert!(!filter.should_block_ip(a));
        filter.increment_connection_count(a);
    }
    assert!(filter.should_block_ip(a));
    assert!(!filter.should_block_ip(ip("9.9.9.10")));
    filter.decrement_connection_count(a);
    assert!(!filter.should_block_ip(a));
}

#[test]
fn load_blacklist_reads_lines() {
    let mut filter = IPFilter::new();
    filter.load_blacklist("# blocked\n1.1.1.1\n\n  2.2.2.2  \r\n10.0.0.0/8\nnot-an-ip\n3.3.3.3 # no trailing comments\n 192.168.0.0 / 16\n4.4.4.4");
    assert!(filter.should_block_ip(ip("1.1.1.1")));
    assert!(filter.should_block_ip(ip("2.2.2.2")));
    // of a range only the network address is stored
    assert!(filter.should_block_ip(ip("10.0.0.0")));
    assert!(!filter.should_block_ip(ip("10.1.2.3")));
    assert!(!filter.should_block_ip(ip("3.3.3.3")));
    assert!(filter.should_block_ip(ip("192.168.0.0")));
    assert!(filter.should_block_ip(ip("4.4.4.4")));
}

#[test]
fn parse_ipv4_addresses() {
    assert_eq!(IpAddress::parse("127.0.0.1"), Some(IpAddress::V4(0x7f000001)));
    assert_eq!(IpAddress::parse("0.0.0.0"), Some(IpAddress::V4(0)));
    assert_eq!(IpAddress::parse("255.255.255.255"), Some(IpAddress::V4(0xffffffff)));
    assert_eq!(IpAddress::parse("192.168.1.100"), Some(IpAddress::from_octets(192, 168, 1, 100)));
    assert_eq!(IpAddress::parse("1.2.3"), None);
    assert_eq!(IpAddress::parse("1.2.3.4.5"), None);
    assert_eq!(IpAddress::parse("256.0.0.1"), None);
    assert_eq!(IpAddress::parse("01.2.3.4"), None);
    assert_eq!(IpAddress::parse("1..3.4"), None);
    assert_eq!(IpAddress::parse("1.2.3.4 "), None);
    assert_eq!(IpAddress::parse("a.b.c.d"), None);
    assert_eq!(IpAddress::parse(""), None);
    assert_eq!(IpAddress::parse("1.2.3.1000"), None);
}

#[test]
fn parse_ipv6_addresses() {
    assert_eq!(IpAddress::parse("::"), Some(IpAddress::V6(0)));
    assert_eq!(IpAddress::parse("::1"), Some(IpAddress::V6(1)));
    assert_eq!(IpAddress::parse("1::"), Some(IpAddress::V6(1u128 << 112)));
    assert_eq!(
        IpAddress::parse("2001:db8::ff00:42:8329"),
        Some(IpAddress::V6(0x20010db8000000000000ff0000428329))
    );
    assert_eq!(
        IpAddress::parse("2001:0db8:0000:0000:0000:ff00:0042:8329"),
        Some(IpAddress::V6(0x20010db8000000000000ff0000428329))
    );
    assert_eq!(
        IpAddress::parse("1:2:3:4:5:6:7:8"),
        Some(IpAddress::V6(0x00010002000300040005000600070008))
    );
    assert_eq!(
        IpAddress::parse("1:2:3:4:5:6:7:8"),
        Some(IpAddress::from_segments([1, 2, 3, 4, 5, 6, 7, 8]))
    );
    assert_eq!(
        IpAddress::parse("ABCD:ef01::"),
        Some(IpAddress::V6(0xabcdef01000000000000000000000000))
    );
    assert_eq!(
        IpAddress::parse("1:2:3:4:5:6:7::"),
        Some(IpAddress::V6(0x00010002000300040005000600070000))
    );
    assert_eq!(
        IpAddress::parse("::1:2:3:4:5:6:7"),
        Some(IpAddress::V6(0x00000001000200030004000500060007))
    );
    assert_eq!(
        IpAddress::parse("ffff:ffff:ffff:ffff:ffff:ffff:ffff:ffff"),
        Some(IpAddress::V6(u128::MAX))
    );
}

#[test]
fn parse_ipv6_with_embedded_quad() {
    assert_eq!(
        IpAddress::parse("::ffff:192.168.1.1"),
        Some(IpAddress::V6(0x00000000000000000000ffffc0a80101))
    );
    assert_eq!(IpAddress::parse("::1.2.3.4"), Some(IpAddress::V6(0x01020304)));
    assert_eq!(
        IpAddress::parse("1:2:3:4:5:6:1.2.3.4"),
        Some(IpAddress::V6(0x00010002000300040005000601020304))
    );
    assert_eq!(
        IpAddress::parse("1:2:3:4:5::1.2.3.4"),
        Some(IpAddress::V6(0x00010002000300040005000001020304))
    );
    // the quad stands for two groups, and only at the end
    assert_eq!(IpAddress::parse("1:2:3:4:5:6::1.2.3.4"), None);
    assert_eq!(IpAddress::parse("1:2:3:4:5:6:7:1.2.3.4"), None);
    assert_eq!(IpAddress::parse("1.2.3.4::"), None);
    assert_eq!(IpAddress::parse("::1.2.3.4:5"), None);
    assert_eq!(IpAddress::parse("::01.2.3.4"), None);
}

#[test]
fn parse_rejects_what_is_no_ipv6_address() {
    for text in [
        "", ":", "1:", ":1", ":::", "1::2::3", "12345::", "g::", "1:2:3:4:5:6:7",
        "1:2:3:4:5:6:7:8:9", "1:2:3:4:5:6:7:8::", "::1:2:3:4:5:6:7:8", "[::1]", "::1%eth0",
        " ::1", "::1 ", "1:2:3:4:5:6:7:", ":1:2:3:4:5:6:7", "::-1",
    ] {
        assert_eq!(IpAddress::parse(text), None, "{:?}", text);
    }
}

#[test]
fn blacklist_holds_ipv6_entries() {
    let mut filter = IPFilter::new();
    filter.load_blacklist("::1\n2001:db8::/32\n fe80::1 \n");
    assert!(filter.should_block_ip(IpAddress::V6(1)));
    assert!(filter.should_block_ip(ip("2001:db8::")));
    assert!(!filter.should_block_ip(ip("2001:db8::1")));
    assert!(filter.should_block_ip(ip("fe80::1")));
    assert!(!filter.should_block_ip(ip("0.0.0.1")));
}

#[test]
fn admit_connection_checks_and_counts_at_once() {
    let mut filter = IPFilter::new();
    filter.set_max_connections_per_ip(2);
    let a = ip("9.9.9.9");
    assert!(filter.admit_connection(a));
    assert!(filter.admit_connection(a));
    assert!(!filter.admit_connection(a));
    assert_eq!(filter.get_connection_count(a), 2);
    filter.decrement_connection_count(a);
    assert!(filter.admit_connection(a));
    filter.add_to_blacklist(ip("6.6.6.6"));
    assert!(!filter.admit_connection(ip("6.6.6.6")));
    assert_eq!(filter.get_connection_count(ip("6.6.6.6")), 0);
}

#[test]
fn separate_check_and_count_can_overshoot() {
    // two connections that are checked before either is counted are both
    // admitted, though the limit is one
    let mut filter = IPFilter::new();
    filter.set_max_connections_per_ip(1);
    let a = ip("9.9.9.9");
    let first = !filter.should_block_ip(a);
    let second = !filter.should_block_ip(a);
    assert!(first && second);
    filter.increment_connection_count(a);
    filter.increment_connection_count(a);
    assert_eq!(filter.get_connection_count(a), 2);
    assert!(filter.should_block_ip(a));
}
