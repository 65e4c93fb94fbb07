use std::str::FromStr;

use peerlab_gateway::prefix_pool::{parse_prefix, Prefix, PrefixPool};

#[test]
fn test_load_prefixes_from_file() {
    let mut content = String::new();
    content.push_str("2001:db8:1::/48\n");
    content.push_str("2001:db8:2::/48\n");
    content.push_str("# This is a comment\n");
    content.push_str("\n");
    content.push_str("2001:db8:3::/48\n");

    let pool = PrefixPool::from_text(&content);
    assert_eq!(pool.len(), 3);
}

#[test]
fn test_find_available_prefix() {
    let mut content = String::new();
    content.push_str("2001:db8:1::/48\n");
    content.push_str("2001:db8:2::/48\n");
    content.push_str("2001:db8:3::/48\n");

    let pool = PrefixPool::from_text(&content);

    let leased = vec![parse_prefix("2001:db8:1::/48").unwrap()];
    let available = pool.find_available_prefix(&leased);

    assert!(available.is_some());
    assert_ne!(available.unwrap(), parse_prefix("2001:db8:1::/48").unwrap());
}

#[test]
fn test_prefix_pool_drops_bad_lines() {
    let content = "2001:db8:1::/48\n2001:db8:2::/64\nnot a prefix\n2001:db8:3::/48\n";
    let pool = PrefixPool::from_text(content);
    assert_eq!(pool.len(), 2);
    assert_eq!(pool.get_all_prefixes()[0], parse_prefix("2001:db8:1::/48").unwrap());
    assert_eq!(pool.get_all_prefixes()[1], parse_prefix("2001:db8:3::/48").unwrap());
}

#[test]
fn test_prefix_pool_drops_duplicates() {
    let content = "2001:db8:1::/48\n2001:db8:1::/48\n";
    let pool = PrefixPool::from_text(content);
    assert_eq!(pool.len(), 1);
}

#[test]
fn test_prefix_pool_trims_whitespace() {
    let content = "  2001:db8:1::/48\t\r\n";
    let pool = PrefixPool::from_text(content);
    assert_eq!(pool.len(), 1);
}

#[test]
fn test_parse_prefix_matches_ipnet() {
    let net = ipnet::Ipv6Net::from_str("2001:db8:1::/48").unwrap();
    let p = parse_prefix("2001:db8:1::/48").unwrap();
    assert_eq!(p.addr, u128::from(net.addr()));
    assert_eq!(p.len, net.prefix_len());
    assert_eq!(p.len, 48);
    assert_eq!(parse_prefix("nonsense"), None);
}

#[test]
fn test_prefix_struct_equality_follows_parse() {
    let a = parse_prefix("2001:db8:1::/48").unwrap();
    let b = parse_prefix("2001:db8:1::/48").unwrap();
    let c = parse_prefix("2001:db8:2::/48").unwrap();
    assert_eq!(a, b);
    assert_ne!(a, c);
    let _ = Prefix { addr: a.addr, len: a.len };
}

#[test]
fn test_prefix_pool_empty_and_unterminated_text() {
    assert_eq!(PrefixPool::from_text("").len(), 0);
    assert_eq!(PrefixPool::from_text("# only a comment\n").len(), 0);
    // No trailing newline on the last line.
    assert_eq!(PrefixPool::from_text("2001:db8:1::/48").len(), 1);
}
