use peerlab_gateway::pool_asns::AsnPool;

#[test]
fn test_asn_pool_size() {
    let pool = AsnPool::new(65000, 65999);
    assert_eq!(pool.size(), 1000);
}

#[test]
fn test_asn_pool_range() {
    let pool = AsnPool::new(65000, 65099);
    assert_eq!(pool.start(), 65000);
    assert_eq!(pool.end(), 65099);
    assert_eq!(pool.size(), 100);
}

#[test]
fn test_find_available_asn_lowest_first() {
    let pool = AsnPool::new(65000, 65002);
    assert_eq!(pool.find_available_asn(&vec![]), Some(65000));
    assert_eq!(pool.find_available_asn(&vec![65000]), Some(65001));
    assert_eq!(pool.find_available_asn(&vec![65001]), Some(65000));
    assert_eq!(pool.find_available_asn(&vec![65000, 65001]), Some(65002));
}

#[test]
fn test_find_available_asn_exhausted() {
    let pool = AsnPool::new(65000, 65001);
    assert_eq!(pool.find_available_asn(&vec![65001, 65000]), None);
}
