use peerlab_gateway::errors::ApiError;
use peerlab_gateway::handlers::{request_asn, request_prefix, user_info, AsnOutcome};
use peerlab_gateway::pool_asns::AsnPool;
use peerlab_gateway::prefix_pool::{parse_prefix, PrefixPool};
use peerlab_gateway::pseudonym::hash_user_identifier;
use peerlab_gateway::store::LeaseStore;

#[test]
fn test_asn_scenario_two_slots() {
    // ASN pool [65000, 65001]: A gets 65000, B gets 65001, C sees 503.
    let mut store = LeaseStore::new();
    let pool = AsnPool::new(65000, 65001);

    let a = request_asn(&mut store, &pool, "subject-a", 1000);
    assert_eq!(a, Ok(AsnOutcome::Assigned(65000)));

    let b = request_asn(&mut store, &pool, "subject-b", 1001);
    assert_eq!(b, Ok(AsnOutcome::Assigned(65001)));

    let c = request_asn(&mut store, &pool, "subject-c", 1002);
    assert_eq!(c, Err(ApiError::ResourceExhausted));
    assert_eq!(ApiError::ResourceExhausted.status(), 503);
    assert_eq!(store.assignments.len(), 2);
}

#[test]
fn test_asn_request_repeat_returns_same() {
    let mut store = LeaseStore::new();
    let pool = AsnPool::new(65000, 65999);
    assert_eq!(request_asn(&mut store, &pool, "subject-a", 1000), Ok(AsnOutcome::Assigned(65000)));
    assert_eq!(request_asn(&mut store, &pool, "subject-a", 2000), Ok(AsnOutcome::Existing(65000)));
    assert_eq!(store.assignments.len(), 1);
    assert_eq!(store.assignments[0].created_at, 1000);
}

#[test]
fn test_prefix_scenario_second_block_left() {
    // Pool lists exactly two /48s; once A leases one, only the other is
    // available.
    let pool = PrefixPool::from_text("2001:db8:1::/48\n2001:db8:2::/48\n");
    let mut store = LeaseStore::new();

    let lease = request_prefix(&mut store, &pool, "subject-a", 1, 50_000).unwrap();
    assert_eq!(lease.prefix, parse_prefix("2001:db8:1::/48").unwrap());

    let leased_now = store.active_prefixes(50_100);
    let next = pool.find_available_prefix(&leased_now);
    assert_eq!(next, Some(parse_prefix("2001:db8:2::/48").unwrap()));

    let lease_b = request_prefix(&mut store, &pool, "subject-b", 1, 50_200).unwrap();
    assert_eq!(lease_b.prefix, parse_prefix("2001:db8:2::/48").unwrap());

    let c = request_prefix(&mut store, &pool, "subject-c", 1, 50_300);
    assert_eq!(c, Err(ApiError::ResourceExhausted));
}

#[test]
fn test_prefix_duration_validated_before_pool() {
    let pool = PrefixPool::from_text("2001:db8:1::/48\n");
    let mut store = LeaseStore::new();

    for bad in [0, -3, 25, 100] {
        let r = request_prefix(&mut store, &pool, "subject-a", bad, 1000);
        assert_eq!(r, Err(ApiError::Validation));
        assert_eq!(store.leases.len(), 0);
    }
    assert_eq!(ApiError::Validation.status(), 400);

    let lease = request_prefix(&mut store, &pool, "subject-a", 24, 1000).unwrap();
    assert_eq!(lease.end_time, 1000 + 24 * 3600);
}

#[test]
fn test_prefix_lease_exact_times() {
    let pool = PrefixPool::from_text("2001:db8:1::/48\n");
    let mut store = LeaseStore::new();
    let lease = request_prefix(&mut store, &pool, "subject-a", 3, 7_000).unwrap();
    assert_eq!(lease.start_time, 7_000);
    assert_eq!(lease.end_time, 7_000 + 3 * 3600);
    assert_eq!(lease.user_hash, hash_user_identifier("subject-a"));
}

#[test]
fn test_user_info_reports_state() {
    let asn_pool = AsnPool::new(65000, 65999);
    let prefix_pool = PrefixPool::from_text("2001:db8:1::/48\n");
    let mut store = LeaseStore::new();

    let empty = user_info(&store, "subject-a", 1000);
    assert_eq!(empty.user_hash, hash_user_identifier("subject-a"));
    assert_eq!(empty.asn, None);
    assert_eq!(empty.active_leases.len(), 0);

    request_asn(&mut store, &asn_pool, "subject-a", 1000).unwrap();
    request_prefix(&mut store, &prefix_pool, "subject-a", 2, 1000).unwrap();

    let info = user_info(&store, "subject-a", 1500);
    assert_eq!(info.asn, Some(65000));
    assert_eq!(info.active_leases.len(), 1);

    // After the lease has ended, it no longer shows.
    let later = user_info(&store, "subject-a", 1000 + 2 * 3600);
    assert_eq!(later.asn, Some(65000));
    assert_eq!(later.active_leases.len(), 0);
}
