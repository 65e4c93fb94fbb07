use peerlab_gateway::errors::ApiError;
use peerlab_gateway::prefix_pool::parse_prefix;
use peerlab_gateway::store::LeaseStore;

#[test]
fn test_get_or_create_asn_idempotent() {
    let mut store = LeaseStore::new();
    let h = String::from("handle-a");
    let first = store.get_or_create_user_asn(&h, 65000, 1000).unwrap();
    assert_eq!(first.asn, 65000);
    assert_eq!(first.created_at, 1000);

    // A repeat call with a different candidate returns the existing row
    // unchanged and records nothing new.
    let second = store.get_or_create_user_asn(&h, 65001, 2000).unwrap();
    assert_eq!(second.asn, 65000);
    assert_eq!(second.created_at, 1000);
    assert_eq!(second.updated_at, 1000);
    assert_eq!(store.assignments.len(), 1);
}

#[test]
fn test_get_or_create_asn_conflict() {
    let mut store = LeaseStore::new();
    let ha = String::from("handle-a");
    let hb = String::from("handle-b");
    store.get_or_create_user_asn(&ha, 65000, 1000).unwrap();
    let r = store.get_or_create_user_asn(&hb, 65000, 2000);
    assert_eq!(r, Err(ApiError::Conflict));
    assert_eq!(ApiError::Conflict.status(), 409);
    assert_eq!(store.assignments.len(), 1);
    assert!(store.is_asn_assigned(65000));
    assert!(!store.is_asn_assigned(65001));
}

#[test]
fn test_get_user_asn() {
    let mut store = LeaseStore::new();
    let h = String::from("handle-a");
    assert!(store.get_user_asn(&h).is_none());
    store.get_or_create_user_asn(&h, 65000, 1000).unwrap();
    let row = store.get_user_asn(&h).unwrap();
    assert_eq!(row.user_hash, "handle-a");
    assert_eq!(row.asn, 65000);
}

#[test]
fn test_create_prefix_lease_times() {
    let mut store = LeaseStore::new();
    let h = String::from("handle-a");
    let p = parse_prefix("2001:db8:1::/48").unwrap();
    let lease = store.create_prefix_lease(&h, p, 5, 10_000).unwrap();
    assert_eq!(lease.start_time, 10_000);
    assert_eq!(lease.end_time, 10_000 + 5 * 3600);
    assert_eq!(lease.prefix, p);
}

#[test]
fn test_create_prefix_lease_conflict() {
    let mut store = LeaseStore::new();
    let ha = String::from("handle-a");
    let hb = String::from("handle-b");
    let p = parse_prefix("2001:db8:1::/48").unwrap();
    store.create_prefix_lease(&ha, p, 1, 10_000).unwrap();
    let r = store.create_prefix_lease(&hb, p, 1, 10_500);
    assert_eq!(r, Err(ApiError::Conflict));
    // Once the first lease has ended, the block can be leased again.
    let r2 = store.create_prefix_lease(&hb, p, 1, 10_000 + 3600);
    assert!(r2.is_ok());
}

#[test]
fn test_expired_lease_excluded_from_that_instant() {
    let mut store = LeaseStore::new();
    let h = String::from("handle-a");
    let p = parse_prefix("2001:db8:1::/48").unwrap();
    let lease = store.create_prefix_lease(&h, p, 1, 10_000).unwrap();
    let end = lease.end_time;

    // Active strictly before the end instant.
    assert_eq!(store.get_active_user_leases(&h, end - 1).len(), 1);
    assert!(store.is_prefix_leased(p, end - 1));

    // Excluded from the end instant onward.
    assert_eq!(store.get_active_user_leases(&h, end).len(), 0);
    assert_eq!(store.get_all_active_leases(end).len(), 0);
    assert!(!store.is_prefix_leased(p, end));
    assert_eq!(store.get_active_user_leases(&h, end + 999).len(), 0);
}

#[test]
fn test_cleanup_expired_leases_seven_day_grace() {
    let mut store = LeaseStore::new();
    let h = String::from("handle-a");
    let p = parse_prefix("2001:db8:1::/48").unwrap();
    let lease = store.create_prefix_lease(&h, p, 1, 10_000).unwrap();
    let end = lease.end_time;

    // Exactly seven days past expiry: still kept.
    assert_eq!(store.cleanup_expired_leases(end + 7 * 24 * 3600), 0);
    assert_eq!(store.leases.len(), 1);

    // More than seven days past expiry: purged.
    assert_eq!(store.cleanup_expired_leases(end + 7 * 24 * 3600 + 1), 1);
    assert_eq!(store.leases.len(), 0);
}

#[test]
fn test_get_user_info_composes() {
    let mut store = LeaseStore::new();
    let h = String::from("handle-a");
    let p = parse_prefix("2001:db8:1::/48").unwrap();
    store.get_or_create_user_asn(&h, 65000, 1000).unwrap();
    store.create_prefix_lease(&h, p, 2, 1000).unwrap();
    let (mapping, leases) = store.get_user_info(&h, 1500);
    assert_eq!(mapping.unwrap().asn, 65000);
    assert_eq!(leases.len(), 1);
    assert_eq!(leases[0].prefix, p);
}

#[test]
fn test_get_all_user_mappings_newest_created_first() {
    let mut store = LeaseStore::new();
    let ha = String::from("handle-a");
    let hb = String::from("handle-b");
    store.get_or_create_user_asn(&ha, 65000, 1000).unwrap();
    store.get_or_create_user_asn(&hb, 65001, 1001).unwrap();
    let rows = store.get_all_user_mappings(2000);
    assert_eq!(rows.len(), 2);
    assert_eq!(rows[0].0.asn, 65001);
    assert_eq!(rows[1].0.asn, 65000);
}

#[test]
fn test_active_leases_newest_ending_first() {
    let mut store = LeaseStore::new();
    let h = String::from("handle-a");
    let p1 = parse_prefix("2001:db8:1::/48").unwrap();
    let p2 = parse_prefix("2001:db8:2::/48").unwrap();
    let p3 = parse_prefix("2001:db8:3::/48").unwrap();
    store.create_prefix_lease(&h, p1, 2, 10_000).unwrap();
    store.create_prefix_lease(&h, p2, 5, 10_000).unwrap();
    store.create_prefix_lease(&h, p3, 1, 10_000).unwrap();

    let mine = store.get_active_user_leases(&h, 10_500);
    assert_eq!(mine.len(), 3);
    assert_eq!(mine[0].prefix, p2);
    assert_eq!(mine[1].prefix, p1);
    assert_eq!(mine[2].prefix, p3);

    let all = store.get_all_active_leases(10_500);
    assert_eq!(all.len(), 3);
    assert!(all[0].end_time >= all[1].end_time && all[1].end_time >= all[2].end_time);
}

#[test]
fn test_cleanup_noop_near_epoch() {
    // A clock earlier than the grace period itself deletes nothing.
    let mut store = LeaseStore::new();
    let h = String::from("handle-a");
    let p = parse_prefix("2001:db8:1::/48").unwrap();
    store.create_prefix_lease(&h, p, 1, 0).unwrap();
    assert_eq!(store.cleanup_expired_leases(100), 0);
    assert_eq!(store.leases.len(), 1);
}
