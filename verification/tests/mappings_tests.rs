use peerlab_gateway::errors::ApiError;
use peerlab_gateway::mappings::{get_all_mappings, get_user_mapping};
use peerlab_gateway::prefix_pool::parse_prefix;
use peerlab_gateway::store::LeaseStore;

#[test]
fn test_user_mapping_unknown_handle() {
    // The agent asked about a handle nothing was ever recorded for.
    let store = LeaseStore::new();
    let r = get_user_mapping(&store, &String::from("no-such-handle"), 1000);
    assert_eq!(r, Err(ApiError::UserNotFound));
    assert_eq!(ApiError::UserNotFound.status(), 404);
    assert_eq!(ApiError::UserNotFound.message(), "user not found");
}

#[test]
fn test_user_mapping_without_asn() {
    // A handle holding only a lease has no ASN to report; that 404 is a
    // different cause than an unknown handle.
    let mut store = LeaseStore::new();
    let h = String::from("handle-a");
    let p = parse_prefix("2001:db8:1::/48").unwrap();
    store.create_prefix_lease(&h, p, 1, 1000).unwrap();
    let r = get_user_mapping(&store, &h, 1500);
    assert_eq!(r, Err(ApiError::NoAsnAssigned));
    assert_eq!(ApiError::NoAsnAssigned.status(), 404);
    assert_eq!(ApiError::NoAsnAssigned.message(), "user has no ASN assigned");
}

#[test]
fn test_user_mapping_known_handle() {
    let mut store = LeaseStore::new();
    let h = String::from("handle-a");
    let p = parse_prefix("2001:db8:1::/48").unwrap();
    store.get_or_create_user_asn(&h, 65000, 1000).unwrap();
    store.create_prefix_lease(&h, p, 2, 1000).unwrap();

    let m = get_user_mapping(&store, &h, 1500).unwrap();
    assert_eq!(m.user_hash, "handle-a");
    assert_eq!(m.asn, 65000);
    assert_eq!(m.prefixes, vec![p]);
    assert_eq!(m.email, None);
}

#[test]
fn test_all_mappings_reports_every_assignment() {
    let mut store = LeaseStore::new();
    let ha = String::from("handle-a");
    let hb = String::from("handle-b");
    let p = parse_prefix("2001:db8:1::/48").unwrap();
    store.get_or_create_user_asn(&ha, 65000, 1000).unwrap();
    store.get_or_create_user_asn(&hb, 65001, 1001).unwrap();
    store.create_prefix_lease(&ha, p, 1, 1000).unwrap();

    // Rows come newest-created first.
    let rows = get_all_mappings(&store, 1500);
    assert_eq!(rows.len(), 2);
    assert_eq!(rows[0].user_hash, "handle-b");
    assert_eq!(rows[0].prefixes, vec![]);
    assert_eq!(rows[1].user_hash, "handle-a");
    assert_eq!(rows[1].asn, 65000);
    assert_eq!(rows[1].prefixes, vec![p]);

    // An expired lease falls out of the report.
    let later = get_all_mappings(&store, 1000 + 3600);
    assert_eq!(later[1].prefixes, vec![]);
}
