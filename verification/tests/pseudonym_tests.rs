use peerlab_gateway::pseudonym::hash_user_identifier;

#[test]
fn test_handle_known_sha256_vectors() {
    // SHA-256 of the empty string and of "abc", in lowercase hex.
    assert_eq!(
        hash_user_identifier(""),
        "e3b0c44298fc1c149afbf4c8996fb92427ae41e4649b934ca495991b7852b855"
    );
    assert_eq!(
        hash_user_identifier("abc"),
        "ba7816bf8f01cfea414140de5dae2223b00361a396177a9cb410ff61f20015ad"
    );
}

#[test]
fn test_handle_stable_across_invocations() {
    let a = hash_user_identifier("user-123");
    let b = hash_user_identifier("user-123");
    assert_eq!(a, b);
    assert_eq!(a.len(), 64);
}

#[test]
fn test_handle_distinct_subjects() {
    assert_ne!(hash_user_identifier("user-a"), hash_user_identifier("user-b"));
}
