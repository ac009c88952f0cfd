use neutrino_http::key_resolver::{HttpKeyResolver, KeyPlan};

#[test]
fn a_resolved_key_is_remembered() {
    let mut resolver = HttpKeyResolver::new();
    assert_eq!(resolver.cached("peer.example", "ed25519:1"), None);
    assert_eq!(resolver.plan("peer.example", "ed25519:1"), KeyPlan::Fetch);
    let key = [3u8; 32];
    assert_eq!(resolver.settle("peer.example", "ed25519:1", Ok(key)), Ok(key));
    assert_eq!(resolver.cached("peer.example", "ed25519:1"), Some(key));
    assert_eq!(resolver.plan("peer.example", "ed25519:1"), KeyPlan::Known(key));
    // Another key of the same server, and the same key of another, are asked for.
    assert_eq!(resolver.plan("peer.example", "ed25519:2"), KeyPlan::Fetch);
    assert_eq!(resolver.plan("other.example", "ed25519:1"), KeyPlan::Fetch);
    // They do not disturb what is known.
    let other = [4u8; 32];
    assert_eq!(resolver.settle("peer.example", "ed25519:2", Ok(other)), Ok(other));
    assert_eq!(resolver.cached("peer.example", "ed25519:1"), Some(key));
}

#[test]
fn a_failure_leaves_nothing_behind() {
    let mut resolver = HttpKeyResolver::new();
    let error = resolver
        .settle("peer.example", "ed25519:1", Err("does not name the server".to_owned()))
        .unwrap_err();
    assert_eq!(error.server_name, "peer.example");
    assert_eq!(error.key_id, "ed25519:1");
    assert_eq!(error.reason, "does not name the server");
    assert_eq!(resolver.plan("peer.example", "ed25519:1"), KeyPlan::Fetch);
}

#[test]
fn what_is_no_server_is_not_asked() {
    let resolver = HttpKeyResolver::new();
    match resolver.plan("not a name", "ed25519:1") {
        KeyPlan::Refused(error) => {
            assert_eq!(
                error.reason,
                "not a valid server name: server name is not a valid IP address or domain name"
            );
        }
        other => panic!("{other:?}"),
    }
}
