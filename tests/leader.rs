use i2g_operator::consts::LEASE_TTL_SECS;
use i2g_operator::leader::{holder_identity, LeaseOutcome, LeadershipState};

#[test]
fn failed_attempts_keep_flag() {
    let mut s = LeadershipState::new("me".to_string());
    assert!(!s.is_leader);
    assert_eq!(s.lease_ttl_secs, LEASE_TTL_SECS);
    s.observe(LeaseOutcome::Answered(true));
    s.observe(LeaseOutcome::Failed);
    s.observe(LeaseOutcome::Failed);
    assert!(s.is_leader);
    s.observe(LeaseOutcome::Answered(false));
    s.observe(LeaseOutcome::Failed);
    s.observe(LeaseOutcome::Failed);
    assert!(!s.is_leader);
    assert_eq!(s.holder_id, "me");
}

#[test]
fn holder_identity_prefers_hostname() {
    assert_eq!(holder_identity(Some("a".to_string()), Some("b".to_string())), "a");
    assert_eq!(holder_identity(None, Some("b".to_string())), "b");
    let id = holder_identity(None, None);
    assert_eq!(id.len(), 25);
    assert!(id.starts_with("i2g-operator-"));
    assert!(id[13..].chars().all(|c| c.is_ascii_alphanumeric()));
}
