use recipient_gate::policy_session::{PolicyAction, PolicyState};

const PERMIT: &[u8] = b"action=permit Ok\n\n";
const DEFER: &[u8] = b"action=defer_if_permit Service temporarily unavailable\n\n";

fn feed(state: &mut PolicyState, line: &[u8]) -> PolicyAction {
    state.handle_line(&line.to_vec())
}

#[test]
fn one_resolved_recipient_permits() {
    let mut s = PolicyState::new();
    match feed(&mut s, b"recipient=a@menhera.org") {
        PolicyAction::Resolve(q) => assert_eq!(q, b"a".to_vec()),
        _ => panic!("expected a lookup"),
    }
    s.record(true);
    match feed(&mut s, b"") {
        PolicyAction::Reply(r) => assert_eq!(r, PERMIT.to_vec()),
        _ => panic!("expected the block reply"),
    }
}

#[test]
fn one_bad_recipient_defers() {
    let mut s = PolicyState::new();
    match feed(&mut s, b"recipient=a@menhera.org") {
        PolicyAction::Resolve(q) => assert_eq!(q, b"a".to_vec()),
        _ => panic!("expected a lookup"),
    }
    s.record(true);
    // An unclassifiable domain is recorded as failed without any lookup.
    assert!(matches!(feed(&mut s, b"recipient=b@bad.com"), PolicyAction::Continue));
    match feed(&mut s, b"") {
        PolicyAction::Reply(r) => assert_eq!(r, DEFER.to_vec()),
        _ => panic!("expected the block reply"),
    }
}

#[test]
fn empty_block_defers() {
    let mut s = PolicyState::new();
    match feed(&mut s, b"") {
        PolicyAction::Reply(r) => assert_eq!(r, DEFER.to_vec()),
        _ => panic!("expected the block reply"),
    }
}

#[test]
fn failed_lookup_defers() {
    let mut s = PolicyState::new();
    assert!(matches!(feed(&mut s, b"recipient=a@menhera.org"), PolicyAction::Resolve(_)));
    s.record(false);
    match feed(&mut s, b"") {
        PolicyAction::Reply(r) => assert_eq!(r, DEFER.to_vec()),
        _ => panic!("expected the block reply"),
    }
}

#[test]
fn other_keys_are_ignored() {
    let mut s = PolicyState::new();
    assert!(matches!(feed(&mut s, b"request=smtpd_access_policy"), PolicyAction::Continue));
    assert!(matches!(feed(&mut s, b"sender=x@menhera.org"), PolicyAction::Continue));
    match feed(&mut s, b"") {
        PolicyAction::Reply(r) => assert_eq!(r, DEFER.to_vec()),
        _ => panic!("expected the block reply"),
    }
}

#[test]
fn malformed_recipient_recorded_as_failed() {
    let mut s = PolicyState::new();
    assert!(matches!(feed(&mut s, b"recipient=no-at-sign"), PolicyAction::Continue));
    assert_eq!(s.recorded(), 1);
    match feed(&mut s, b"") {
        PolicyAction::Reply(r) => assert_eq!(r, DEFER.to_vec()),
        _ => panic!("expected the block reply"),
    }
}

#[test]
fn wildcard_recipient_queries_full_address() {
    let mut s = PolicyState::new();
    match feed(&mut s, b"recipient=user@xyz.mnhr.org") {
        PolicyAction::Resolve(q) => assert_eq!(q, b"user@xyz.mnhr.org".to_vec()),
        _ => panic!("expected a lookup"),
    }
}

#[test]
fn line_without_two_token_split_ends_block() {
    // A line with no `=` at all and one with two of them both end the
    // block, exactly like a blank line.
    let mut s = PolicyState::new();
    match feed(&mut s, b"foo=bar=baz") {
        PolicyAction::Reply(r) => assert_eq!(r, DEFER.to_vec()),
        _ => panic!("expected the block reply"),
    }
    let mut s2 = PolicyState::new();
    match feed(&mut s2, b"no separator here") {
        PolicyAction::Reply(r) => assert_eq!(r, DEFER.to_vec()),
        _ => panic!("expected the block reply"),
    }
}

#[test]
fn reply_clears_the_block_state() {
    let mut s = PolicyState::new();
    assert!(matches!(feed(&mut s, b"recipient=a@menhera.org"), PolicyAction::Resolve(_)));
    s.record(true);
    assert!(matches!(feed(&mut s, b""), PolicyAction::Reply(_)));
    assert_eq!(s.recorded(), 0);
}
