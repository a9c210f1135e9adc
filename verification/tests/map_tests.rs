use recipient_gate::lookup::{outcome_from_record, LookupOutcome};
use recipient_gate::map_session::{map_reply, map_request, MapAction};

fn request(line: &[u8]) -> MapAction {
    map_request(&line.to_vec())
}

#[test]
fn get_exact_domain_resolves_local_part() {
    match request(b"get alice@menhera.org") {
        MapAction::Resolve(q) => assert_eq!(q, b"alice".to_vec()),
        _ => panic!("expected a lookup"),
    }
}

#[test]
fn get_wildcard_resolves_full_address() {
    match request(b"get user@abc123.h09.eu") {
        MapAction::Resolve(q) => assert_eq!(q, b"user@abc123.h09.eu".to_vec()),
        _ => panic!("expected a lookup"),
    }
}

#[test]
fn line_terminator_and_padding_are_trimmed() {
    match request(b"  get alice@menhera.org \r\n") {
        MapAction::Resolve(q) => assert_eq!(q, b"alice".to_vec()),
        _ => panic!("expected a lookup"),
    }
}

#[test]
fn empty_members_reply_with_username() {
    let outcome = outcome_from_record(b"alice".to_vec(), vec![]);
    assert_eq!(map_reply(&outcome), b"200 alice\n".to_vec());
}

#[test]
fn members_reply_verbatim() {
    let members = vec![b"alice".to_vec(), b"bob".to_vec()];
    let outcome = outcome_from_record(b"alice".to_vec(), members);
    assert_eq!(map_reply(&outcome), b"200 alice bob\n".to_vec());
}

#[test]
fn failed_lookup_replies_error() {
    assert_eq!(map_reply(&LookupOutcome::Failed), b"500 error\n".to_vec());
}

#[test]
fn unclassified_address_refused_without_lookup() {
    assert!(matches!(request(b"get user@example.com"), MapAction::Refuse));
    assert!(matches!(request(b"get @menhera.org"), MapAction::Refuse));
}

#[test]
fn bad_address_is_dropped_silently() {
    assert!(matches!(request(b"get bad-address"), MapAction::Silent));
    assert!(matches!(request(b"get a@b@c"), MapAction::Silent));
}

#[test]
fn non_get_keyword_is_ignored() {
    assert!(matches!(request(b"put alice@menhera.org"), MapAction::Silent));
    assert!(matches!(request(b"GET alice@menhera.org"), MapAction::Silent));
}

#[test]
fn wrong_token_count_closes_connection() {
    assert!(matches!(request(b"get a b"), MapAction::Close));
    assert!(matches!(request(b"get"), MapAction::Close));
    assert!(matches!(request(b""), MapAction::Close));
    assert!(matches!(request(b"get  a@menhera.org"), MapAction::Close));
}

#[test]
fn repeated_request_gets_identical_reply() {
    // One connection serves many requests; nothing carried between them
    // may change the answer to an identical line.
    let line = b"get alice@menhera.org".to_vec();
    let first = map_request(&line);
    let second = map_request(&line);
    match (first, second) {
        (MapAction::Resolve(a), MapAction::Resolve(b)) => assert_eq!(a, b),
        _ => panic!("expected two lookups"),
    }
    let members = vec![b"alice".to_vec()];
    let r1 = map_reply(&outcome_from_record(b"alice".to_vec(), members.clone()));
    let r2 = map_reply(&outcome_from_record(b"alice".to_vec(), members));
    assert_eq!(r1, r2);
}
