use recipient_gate::classify::{classify, Classification};

fn class_of(addr: &[u8]) -> Classification {
    classify(&addr.to_vec())
}

#[test]
fn exact_domain_uses_local_part() {
    match class_of(b"alice@menhera.org") {
        Classification::ExactDomain(l) => assert_eq!(l, b"alice".to_vec()),
        _ => panic!("expected an exact-domain match"),
    }
    match class_of(b"bob@h09.eu") {
        Classification::ExactDomain(l) => assert_eq!(l, b"bob".to_vec()),
        _ => panic!("expected an exact-domain match"),
    }
}

#[test]
fn wildcard_uses_full_address() {
    match class_of(b"user@abc123.h09.eu") {
        Classification::WildcardDomain(a) => assert_eq!(a, b"user@abc123.h09.eu".to_vec()),
        _ => panic!("expected a wildcard match"),
    }
    match class_of(b"user@xyz.mnhr.org") {
        Classification::WildcardDomain(a) => assert_eq!(a, b"user@xyz.mnhr.org".to_vec()),
        _ => panic!("expected a wildcard match"),
    }
}

#[test]
fn wildcard_local_part_characters() {
    match class_of(b"-a.b_C9@x9.mnhr.org") {
        Classification::WildcardDomain(a) => assert_eq!(a, b"-a.b_C9@x9.mnhr.org".to_vec()),
        _ => panic!("expected a wildcard match"),
    }
}

#[test]
fn unmatched_domain_is_unclassified() {
    assert!(matches!(class_of(b"user@example.com"), Classification::Unclassified));
    assert!(matches!(class_of(b"user@menhera.org.evil.com"), Classification::Unclassified));
}

#[test]
fn malformed_addresses_are_unclassified() {
    assert!(matches!(class_of(b"no-at-sign"), Classification::Unclassified));
    assert!(matches!(class_of(b"two@at@signs.h09.eu"), Classification::Unclassified));
    assert!(matches!(class_of(b"@menhera.org"), Classification::Unclassified));
    assert!(matches!(class_of(b"user@"), Classification::Unclassified));
    assert!(matches!(class_of(b""), Classification::Unclassified));
}

#[test]
fn wildcard_label_must_be_lowercase_alphanumeric() {
    assert!(matches!(class_of(b"user@ABC.h09.eu"), Classification::Unclassified));
    assert!(matches!(class_of(b"user@.h09.eu"), Classification::Unclassified));
    assert!(matches!(class_of(b"user@a-b.h09.eu"), Classification::Unclassified));
    assert!(matches!(class_of(b"user@a.b.h09.eu"), Classification::Unclassified));
}

#[test]
fn wildcard_needs_a_subdomain_label() {
    // Without a label the address is an exact-domain match, not a
    // wildcard one; with an unknown second-level domain it is nothing.
    assert!(matches!(class_of(b"user@h09.eu"), Classification::ExactDomain(_)));
    assert!(matches!(class_of(b"user@abc.h09.eu.x"), Classification::Unclassified));
    assert!(matches!(class_of(b"user@abc.example.eu"), Classification::Unclassified));
}

#[test]
fn local_part_with_bad_byte_is_not_wildcard() {
    assert!(matches!(class_of(b"us er@abc.h09.eu"), Classification::Unclassified));
    assert!(matches!(class_of(b"us+er@abc.h09.eu"), Classification::Unclassified));
}
