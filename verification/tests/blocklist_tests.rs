use dns_filter::blocklist::Blocklist;

fn list(entries: &[&[u8]]) -> Blocklist {
    Blocklist::new(entries.iter().map(|e| e.to_vec()).collect())
}

#[test]
fn exact_name_matches() {
    let b = list(&[b"example.com"]);
    assert!(b.is_blocked(b"example.com"));
}

#[test]
fn subdomain_matches() {
    let b = list(&[b"example.com"]);
    assert!(b.is_blocked(b"www.example.com"));
    assert!(b.is_blocked(b"a.b.example.com"));
}

#[test]
fn raw_suffix_does_not_match() {
    let b = list(&[b"example.com"]);
    assert!(!b.is_blocked(b"notexample.com"));
}

#[test]
fn extended_name_does_not_match() {
    let b = list(&[b"example.com"]);
    assert!(!b.is_blocked(b"example.comx"));
}

#[test]
fn unrelated_name_does_not_match() {
    let b = list(&[b"example.com"]);
    assert!(!b.is_blocked(b"other.org"));
    assert!(!b.is_blocked(b""));
}

#[test]
fn matching_is_case_sensitive() {
    let b = list(&[b"example.com"]);
    assert!(!b.is_blocked(b"Example.com"));
    assert!(!b.is_blocked(b"WWW.EXAMPLE.COM"));
}

#[test]
fn any_entry_may_match() {
    let b = list(&[b"ads.net", b"example.com"]);
    assert!(b.is_blocked(b"tracker.ads.net"));
    assert!(b.is_blocked(b"example.com"));
    assert!(!b.is_blocked(b"ads.example.net"));
}

#[test]
fn empty_blocklist_matches_nothing() {
    let b = list(&[]);
    assert_eq!(b.len(), 0);
    assert!(!b.is_blocked(b"example.com"));
    assert!(!b.is_blocked(b""));
}
