use execution_context::headers::HttpHeaders;

fn collect_pairs(headers: &HttpHeaders) -> Vec<(String, String)> {
    let mut pairs = Vec::new();
    let mut it = headers.iter();
    while let Some(pair) = it.next() {
        pairs.push(pair);
    }
    pairs
}

#[test]
fn set_then_get() {
    let mut bag = HttpHeaders::default();
    let previous = bag.set("X-Token", "abc".to_string());
    assert!(previous.is_none());
    assert_eq!(bag.get("X-Token").unwrap(), "abc");
}

#[test]
fn set_twice_overwrites() {
    let mut bag = HttpHeaders::default();
    assert!(bag.set("X-Token", "first".to_string()).is_none());
    let previous = bag.set("X-Token", "second".to_string());
    assert_eq!(previous, Some("first".to_string()));
    assert_eq!(bag.get("X-Token").unwrap(), "second");
    assert_eq!(collect_pairs(&bag).len(), 1);
}

#[test]
fn set_then_unset() {
    let mut bag = HttpHeaders::default();
    bag.set("X-Token", "abc".to_string());
    let removed = bag.unset("X-Token");
    assert_eq!(removed, Some("abc".to_string()));
    assert!(bag.get("X-Token").is_none());
}

#[test]
fn never_set_field_is_absent() {
    let mut bag = HttpHeaders::default();
    assert!(bag.get("X-Missing").is_none());
    assert!(bag.unset("X-Missing").is_none());
    assert!(bag.get("X-Missing").is_none());
    assert_eq!(collect_pairs(&bag).len(), 0);
}

#[test]
fn lookup_is_case_sensitive() {
    let mut bag = HttpHeaders::default();
    bag.set("X-Token", "abc".to_string());
    assert!(bag.get("x-token").is_none());
    assert!(bag.unset("X-TOKEN").is_none());
    assert_eq!(bag.get("X-Token").unwrap(), "abc");
}

#[test]
fn iteration_yields_one_pair_per_key() {
    let mut bag = HttpHeaders::default();
    bag.set("A", "1".to_string());
    bag.set("B", "2".to_string());
    bag.set("A", "3".to_string());
    let mut pairs = collect_pairs(&bag);
    pairs.sort();
    assert_eq!(
        pairs,
        vec![
            ("A".to_string(), "3".to_string()),
            ("B".to_string(), "2".to_string()),
        ]
    );
}

#[test]
fn iterator_is_exhausted_after_all_pairs() {
    let mut bag = HttpHeaders::default();
    bag.set("A", "1".to_string());
    let mut it = bag.iter();
    assert_eq!(it.next(), Some(("A".to_string(), "1".to_string())));
    assert!(it.next().is_none());
    assert!(it.next().is_none());
}

#[test]
fn iterator_holds_its_own_copy() {
    let mut bag = HttpHeaders::default();
    bag.set("A", "1".to_string());
    let mut it = bag.iter();
    bag.set("A", "2".to_string());
    bag.set("B", "9".to_string());
    assert_eq!(it.next(), Some(("A".to_string(), "1".to_string())));
    assert!(it.next().is_none());
}

#[test]
fn clone_copies_all_pairs() {
    let mut bag = HttpHeaders::default();
    bag.set("A", "1".to_string());
    bag.set("B", "2".to_string());
    let mut copy = bag.clone();
    copy.set("A", "9".to_string());
    assert_eq!(bag.get("A").unwrap(), "1");
    assert_eq!(copy.get("A").unwrap(), "9");
    assert_eq!(copy.get("B").unwrap(), "2");
}
