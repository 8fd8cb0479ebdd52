use ducklake::{remove_tag, upsert_tag, DucklakeError, Tag};

fn tag(k: &str, v: &str) -> Tag {
    Tag { key: k.to_string(), value: v.to_string() }
}

#[test]
fn upsert_replaces_and_appends() {
    let mut tags = vec![tag("a", "1"), tag("b", "2")];
    upsert_tag(&mut tags, tag("a", "3"));
    assert_eq!(tags, vec![tag("b", "2"), tag("a", "3")]);
    upsert_tag(&mut tags, tag("a", "3"));
    assert_eq!(tags, vec![tag("b", "2"), tag("a", "3")]);
}

#[test]
fn remove_drops_the_key_or_fails() {
    let mut tags = vec![tag("a", "1"), tag("b", "2")];
    remove_tag(&mut tags, "a").unwrap();
    assert_eq!(tags, vec![tag("b", "2")]);
    assert!(matches!(remove_tag(&mut tags, "a"), Err(DucklakeError::NotFound { .. })));
    assert_eq!(tags, vec![tag("b", "2")]);
}
