use rediodb::errors::StoreError;
use rediodb::store::TTLStore;

#[test]
fn set_then_get_returns_value() {
    let mut s = TTLStore::new();
    s.set("k", "v", None, 0);
    assert_eq!(s.get("k", 0), Some("v".to_string()));
    assert_eq!(s.get("k", 1_000_000), Some("v".to_string()));
}

#[test]
fn get_missing_is_absent() {
    let mut s = TTLStore::new();
    assert_eq!(s.get("nope", 0), None);
}

#[test]
fn test_set_get_expire() {
    let mut s = TTLStore::new();
    s.set("integrationKey", "Integration Test", Some(3), 100);
    assert_eq!(s.get("integrationKey", 100), Some("Integration Test".to_string()));
    assert_eq!(s.get("integrationKey", 102), Some("Integration Test".to_string()));
    assert_eq!(s.get("integrationKey", 104), None);
}

#[test]
fn expiry_is_lazy_but_exact() {
    let mut s = TTLStore::new();
    s.set("k", "v", Some(5), 10);
    assert_eq!(s.get("k", 14), Some("v".to_string()));
    assert_eq!(s.get("k", 15), None);
    assert_eq!(s.get("k", 14), None);
}

#[test]
fn set_overwrites_any_variant() {
    let mut s = TTLStore::new();
    s.l_push("k", "a", 0).unwrap();
    s.set("k", "v", None, 0);
    assert_eq!(s.get("k", 0), Some("v".to_string()));
}

#[test]
fn get_on_non_scalar_is_absent() {
    let mut s = TTLStore::new();
    s.l_push("k", "a", 0).unwrap();
    assert_eq!(s.get("k", 0), None);
}

#[test]
fn expire_and_ttl() {
    let mut s = TTLStore::new();
    s.set("k", "v", None, 0);
    assert_eq!(s.ttl("k", 0), Some(-1));
    assert_eq!(s.expire("k", 10, 0), Ok(()));
    assert_eq!(s.ttl("k", 0), Some(10));
    assert_eq!(s.ttl("k", 4), Some(6));
    assert_eq!(s.ttl("k", 10), None);
    assert_eq!(s.ttl("missing", 0), None);
    assert_eq!(s.expire("missing", 10, 0), Err(StoreError::NotFound));
}

#[test]
fn del_reports_live_removal() {
    let mut s = TTLStore::new();
    s.set("k", "v", None, 0);
    assert!(s.del("k", 0));
    assert_eq!(s.get("k", 0), None);
    assert!(!s.del("k", 0));
    s.set("e", "v", Some(1), 0);
    assert!(!s.del("e", 5));
}

#[test]
fn incr_seeds_accumulates_and_decr_negates() {
    let mut s = TTLStore::new();
    assert_eq!(s.incr("n", 5, 0), Ok("5".to_string()));
    assert_eq!(s.incr("n", 5, 0), Ok("10".to_string()));
    assert_eq!(s.decr("n", 3, 0), Ok("7".to_string()));
    assert_eq!(s.get("n", 0), Some("7".to_string()));
    assert_eq!(s.decr("fresh", 3, 0), Ok("-3".to_string()));
}

#[test]
fn incr_on_non_numeric_is_a_type_error() {
    let mut s = TTLStore::new();
    s.set("k", "abc", None, 0);
    assert_eq!(s.incr("k", 1, 0), Err(StoreError::InvalidType));
    assert_eq!(s.get("k", 0), Some("abc".to_string()));
    s.l_push("l", "a", 0).unwrap();
    assert_eq!(s.incr("l", 1, 0), Err(StoreError::InvalidType));
}

#[test]
fn incr_overflow_is_reported_not_wrapped() {
    let mut s = TTLStore::new();
    s.set("k", "9223372036854775807", None, 0);
    assert_eq!(s.incr("k", 1, 0), Err(StoreError::Overflow));
    assert_eq!(s.get("k", 0), Some("9223372036854775807".to_string()));
    s.set("m", "-9223372036854775808", None, 0);
    assert_eq!(s.decr("m", 1, 0), Err(StoreError::Overflow));
    assert_eq!(s.incr("m", 1, 0), Ok("-9223372036854775807".to_string()));
}

#[test]
fn incr_keeps_the_expiry() {
    let mut s = TTLStore::new();
    s.set("k", "1", Some(10), 0);
    assert_eq!(s.incr("k", 1, 0), Ok("2".to_string()));
    assert_eq!(s.ttl("k", 0), Some(10));
    assert_eq!(s.get("k", 20), None);
}

#[test]
fn append_needs_an_existing_scalar() {
    let mut s = TTLStore::new();
    assert_eq!(s.append("k", "a", 0), Err(StoreError::InvalidType));
    s.set("k", "x", None, 0);
    assert_eq!(s.append("k", "y", 0), Ok("xy".to_string()));
    assert_eq!(s.get("k", 0), Some("xy".to_string()));
    s.l_push("l", "a", 0).unwrap();
    assert_eq!(s.append("l", "y", 0), Err(StoreError::InvalidType));
}

#[test]
fn keys_matches_by_substring() {
    let mut s = TTLStore::new();
    s.set("a", "1", None, 0);
    s.set("ab", "2", None, 0);
    s.set("b", "3", None, 0);
    let mut all = s.keys("*", 0);
    all.sort();
    assert_eq!(all, vec!["a".to_string(), "ab".to_string(), "b".to_string()]);
    let mut with_a = s.keys("a", 0);
    with_a.sort();
    assert_eq!(with_a, vec!["a".to_string(), "ab".to_string()]);
    let mut with_b = s.keys("b", 0);
    with_b.sort();
    assert_eq!(with_b, vec!["ab".to_string(), "b".to_string()]);
    assert_eq!(s.keys("zz", 0), Vec::<String>::new());
    let mut empty_pat = s.keys("", 0);
    empty_pat.sort();
    assert_eq!(empty_pat, vec!["a".to_string(), "ab".to_string(), "b".to_string()]);
}

#[test]
fn a_far_away_expiry_reports_a_clamped_remainder() {
    let mut s = TTLStore::new();
    s.set("k", "v", Some(u64::MAX - 10), 0);
    assert_eq!(s.ttl("k", 0), Some(i64::MAX));
    assert_eq!(s.get("k", 0), Some("v".to_string()));
}

#[test]
fn keys_skips_expired_entries() {
    let mut s = TTLStore::new();
    s.set("gone", "1", Some(1), 0);
    s.set("kept", "2", None, 0);
    assert_eq!(s.keys("*", 5), vec!["kept".to_string()]);
}

#[test]
fn list_is_last_in_first_out() {
    let mut s = TTLStore::new();
    s.l_push("k", "a", 0).unwrap();
    s.l_push("k", "b", 0).unwrap();
    assert_eq!(s.l_pop("k", 0), Some("b".to_string()));
    assert_eq!(s.l_pop("k", 0), Some("a".to_string()));
    assert_eq!(s.l_pop("k", 0), None);
    assert_eq!(s.l_pop("missing", 0), None);
}

#[test]
fn l_push_refuses_another_variant() {
    let mut s = TTLStore::new();
    s.set("k", "v", None, 0);
    assert_eq!(s.l_push("k", "a", 0), Err(StoreError::InvalidType));
    assert_eq!(s.get("k", 0), Some("v".to_string()));
}

#[test]
fn l_pop_on_non_list_is_absent() {
    let mut s = TTLStore::new();
    s.set("k", "v", None, 0);
    assert_eq!(s.l_pop("k", 0), None);
    assert_eq!(s.get("k", 0), Some("v".to_string()));
}

#[test]
fn set_add_is_idempotent() {
    let mut s = TTLStore::new();
    s.s_add("k", "m1", 0).unwrap();
    s.s_add("k", "m1", 0).unwrap();
    assert_eq!(s.s_members("k", 0), vec!["m1".to_string()]);
    s.s_add("k", "m2", 0).unwrap();
    let mut members = s.s_members("k", 0);
    members.sort();
    assert_eq!(members, vec!["m1".to_string(), "m2".to_string()]);
}

#[test]
fn s_add_refuses_another_variant() {
    let mut s = TTLStore::new();
    s.set("k", "v", None, 0);
    assert_eq!(s.s_add("k", "m", 0), Err(StoreError::InvalidType));
    assert_eq!(s.get("k", 0), Some("v".to_string()));
}

#[test]
fn s_members_on_missing_or_other_variant_is_empty() {
    let mut s = TTLStore::new();
    assert_eq!(s.s_members("missing", 0), Vec::<String>::new());
    s.set("k", "v", None, 0);
    assert_eq!(s.s_members("k", 0), Vec::<String>::new());
}

#[test]
fn hash_fields_are_set_and_read() {
    let mut s = TTLStore::new();
    s.h_set("k", "f", "v", 0).unwrap();
    assert_eq!(s.h_get("k", "f", 0), Some("v".to_string()));
    assert_eq!(s.h_get("k", "other", 0), None);
    assert_eq!(s.h_get("missing", "f", 0), None);
    s.h_set("k", "f", "w", 0).unwrap();
    assert_eq!(s.h_get("k", "f", 0), Some("w".to_string()));
}

#[test]
fn h_set_refuses_another_variant() {
    let mut s = TTLStore::new();
    s.set("k", "v", None, 0);
    assert_eq!(s.h_set("k", "f", "w", 0), Err(StoreError::InvalidType));
    assert_eq!(s.h_get("k", "f", 0), None);
}

#[test]
fn container_writes_on_expired_keys_start_fresh() {
    let mut s = TTLStore::new();
    s.set("k", "v", Some(1), 0);
    assert_eq!(s.l_push("k", "a", 5), Ok(()));
    assert_eq!(s.l_pop("k", 5), Some("a".to_string()));
}
