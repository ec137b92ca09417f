use rediodb::gate::StoreGate;
use rediodb::numbers::{format_i64, parse_i64};
use rediodb::text::{contains_str, glob_match, str_eq};

#[test]
fn formatting_is_plain_decimal() {
    assert_eq!(format_i64(0), "0");
    assert_eq!(format_i64(7), "7");
    assert_eq!(format_i64(-5), "-5");
    assert_eq!(format_i64(120), "120");
    assert_eq!(format_i64(i64::MAX), "9223372036854775807");
    assert_eq!(format_i64(i64::MIN), "-9223372036854775808");
}

#[test]
fn parsing_accepts_signed_decimals_exactly() {
    assert_eq!(parse_i64("0"), Some(0));
    assert_eq!(parse_i64("42"), Some(42));
    assert_eq!(parse_i64("+42"), Some(42));
    assert_eq!(parse_i64("-42"), Some(-42));
    assert_eq!(parse_i64("007"), Some(7));
    assert_eq!(parse_i64("9223372036854775807"), Some(i64::MAX));
    assert_eq!(parse_i64("-9223372036854775808"), Some(i64::MIN));
    assert_eq!(parse_i64(""), None);
    assert_eq!(parse_i64("-"), None);
    assert_eq!(parse_i64("+"), None);
    assert_eq!(parse_i64("1a"), None);
    assert_eq!(parse_i64(" 1"), None);
    assert_eq!(parse_i64("9223372036854775808"), None);
    assert_eq!(parse_i64("-9223372036854775809"), None);
    assert_eq!(parse_i64("99999999999999999999999999"), None);
}

#[test]
fn substring_containment_is_unanchored() {
    assert!(contains_str("hello", ""));
    assert!(contains_str("hello", "hello"));
    assert!(contains_str("hello", "ell"));
    assert!(contains_str("hello", "lo"));
    assert!(!contains_str("hello", "world"));
    assert!(!contains_str("he", "hello"));
}

#[test]
fn globs_match_whole_names() {
    assert!(glob_match("*", "anything"));
    assert!(glob_match("news.*", "news.sports"));
    assert!(!glob_match("news.*", "weather"));
    assert!(glob_match("a?c", "abc"));
    assert!(!glob_match("a?c", "ac"));
    assert!(glob_match("*.log", "server.log"));
    assert!(!glob_match("*.log", "server.txt"));
    assert!(glob_match("", ""));
    assert!(!glob_match("", "x"));
}

#[test]
fn string_equality_is_by_characters() {
    assert!(str_eq("abc", "abc"));
    assert!(!str_eq("abc", "abd"));
    assert!(!str_eq("abc", "ab"));
    assert!(str_eq("", ""));
}

#[test]
fn the_gate_serializes_increments() {
    let gate = StoreGate::new();
    assert_eq!(gate.incr("counter", 1, 0), Ok("1".to_string()));
    assert_eq!(gate.incr("counter", 1, 0), Ok("2".to_string()));
    assert_eq!(gate.get("counter", 0), Some("2".to_string()));
}

#[test]
fn the_gate_carries_every_operation() {
    let gate = StoreGate::new();
    gate.set("k", "v", Some(10), 0);
    assert_eq!(gate.get("k", 0), Some("v".to_string()));
    assert_eq!(gate.ttl("k", 0), Some(10));
    assert_eq!(gate.expire("k", 20, 0), Ok(()));
    assert_eq!(gate.ttl("k", 0), Some(20));
    assert_eq!(gate.append("k", "w", 0), Ok("vw".to_string()));
    gate.l_push("l", "a", 0).unwrap();
    assert_eq!(gate.l_pop("l", 0), Some("a".to_string()));
    gate.s_add("s", "m", 0).unwrap();
    assert_eq!(gate.s_members("s", 0), vec!["m".to_string()]);
    gate.h_set("h", "f", "v", 0).unwrap();
    assert_eq!(gate.h_get("h", "f", 0), Some("v".to_string()));
    let mut ks = gate.keys("*", 0);
    ks.sort();
    assert_eq!(ks, vec!["h".to_string(), "k".to_string(), "l".to_string(), "s".to_string()]);
    assert!(gate.del("k", 0));
    assert_eq!(gate.get("k", 0), None);
}
