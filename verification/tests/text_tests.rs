use rtcli::text::{contains, split_once, starts_with, str_eq, u64_to_decimal};

#[test]
fn decimal_rendering() {
    assert_eq!(u64_to_decimal(0), "0");
    assert_eq!(u64_to_decimal(7), "7");
    assert_eq!(u64_to_decimal(10), "10");
    assert_eq!(u64_to_decimal(1234567890), "1234567890");
    assert_eq!(u64_to_decimal(u64::MAX), "18446744073709551615");
}

#[test]
fn searching() {
    assert!(contains("hello world", "o w"));
    assert!(contains("abc", ""));
    assert!(!contains("abc", "abcd"));
    assert!(!contains("abc", "ac"));
    assert!(starts_with("abc", "ab"));
    assert!(starts_with("abc", ""));
    assert!(!starts_with("ab", "abc"));
    assert!(str_eq("x", "x"));
    assert!(!str_eq("x", "X"));
}

#[test]
fn splitting_at_first_separator() {
    assert_eq!(split_once("a=b=c", '='), Some(("a".to_string(), "b=c".to_string())));
    assert_eq!(split_once("=v", '='), Some((String::new(), "v".to_string())));
    assert_eq!(split_once("k=", '='), Some(("k".to_string(), String::new())));
    assert_eq!(split_once("none", '='), None);
}

#[test]
fn case_mapping_reaches_the_filters() {
    // Lowercasing is Unicode-aware: an uppercase umlaut in the needle matches.
    let t = rtcli::torrent::Torrent {
        hash: "ÄB12".to_string(),
        name: "Über Ä".to_string(),
        size_bytes: 0,
        completed_bytes: 0,
        up_total: 0,
        down_total: 0,
        up_rate: 0,
        down_rate: 0,
        peers_connected: 0,
        peers_complete: 0,
        state: 0,
        is_active: 0,
        is_open: 0,
        complete: 0,
        ratio: 0,
        directory: String::new(),
        message: String::new(),
        status: rtcli::torrent::Status::Stopped,
    };
    let kept = rtcli::filter::apply_filters(vec![t], Some("über ä"), &[]);
    assert_eq!(kept.len(), 1);
    let kept = rtcli::filter::torrents_with_hash_prefix(kept, "äb");
    assert_eq!(kept.len(), 1);
}
