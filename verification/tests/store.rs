use std::time::Duration;

use worker_kv::KvError;
use worker_ratelimit::store::{parse, render};
use worker_ratelimit::{fetch, Datetime, LimitError, Permit, Put, RateLimiter, Stamp, Ticket};

fn limiter() -> RateLimiter {
    let mut limits = RateLimiter::new("ratelimit");
    limits.add_limit(Duration::from_secs(5), 2);
    limits.add_limit(Duration::from_secs(60), 10);
    limits
}

fn ticket() -> Ticket {
    Ticket {
        key: "ratelimit/192.0.2.1".to_string(),
        datetime: Datetime::from_timestamp(1710550643),
        max: Duration::from_secs(30),
    }
}

fn store_down() -> KvError {
    KvError::InvalidKvStore("LIMITS".to_string())
}

#[test]
fn parse_reads_a_record() {
    let stamp = parse(br#"{"1710528364":1,"1710528363":2}"#).unwrap();
    let expected: Stamp = [(1710528363, 2), (1710528364, 1)].into_iter().collect();
    assert_eq!(stamp, expected);
}

#[test]
fn parse_takes_entries_in_any_order() {
    let stamp = parse(br#"{"30":3, "10":1, "20":2}"#).unwrap();
    let keys: Vec<u64> = stamp.keys().copied().collect();
    assert_eq!(keys, vec![10, 20, 30]);
}

#[test]
fn parse_rejects_what_is_no_record() {
    assert!(matches!(parse(b"not json"), Err(LimitError::Json(_))));
    assert!(matches!(parse(b""), Err(LimitError::Json(_))));
    assert!(matches!(parse(br#"{"a":1}"#), Err(LimitError::Json(_))));
    assert!(matches!(parse(br#"{"1":-1}"#), Err(LimitError::Json(_))));
    assert!(matches!(parse(br#"[1,2]"#), Err(LimitError::Json(_))));
}

#[test]
fn render_writes_a_record() {
    let stamp: Stamp = [(1710528364, 1), (1710528363, 2)].into_iter().collect();
    let bytes = render(&stamp).unwrap();
    assert_eq!(bytes, br#"{"1710528363":2,"1710528364":1}"#.to_vec());
    assert_eq!(render(&Stamp::new()).unwrap(), b"{}".to_vec());
}

#[test]
fn render_then_parse_gives_the_record_back() {
    let stamp: Stamp =
        [(0, 0), (1, u64::MAX), (1710528363, 2), (1710528364, 1), (u64::MAX, 7)].into_iter().collect();
    let bytes = render(&stamp).unwrap();
    assert_eq!(parse(&bytes).unwrap(), stamp);

    let empty = Stamp::new();
    assert_eq!(parse(&render(&empty).unwrap()).unwrap(), empty);
}

#[test]
fn fetch_of_a_missing_key_is_the_empty_record() {
    assert_eq!(fetch(Ok(None)).unwrap(), Stamp::new());
}

#[test]
fn fetch_parses_the_stored_bytes() {
    let stamp = fetch(Ok(Some(br#"{"5":3}"#.to_vec()))).unwrap();
    let expected: Stamp = [(5, 3)].into_iter().collect();
    assert_eq!(stamp, expected);
}

#[test]
fn fetch_reports_corrupted_bytes() {
    assert!(matches!(fetch(Ok(Some(b"\x00\x01".to_vec()))), Err(LimitError::Json(_))));
}

#[test]
fn fetch_reports_a_failed_get() {
    match fetch(Err(store_down())) {
        Err(LimitError::Storage(KvError::InvalidKvStore(binding))) => assert_eq!(binding, "LIMITS"),
        other => panic!("unexpected: {:?}", other),
    }
}

#[test]
fn storage_key_joins_prefix_and_identifier() {
    assert_eq!(limiter().storage_key("192.0.2.1"), "ratelimit/192.0.2.1");
    assert_eq!(RateLimiter::new("").storage_key(""), "/");
}

#[test]
fn issue_gives_a_ticket_on_allow() {
    let stamp: Stamp = [(1710528362, 1)].into_iter().collect();
    let now = Datetime::from_timestamp(1710528366);
    let permit = limiter().issue("192.0.2.1", &stamp, now);
    let expected = Ticket {
        key: "ratelimit/192.0.2.1".to_string(),
        datetime: now,
        max: Duration::from_secs(60),
    };
    assert_eq!(permit, Permit::Allow(Some(expected)));
}

#[test]
fn issue_gives_no_ticket_without_rules() {
    let stamp: Stamp = [(1710528362, 1)].into_iter().collect();
    let permit =
        RateLimiter::new("ratelimit").issue("192.0.2.1", &stamp, Datetime::from_timestamp(1710528366));
    assert_eq!(permit, Permit::Allow(None));
}

#[test]
fn issue_denies_a_violated_rule() {
    let stamp: Stamp = [(1710528364, 1), (1710528363, 1)].into_iter().collect();
    let permit = limiter().issue("192.0.2.1", &stamp, Datetime::from_timestamp(1710528366));
    assert_eq!(permit, Permit::Deny);
}

#[test]
fn check_kv_of_a_missing_key_allows() {
    let now = Datetime::from_timestamp(1710528366);
    let permit = limiter().check_kv(Ok(None), "192.0.2.1", now).unwrap();
    let expected = Ticket {
        key: "ratelimit/192.0.2.1".to_string(),
        datetime: now,
        max: Duration::from_secs(60),
    };
    assert_eq!(permit, Permit::Allow(Some(expected)));
}

#[test]
fn check_kv_denies_on_the_stored_record() {
    let stored = br#"{"1710528364":1,"1710528363":1}"#.to_vec();
    let permit =
        limiter().check_kv(Ok(Some(stored)), "192.0.2.1", Datetime::from_timestamp(1710528366)).unwrap();
    assert_eq!(permit, Permit::Deny);
}

#[test]
fn check_kv_reports_corrupted_bytes() {
    let res = limiter().check_kv(
        Ok(Some(b"{\"1710528364\":".to_vec())),
        "192.0.2.1",
        Datetime::from_timestamp(1710528366),
    );
    assert!(matches!(res, Err(LimitError::Json(_))));
}

#[test]
fn check_kv_reports_a_failed_get() {
    let res =
        limiter().check_kv(Err(store_down()), "192.0.2.1", Datetime::from_timestamp(1710528366));
    assert!(matches!(res, Err(LimitError::Storage(KvError::InvalidKvStore(_)))));
}

#[test]
fn put_expires_a_second_after_the_window() {
    let put = ticket().put(b"{}".to_vec());
    assert_eq!(
        put,
        Put { key: "ratelimit/192.0.2.1".to_string(), value: b"{}".to_vec(), expiration_ttl: 31 }
    );
}

#[test]
fn redeem_of_a_missing_key_starts_a_record() {
    let put = ticket().redeem(Ok(None)).unwrap();
    assert_eq!(put.key, "ratelimit/192.0.2.1");
    assert_eq!(put.value, br#"{"1710550643":1}"#.to_vec());
    assert_eq!(put.expiration_ttl, 31);
}

#[test]
fn redeem_trims_and_counts() {
    let stored =
        br#"{"1710550615":3,"1710550614":4,"1710550613":7,"1710550612":1,"1710550611":9}"#.to_vec();
    let put = ticket().redeem(Ok(Some(stored))).unwrap();
    assert_eq!(
        put.value,
        br#"{"1710550613":7,"1710550614":4,"1710550615":3,"1710550643":1}"#.to_vec()
    );
    assert_eq!(put.expiration_ttl, 31);
}

#[test]
fn redeem_counts_a_second_event_at_the_same_instant() {
    let first = ticket().redeem(Ok(None)).unwrap();
    let second = ticket().redeem(Ok(Some(first.value))).unwrap();
    assert_eq!(second.value, br#"{"1710550643":2}"#.to_vec());
}

#[test]
fn redeem_reports_corrupted_bytes() {
    assert!(matches!(ticket().redeem(Ok(Some(b"oops".to_vec()))), Err(LimitError::Json(_))));
}

#[test]
fn redeem_reports_a_failed_get() {
    assert!(matches!(ticket().redeem(Err(store_down())), Err(LimitError::Storage(_))));
}
