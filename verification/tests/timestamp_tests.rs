use logstream::timestamp::Timestamp;

#[test]
fn unix_parts_read_back() {
    let t = Timestamp::from_unix(1_431_648_000, 250).unwrap();
    assert_eq!(t.unix_seconds(), 1_431_648_000);
    assert_eq!(t.subsec_nanos(), 250);
    assert!(Timestamp::from_unix(i64::MAX, 0).is_none());
    assert!(Timestamp::from_unix(0, 2_000_000_000).is_none());
}

#[test]
fn rfc3339_in_utc() {
    let t = Timestamp::parse_rfc3339("1996-12-19T16:39:57-08:00").unwrap();
    assert_eq!(t.unix_seconds(), 851_042_397);
    assert!(Timestamp::parse_rfc3339("yesterday").is_none());
    let leap = Timestamp::parse_rfc3339("2016-12-31T23:59:60Z").unwrap();
    assert!(leap.subsec_nanos() >= 1_000_000_000);
}

#[test]
fn text_as_chrono_writes_it() {
    let t = Timestamp::from_unix(1_431_648_000, 0).unwrap();
    assert_eq!(t.text(), "2015-05-15 00:00:00 UTC");
}

#[test]
fn seconds_subtracted() {
    let t = Timestamp::from_unix(1_000, 5).unwrap();
    let u = t.minus_seconds(30).unwrap();
    assert_eq!((u.unix_seconds(), u.subsec_nanos()), (970, 5));
    let later = t.minus_seconds(-30).unwrap();
    assert_eq!(later.unix_seconds(), 1_030);
    assert!(t.minus_seconds(i64::MAX / 1000 + 1).is_none());
}

#[test]
fn order_of_instants() {
    let a = Timestamp::from_unix(10, 5).unwrap();
    let b = Timestamp::from_unix(10, 6).unwrap();
    let c = Timestamp::from_unix(11, 0).unwrap();
    assert!(a.is_before(&b));
    assert!(b.is_before(&c));
    assert!(!c.is_before(&a));
    assert!(!a.is_before(&a));
}

#[test]
fn now_is_after_the_epoch() {
    let t = Timestamp::now().unwrap();
    assert!(t.unix_seconds() > 1_600_000_000);
    assert!(t.subsec_nanos() < 1_000_000_000);
}

#[test]
fn epoch_and_fallback() {
    let e = Timestamp::epoch();
    assert_eq!((e.unix_seconds(), e.subsec_nanos()), (0, 0));
    assert_eq!(e.text(), "1970-01-01 00:00:00 UTC");
    let t = Timestamp::now_or(e);
    assert!(t.unix_seconds() > 1_600_000_000);
    assert!(Timestamp::from_unix(253_402_300_799, 999_999_999).is_some());
}

#[test]
fn range_of_instants() {
    assert!(Timestamp::from_unix(8_210_266_876_799, 999_999_999).is_some());
    assert!(Timestamp::from_unix(8_210_266_876_800, 0).is_none());
    assert!(Timestamp::from_unix(-8_334_601_228_800, 0).is_some());
    assert!(Timestamp::from_unix(-8_334_601_228_801, 0).is_none());
    assert!(Timestamp::from_unix(59, 1_500_000_000).is_some());
    assert!(Timestamp::from_unix(-1, 1_500_000_000).is_some());
    assert!(Timestamp::from_unix(58, 1_500_000_000).is_none());
    assert!(Timestamp::from_unix(59, 2_000_000_000).is_none());
}

fn parts(t: Timestamp) -> (i64, u32) {
    (t.unix_seconds(), t.subsec_nanos())
}

#[test]
fn subtraction_as_stated() {
    let t = Timestamp::from_unix(1_000, 250).unwrap();
    assert_eq!(parts(t.minus_seconds(30).unwrap()), (970, 250));
    assert_eq!(parts(t.minus_seconds(-30).unwrap()), (1_030, 250));
    assert_eq!(parts(t.minus_seconds(86_400 * 3 + 7).unwrap()), (1_000 - 86_400 * 3 - 7, 250));
    let leap = Timestamp::from_unix(59, 1_500_000_000).unwrap();
    assert_eq!(parts(leap.minus_seconds(10).unwrap()), (50, 500_000_000));
    assert_eq!(parts(leap.minus_seconds(-10).unwrap()), (69, 500_000_000));
    assert_eq!(parts(leap.minus_seconds(0).unwrap()), (59, 1_500_000_000));
    let day_end_leap = Timestamp::from_unix(86_399, 1_200_000_000).unwrap();
    assert_eq!(parts(day_end_leap.minus_seconds(-1).unwrap()), (86_400, 200_000_000));
    assert_eq!(parts(day_end_leap.minus_seconds(1).unwrap()), (86_399, 200_000_000));
    let first = Timestamp::from_unix(-8_334_601_228_800, 0).unwrap();
    assert!(first.minus_seconds(1).is_none());
    assert_eq!(parts(first.minus_seconds(-1).unwrap()), (-8_334_601_228_799, 0));
    let last = Timestamp::from_unix(8_210_266_876_799, 5).unwrap();
    assert!(last.minus_seconds(-1).is_none());
    assert!(t.minus_seconds(i64::MAX / 1000).is_none());
    assert!(t.minus_seconds(i64::MAX / 1000 + 1).is_none());
    let big = Timestamp::from_unix(8_000_000_000_000, 0).unwrap();
    assert_eq!(parts(big.minus_seconds(8_000_000_000_000).unwrap()), (0, 0));
}
