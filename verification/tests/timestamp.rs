use diesel_dualdb::timestamp::Timestamp;

fn ts(secs: i64, nanos: u32) -> Timestamp {
    Timestamp::from_unix(secs, nanos).expect("valid instant")
}

#[test]
fn epoch_text() {
    assert_eq!(ts(0, 0).to_sqlite_text(), "1970-01-01T00:00:00.000000Z");
}

#[test]
fn sub_microsecond_is_truncated_in_the_text() {
    // 2010-01-01T00:00:00Z plus 123456789 ns.
    let t = ts(1_262_304_000, 123_456_789);
    assert_eq!(t.to_sqlite_text(), "2010-01-01T00:00:00.123456Z");
    let back = Timestamp::from_sqlite_text(&t.to_sqlite_text()).expect("parse");
    assert_eq!((back.secs(), back.nanos()), (1_262_304_000, 123_456_000));
}

#[test]
fn text_order_is_chronological() {
    let instants = [
        (0i64, 0u32),
        (0, 1_000),
        (0, 999_999_000),
        (1, 0),
        (59, 0),
        (60, 0),
        (86_399, 0),
        (86_400, 0),
        (1_262_304_000, 5_000),
        (1_700_000_000, 0),
        (253_402_300_799, 999_999_000),
    ];
    let texts: Vec<String> = instants.iter().map(|&(s, n)| ts(s, n).to_sqlite_text()).collect();
    for w in texts.windows(2) {
        assert!(w[0] < w[1], "{} !< {}", w[0], w[1]);
        assert_eq!(w[0].len(), w[1].len());
    }
}

#[test]
fn years_outside_four_digits_carry_a_sign() {
    // 10000-01-01T00:00:00Z
    assert_eq!(ts(253_402_300_800, 0).to_sqlite_text(), "+10000-01-01T00:00:00.000000Z");
    // One day before 0000-01-01.
    assert_eq!(ts(-62_167_219_200 - 86_400, 0).to_sqlite_text(), "-0001-12-31T00:00:00.000000Z");
}

#[test]
fn leap_second_shows_as_sixty() {
    // 2016-12-31T23:59:59Z, in its leap second.
    assert_eq!(ts(1_483_228_799, 1_500_000_000).to_sqlite_text(), "2016-12-31T23:59:60.500000Z");
}

#[test]
fn parsing_accepts_any_rfc3339_offset() {
    let t = Timestamp::from_sqlite_text("2010-01-01T01:00:00+01:00").expect("parse");
    assert_eq!((t.secs(), t.nanos()), (1_262_304_000, 0));
    let c = t.to_civil();
    assert_eq!((c.year, c.month, c.day, c.hour), (2010, 1, 1, 0));
}

#[test]
fn parse_errors_name_the_text() {
    let err = Timestamp::from_sqlite_text("nope").unwrap_err();
    assert!(err.starts_with("invalid RFC3339 timestamp \"nope\": "), "{err}");
}

#[test]
fn out_of_range_instants_are_refused() {
    assert!(Timestamp::from_unix(i64::MAX, 0).is_none());
    assert!(Timestamp::from_unix(0, 2_000_000_000).is_none());
}

#[test]
fn own_text_reads_back_truncated_to_micros() {
    let cases = [
        (1_780_931_045i64, 123_456_789u32), // 2026-06-08T15:04:05.123456789Z
        (0, 0),
        (-625_624_387, 0),                  // 1950-03-14T09:26:53Z
        (32_503_679_999, 999_999_999),       // 2999-12-31T23:59:59.999999999Z
        (-62_167_219_200, 1_000),            // 0000-01-01T00:00:00.000001Z
        (1_483_228_799, 1_500_000_123),      // the leap second of 2016
    ];
    for (secs, nanos) in cases {
        let t = ts(secs, nanos);
        let back = Timestamp::from_sqlite_text(&t.to_sqlite_text()).expect("own text parses");
        assert_eq!((back.secs(), back.nanos()), (secs, nanos - nanos % 1000), "{secs} {nanos}");
    }
}
