use telemt::time_sync::{
    check_time_sync, skew_to_report, time_sync_result, time_sync_result_from_date_header,
    TimeSyncResult, UtcTime,
};

fn at(secs: i64, nanos: u32) -> UtcTime {
    UtcTime { secs, nanos }
}

fn skew(server: UtcTime, local: UtcTime) -> (i64, bool) {
    let result = time_sync_result(server, local);
    assert_eq!((result.server_time, result.local_time), (server, local));
    (result.skew_secs, result.is_skewed)
}

#[test]
fn skew_is_counted_in_whole_seconds() {
    assert_eq!(skew(at(100, 0), at(130, 999_999_999)), (30, false));
    assert_eq!(skew(at(100, 0), at(131, 0)), (31, true));
    assert_eq!(skew(at(130, 999_999_999), at(100, 0)), (-30, false));
    assert_eq!(skew(at(131, 0), at(100, 0)), (-31, true));
    assert_eq!(skew(at(-5, 500_000_000), at(-5, 500_000_000)), (0, false));
}

#[test]
fn leap_seconds_count_once() {
    let before = at(1435708799, 0);
    let leap = at(1435708799, 1_500_000_000);
    let after = at(1435708800 + 3600, 0);
    assert!(leap.is_valid());
    assert_eq!(skew(before, leap), (1, false));
    assert_eq!(skew(leap, after), (3599, true));
    assert_eq!(skew(after, leap), (-3599, true));
    assert_eq!(skew(at(1435708790, 0), leap), (10, false));
    assert_eq!(skew(leap, at(1435708800 + 86_399, 0)).0, 86_398);
}

#[test]
fn date_header_is_compared_with_the_local_time() {
    let header = "Wed, 18 Feb 2015 23:16:09 GMT";
    let result = time_sync_result_from_date_header(header, at(1424301369 + 45, 7)).unwrap();
    assert_eq!(result.server_time, at(1424301369, 0));
    assert_eq!((result.skew_secs, result.is_skewed), (45, true));
    let offset = "Thu, 19 Feb 2015 00:16:09 +0100";
    let result = time_sync_result_from_date_header(offset, at(1424301369, 0)).unwrap();
    assert_eq!((result.skew_secs, result.is_skewed), (0, false));
}

#[test]
fn unreadable_date_header_gives_nothing() {
    assert_eq!(time_sync_result_from_date_header("yesterday", at(0, 0)), None);
    assert_eq!(time_sync_result_from_date_header("", at(0, 0)), None);
}

#[test]
fn times_outside_the_calendar_are_told() {
    assert!(at(0, 999_999_999).is_valid());
    assert!(!at(0, 1_000_000_000).is_valid());
    assert!(at(59, 1_999_999_999).is_valid());
    assert!(!at(59, 2_000_000_000).is_valid());
    assert!(at(-1, 1_000_000_000).is_valid());
    assert!(at(-8334601228800, 0).is_valid());
    assert!(!at(-8334601228801, 0).is_valid());
    assert!(at(8210266876799, 0).is_valid());
    assert!(!at(8210266876800, 0).is_valid());
    for t in [at(-8334601228800, 0), at(8210266876799, 1_999_999_999)] {
        assert!(chrono::DateTime::from_timestamp(t.secs, t.nanos).is_some());
    }
    for t in [at(-8334601228801, 0), at(8210266876800, 0), at(0, 1_000_000_000)] {
        assert!(chrono::DateTime::from_timestamp(t.secs, t.nanos).is_none());
    }
}

#[test]
fn whole_range_can_be_compared() {
    let (skew_secs, _) = skew(at(-8334601228800, 0), at(8210266876799, 0));
    assert_eq!(skew_secs, 8210266876799 + 8334601228800);
}

#[test]
fn comparison_over_https_is_switched_off() {
    assert_eq!(check_time_sync(), None);
}

#[test]
fn only_skewed_clocks_are_reported() {
    let result = |skew_secs, is_skewed| {
        Some(TimeSyncResult {
            server_time: at(0, 0),
            local_time: at(skew_secs, 0),
            skew_secs,
            is_skewed,
        })
    };
    assert_eq!(skew_to_report(&result(31, true)), Some(31));
    assert_eq!(skew_to_report(&result(30, false)), None);
    assert_eq!(skew_to_report(&None), None);
}
