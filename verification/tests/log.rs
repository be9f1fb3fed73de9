use rsintercept::log::{line_at, log_line};

#[test]
fn a_line_holds_time_and_message() {
    assert_eq!(line_at("now", "hello"), "[now]: hello");
    assert_eq!(line_at("", ""), "[]: ");
}

#[test]
fn times_are_written_in_utc() {
    assert_eq!(log_line(0, "start").unwrap(), "[1970-01-01 00:00:00]: start");
    assert_eq!(log_line(1431648000, "x").unwrap(), "[2015-05-15 00:00:00]: x");
    assert_eq!(log_line(1709251199, "leap").unwrap(), "[2024-02-29 23:59:59]: leap");
}

#[test]
fn times_off_the_calendar_have_no_line() {
    assert_eq!(log_line(8210266876799, "last").unwrap(), "[+262142-12-31 23:59:59]: last");
    assert!(log_line(8210266876800, "x").is_none());
    assert!(log_line(i64::MAX as u64, "x").is_none());
    assert!(log_line(1 << 63, "x").is_none());
}

#[test]
fn the_upper_half_of_the_times_lies_before_1970() {
    assert_eq!(log_line(u64::MAX, "x").unwrap(), "[1969-12-31 23:59:59]: x");
    let first = (-8334601228800i64) as u64;
    assert_eq!(log_line(first, "x").unwrap(), "[-262143-01-01 00:00:00]: x");
    assert!(log_line(first - 1, "x").is_none());
}

#[test]
fn years_are_written_with_a_sign_beyond_four_digits() {
    assert_eq!(log_line(253402300799, "x").unwrap(), "[9999-12-31 23:59:59]: x");
    assert_eq!(log_line(253402300800, "x").unwrap(), "[+10000-01-01 00:00:00]: x");
    assert_eq!(log_line((-62135596800i64) as u64, "x").unwrap(), "[0001-01-01 00:00:00]: x");
    assert_eq!(log_line((-62167219200i64) as u64, "x").unwrap(), "[0000-01-01 00:00:00]: x");
    assert_eq!(log_line((-62167219201i64) as u64, "x").unwrap(), "[-0001-12-31 23:59:59]: x");
}

#[test]
fn centuries_are_leap_years_once_in_four() {
    assert_eq!(log_line(951782400, "x").unwrap(), "[2000-02-29 00:00:00]: x");
    assert_eq!(log_line(4107456000, "x").unwrap(), "[2100-02-28 00:00:00]: x");
    assert_eq!(log_line(4107542400, "x").unwrap(), "[2100-03-01 00:00:00]: x");
}

#[test]
fn lines_sort_by_time() {
    let times: [u64; 11] = [
        (-62167219200i64) as u64,
        u64::MAX,
        0,
        59,
        60,
        3599,
        86399,
        86400,
        1709251199,
        1709251200,
        253402300799,
    ];
    for i in 1..times.len() {
        let first = log_line(times[i - 1], "\u{2191} zzz").unwrap();
        let second = log_line(times[i], "").unwrap();
        assert!(first.as_bytes()[..23] < second.as_bytes()[..23]);
        assert!(first.as_bytes() < second.as_bytes());
        assert_eq!(&first.as_bytes()[23..], "\u{2191} zzz".as_bytes());
        let again = log_line(times[i], "other").unwrap();
        assert_eq!(second.as_bytes()[..23], again.as_bytes()[..23]);
    }
}
