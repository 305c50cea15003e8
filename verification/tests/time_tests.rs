use vrp_core::time::{parse_time, parse_time_window, TimeWindow};

#[test]
fn the_first_seconds_of_1970() {
    assert_eq!(parse_time("1970-01-01T00:00:00Z"), Some(0));
    assert_eq!(parse_time("1970-01-01T00:00:03Z"), Some(3));
    assert_eq!(parse_time("1970-01-01T00:00:10Z"), Some(10));
    assert_eq!(parse_time("1970-01-01T00:00:21Z"), Some(21));
    assert_eq!(parse_time("1970-01-01T00:16:40Z"), Some(1000));
    assert_eq!(parse_time("1970-01-02T00:00:00Z"), Some(86400));
}

#[test]
fn points_in_time_that_are_known() {
    assert_eq!(parse_time("2000-03-01T00:00:00Z"), Some(951868800));
    assert_eq!(parse_time("2020-02-29T12:34:56Z"), Some(1582979696));
    assert_eq!(parse_time("2001-09-09T01:46:40Z"), Some(1000000000));
    assert_eq!(parse_time("2038-01-19T03:14:08Z"), Some(2147483648));
    assert_eq!(parse_time("1969-12-31T23:59:59Z"), Some(-1));
    assert_eq!(parse_time("1900-01-01T00:00:00Z"), Some(-2208988800));
    assert_eq!(parse_time("0000-01-01T00:00:00Z"), Some(-62167219200));
    assert_eq!(parse_time("9999-12-31T23:59:59Z"), Some(253402300799));
}

#[test]
fn leap_years_have_a_29th_of_february() {
    assert!(parse_time("2020-02-29T00:00:00Z").is_some());
    assert!(parse_time("2000-02-29T00:00:00Z").is_some());
    assert!(parse_time("0000-02-29T00:00:00Z").is_some());
    assert!(parse_time("2019-02-29T00:00:00Z").is_none());
    assert!(parse_time("1900-02-29T00:00:00Z").is_none());
    assert!(parse_time("2100-02-29T00:00:00Z").is_none());
    assert!(parse_time("2020-02-30T00:00:00Z").is_none());
}

#[test]
fn every_month_has_its_days() {
    let lengths = [31, 28, 31, 30, 31, 30, 31, 31, 30, 31, 30, 31];
    let mut expected = 1609459200i64;
    for (index, length) in lengths.iter().enumerate() {
        let month = index + 1;
        assert_eq!(parse_time(&format!("2021-{:02}-01T00:00:00Z", month)), Some(expected));
        assert!(parse_time(&format!("2021-{:02}-{:02}T00:00:00Z", month, length)).is_some());
        assert!(parse_time(&format!("2021-{:02}-{:02}T00:00:00Z", month, length + 1)).is_none());
        expected += 86400 * length;
    }
    assert_eq!(parse_time("2022-01-01T00:00:00Z"), Some(expected));
}

#[test]
fn dates_and_times_that_do_not_exist() {
    assert_eq!(parse_time("1970-00-01T00:00:00Z"), None);
    assert_eq!(parse_time("1970-13-01T00:00:00Z"), None);
    assert_eq!(parse_time("1970-01-00T00:00:00Z"), None);
    assert_eq!(parse_time("1970-01-32T00:00:00Z"), None);
    assert_eq!(parse_time("1970-01-01T24:00:00Z"), None);
    assert_eq!(parse_time("1970-01-01T00:60:00Z"), None);
    assert_eq!(parse_time("1970-01-01T00:00:60Z"), None);
    assert_eq!(parse_time("1970-01-01T23:59:59Z"), Some(86399));
}

#[test]
fn texts_of_another_shape() {
    assert_eq!(parse_time(""), None);
    assert_eq!(parse_time("1970-01-01"), None);
    assert_eq!(parse_time("1970-01-01T00:00:00"), None);
    assert_eq!(parse_time("1970-01-01T00:00:00z"), None);
    assert_eq!(parse_time("1970-01-01t00:00:00Z"), None);
    assert_eq!(parse_time("1970-01-01 00:00:00Z"), None);
    assert_eq!(parse_time("1970/01/01T00:00:00Z"), None);
    assert_eq!(parse_time("1970-01-01T00.00.00Z"), None);
    assert_eq!(parse_time("1970-01-01T00:00:00ZZ"), None);
    assert_eq!(parse_time("197a-01-01T00:00:00Z"), None);
    assert_eq!(parse_time("1970-01-01T00:00:0 Z"), None);
    assert_eq!(parse_time("+970-01-01T00:00:00Z"), None);
    assert_eq!(parse_time("1970-01-01T00:00:00+00:00"), None);
    assert_eq!(parse_time("1970-01-01T00:00:0\u{e9}"), None);
    assert_eq!(parse_time("\u{661}970-01-01T00:00:0Z"), None);
}

#[test]
fn a_time_window_has_a_start_and_an_end() {
    let tw = vec!["1970-01-01T00:00:10Z".to_string(), "1970-01-01T00:00:15Z".to_string()];
    assert_eq!(parse_time_window(&tw), Some(TimeWindow { start: 10, end: 15 }));
    let tw = vec!["1970-01-01T00:00:15Z".to_string(), "1970-01-01T00:00:10Z".to_string()];
    assert_eq!(parse_time_window(&tw), Some(TimeWindow { start: 15, end: 10 }));
}

#[test]
fn there_is_no_time_window_without_both_points() {
    let tw = vec!["1970-01-01T00:00:10Z".to_string(), "soon".to_string()];
    assert_eq!(parse_time_window(&tw), None);
    let tw = vec!["".to_string(), "1970-01-01T00:00:10Z".to_string()];
    assert_eq!(parse_time_window(&tw), None);
}
