use filedate::fields::parse_date;
use filedate::fields::parse_hour;
use filedate::fields::parse_minute_second;
use filedate::fields::parse_month;
use filedate::fields::parse_year;
use filedate::model::CalendarDate;
use filedate::model::ClockTime;
use filedate::scan::parse_file_name;

#[test]
fn parse_year_good() {
    let year = parse_year("2019", 0).expect("match 2019").1;
    assert_eq!(year, 2019);
    let year = parse_year("2020", 0).expect("match 2020").1;
    assert_eq!(year, 2020);
    let year = parse_year("2021", 0).expect("match 2021").1;
    assert_eq!(year, 2021);
}

#[test]
fn parse_year_bad() {
    assert!(parse_year("1990", 0).is_none(), "no-match 1990");
    assert!(parse_year("2500", 0).is_none(), "no-match 2500");
}

#[test]
fn parse_hour_good() {
    let hour = parse_hour("00", 0).expect("match 00").1;
    assert_eq!(hour, 0);
    let hour = parse_hour("01", 0).expect("match 01").1;
    assert_eq!(hour, 1);
    let hour = parse_hour("09", 0).expect("match 09").1;
    assert_eq!(hour, 9);
    let hour = parse_hour("10", 0).expect("match 10").1;
    assert_eq!(hour, 10);
    let hour = parse_hour("11", 0).expect("match 11").1;
    assert_eq!(hour, 11);
    let hour = parse_hour("19", 0).expect("match 19").1;
    assert_eq!(hour, 19);
    let hour = parse_hour("20", 0).expect("match 20").1;
    assert_eq!(hour, 20);
    let hour = parse_hour("23", 0).expect("match 23").1;
    assert_eq!(hour, 23);
}

#[test]
fn parse_hour_bad() {
    assert!(parse_hour("24", 0).is_none(), "no-match 24");
    assert!(parse_hour("30", 0).is_none(), "no-match 30");
}

#[test]
fn parse_month_boundaries() {
    assert_eq!(parse_month("00", 0), Some((2, 0)));
    assert_eq!(parse_month("09", 0), Some((2, 9)));
    assert_eq!(parse_month("10", 0), Some((2, 10)));
    assert_eq!(parse_month("12", 0), Some((2, 12)));
    assert!(parse_month("13", 0).is_none());
    assert!(parse_month("20", 0).is_none());
    assert!(parse_month("99", 0).is_none());
}

#[test]
fn parse_day_quirk_boundaries() {
    assert_eq!(parse_date("01", 0), Some((2, 1)));
    assert_eq!(parse_date("09", 0), Some((2, 9)));
    assert_eq!(parse_date("11", 0), Some((2, 11)));
    assert_eq!(parse_date("19", 0), Some((2, 19)));
    assert_eq!(parse_date("21", 0), Some((2, 21)));
    assert_eq!(parse_date("29", 0), Some((2, 29)));
    assert_eq!(parse_date("30", 0), Some((2, 30)));
    assert_eq!(parse_date("31", 0), Some((2, 31)));
    assert!(parse_date("00", 0).is_none());
    assert!(parse_date("10", 0).is_none());
    assert!(parse_date("20", 0).is_none());
    assert!(parse_date("32", 0).is_none());
    assert!(parse_date("99", 0).is_none());
}

#[test]
fn parse_minute_second_boundaries() {
    assert_eq!(parse_minute_second("00", 0), Some((2, 0)));
    assert_eq!(parse_minute_second("59", 0), Some((2, 59)));
    assert!(parse_minute_second("60", 0).is_none());
    assert!(parse_minute_second("99", 0).is_none());
}

#[test]
fn validators_fail_on_short_input() {
    assert!(parse_year("201", 0).is_none());
    assert!(parse_year("", 0).is_none());
    assert!(parse_hour("2", 0).is_none());
    assert!(parse_month("1", 0).is_none());
    assert!(parse_date("3", 0).is_none());
    assert!(parse_minute_second("5", 0).is_none());
}

#[test]
fn validators_match_mid_string() {
    assert_eq!(parse_year("xx2020", 2), Some((6, 2020)));
    assert_eq!(parse_hour("xx23", 2), Some((4, 23)));
}

fn check_full(input: &str, expected: (u32, u32, u32, u32, u32, u32)) {
    let ts = parse_file_name(input).expect(input);
    assert_eq!(
        ts.date,
        CalendarDate { year: expected.0, month: expected.1, day: expected.2 }
    );
    assert_eq!(
        ts.time,
        ClockTime { hour: expected.3, minute: expected.4, second: expected.5 }
    );
}

#[test]
fn full_date() {
    check_full("2020-02-03", (2020, 2, 3, 0, 0, 0));
}

#[test]
fn full_time() {
    check_full("03:04:05", (2000, 1, 1, 3, 4, 5));
}

#[test]
fn full_date_time() {
    check_full("2020-02-03 03:04:05", (2020, 2, 3, 3, 4, 5));
}

#[test]
fn date_with_junk() {
    check_full("qwe2020-02-03rty", (2020, 2, 3, 0, 0, 0));
}

#[test]
fn time_with_junk() {
    check_full("qwe03:04:05rty", (2000, 1, 1, 3, 4, 5));
}

#[test]
fn date_time_junk_around() {
    check_full("qwe2020-02-03 03:04:05rty", (2020, 2, 3, 3, 4, 5));
}

#[test]
fn date_time_junk_between() {
    check_full("qwe2020-02-03asd03:04:05rty", (2020, 2, 3, 3, 4, 5));
}

#[test]
fn full_datetime_max() {
    check_full("2199-12-31-23-59-59", (2199, 12, 31, 23, 59, 59));
}

#[test]
fn compact_date_without_separators() {
    check_full("20200203", (2020, 2, 3, 0, 0, 0));
}

#[test]
fn separator_runs_between_fields() {
    check_full("2020T_-., \t02,,03", (2020, 2, 3, 0, 0, 0));
}

#[test]
fn month_zero_is_kept() {
    check_full("2020-00-03", (2020, 0, 3, 0, 0, 0));
}

#[test]
fn last_date_wins() {
    check_full("2019-01-01junk2020-02-03", (2020, 2, 3, 0, 0, 0));
}

#[test]
fn last_time_wins() {
    check_full("01:02:03junk04:05:06", (2000, 1, 1, 4, 5, 6));
}

#[test]
fn rescan_of_matched_text_agrees() {
    let embedded = parse_file_name("qwe2020-02-03rty").expect("embedded");
    let alone = parse_file_name("2020-02-03").expect("alone");
    assert_eq!(embedded, alone);
    let t_embedded = parse_file_name("qwe03:04:05rty").expect("embedded time");
    let t_alone = parse_file_name("03:04:05").expect("alone time");
    assert_eq!(t_embedded, t_alone);
}

#[test]
fn greedy_scan_may_span_a_boundary() {
    // After "2019-01-01" and the filler "x", the scanner commits to the
    // date starting at the next "2020...", reading "2020", "01", "01";
    // the trailing "01" alone no longer forms a match.
    check_full("2019-01-01x2020010101", (2020, 1, 1, 0, 0, 0));
}

#[test]
fn empty_name_is_rejected() {
    assert!(parse_file_name("").is_err());
}

#[test]
fn no_match_gives_defaults() {
    check_full("notes.txt", (2000, 1, 1, 0, 0, 0));
}
