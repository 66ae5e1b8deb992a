use cargo_sysroot::date::Date;

#[test]
fn next_day_within_month() {
    let d = Date { year: 2016, month: 3, day: 14 };
    assert_eq!(d.succ(), Date { year: 2016, month: 3, day: 15 });
}

#[test]
fn next_day_at_month_end() {
    let d = Date { year: 2016, month: 4, day: 30 };
    assert_eq!(d.succ(), Date { year: 2016, month: 5, day: 1 });
}

#[test]
fn next_day_in_leap_february() {
    let d = Date { year: 2016, month: 2, day: 28 };
    assert_eq!(d.succ(), Date { year: 2016, month: 2, day: 29 });
    let e = Date { year: 2016, month: 2, day: 29 };
    assert_eq!(e.succ(), Date { year: 2016, month: 3, day: 1 });
}

#[test]
fn next_day_in_common_february() {
    let d = Date { year: 2015, month: 2, day: 28 };
    assert_eq!(d.succ(), Date { year: 2015, month: 3, day: 1 });
}

#[test]
fn century_years_follow_leap_rule() {
    let not_leap = Date { year: 1900, month: 2, day: 28 };
    assert_eq!(not_leap.succ(), Date { year: 1900, month: 3, day: 1 });
    let leap = Date { year: 2000, month: 2, day: 28 };
    assert_eq!(leap.succ(), Date { year: 2000, month: 2, day: 29 });
}

#[test]
fn next_day_at_year_end() {
    let d = Date { year: 2015, month: 12, day: 31 };
    assert_eq!(d.succ(), Date { year: 2016, month: 1, day: 1 });
}

#[test]
fn formats_with_zero_padding() {
    let d = Date { year: 2016, month: 3, day: 5 };
    assert_eq!(d.format_ymd(), "2016-03-05");
}

#[test]
fn parses_dashed_decimal_form() {
    assert_eq!(
        Date::parse_ymd("2016-03-05"),
        Some(Date { year: 2016, month: 3, day: 5 })
    );
}

#[test]
fn rejects_malformed_dates() {
    assert_eq!(Date::parse_ymd("2016-13-05"), None);
    assert_eq!(Date::parse_ymd("2015-02-29"), None);
    assert_eq!(Date::parse_ymd("16-3-5"), None);
    assert_eq!(Date::parse_ymd("2016/03/05"), None);
    assert_eq!(Date::parse_ymd(""), None);
    assert_eq!(Date::parse_ymd("2016-03-055"), None);
}

#[test]
fn boundary_years_parse_and_format() {
    let last = Date { year: 9999, month: 12, day: 31 };
    assert_eq!(Date::parse_ymd("9999-12-31"), Some(last));
    assert_eq!(last.format_ymd(), "9999-12-31");
    assert_eq!(Date::parse_ymd("0999-12-31"), None);
}

#[test]
fn format_then_parse_is_identity() {
    let d = Date { year: 2016, month: 2, day: 29 };
    assert_eq!(Date::parse_ymd(&d.format_ymd()), Some(d));
    let e = Date { year: 1000, month: 1, day: 1 };
    assert_eq!(Date::parse_ymd(&e.format_ymd()), Some(e));
}
