use static_files::http_date::HttpDate;

#[test]
fn from_unix_epoch() {
    let date = HttpDate::from_unix(0).unwrap();
    assert_eq!(
        date,
        HttpDate { year: 1970, month: 1, day: 1, hour: 0, minute: 0, second: 0, weekday: 4 }
    );
    assert_eq!(date.format(), "Thu, 01 Jan 1970 00:00:00 GMT");
}

#[test]
fn from_unix_known_dates() {
    assert_eq!(HttpDate::from_unix(784111777).unwrap().format(), "Sun, 06 Nov 1994 08:49:37 GMT");
    assert_eq!(HttpDate::from_unix(951782400).unwrap().format(), "Tue, 29 Feb 2000 00:00:00 GMT");
    assert_eq!(HttpDate::from_unix(1700000000).unwrap().format(), "Tue, 14 Nov 2023 22:13:20 GMT");
    assert_eq!(HttpDate::from_unix(86399).unwrap().format(), "Thu, 01 Jan 1970 23:59:59 GMT");
    assert_eq!(HttpDate::from_unix(86400).unwrap().format(), "Fri, 02 Jan 1970 00:00:00 GMT");
    assert_eq!(HttpDate::from_unix(73267200).unwrap().format(), "Fri, 28 Apr 1972 00:00:00 GMT");
}

#[test]
fn from_unix_stops_after_year_9999() {
    assert_eq!(
        HttpDate::from_unix(253402300799).unwrap().format(),
        "Fri, 31 Dec 9999 23:59:59 GMT"
    );
    assert_eq!(HttpDate::from_unix(253402300800), None);
    assert_eq!(HttpDate::from_unix(u64::MAX), None);
}

#[test]
fn parse_fixed_length_date() {
    assert_eq!(
        HttpDate::parse("Sun, 06 Nov 1994 08:49:37 GMT"),
        Some(HttpDate {
            year: 1994,
            month: 11,
            day: 6,
            hour: 8,
            minute: 49,
            second: 37,
            weekday: 0
        })
    );
    assert_eq!(
        HttpDate::parse("Tue, 29 Feb 2000 23:59:59 GMT"),
        Some(HttpDate {
            year: 2000,
            month: 2,
            day: 29,
            hour: 23,
            minute: 59,
            second: 59,
            weekday: 2
        })
    );
}

#[test]
fn parse_rejects_what_is_no_date() {
    assert_eq!(HttpDate::parse(""), None);
    assert_eq!(HttpDate::parse("Sun, 06 Nov 1994 08:49:37 UTC"), None);
    assert_eq!(HttpDate::parse("Sun, 06 Nov 1994 08:49:37 GMT "), None);
    assert_eq!(HttpDate::parse("Sun, 6 Nov 1994 08:49:37 GMT"), None);
    assert_eq!(HttpDate::parse("Sun, 06 nov 1994 08:49:37 GMT"), None);
    assert_eq!(HttpDate::parse("Sun, 06 Nov 1994 24:00:00 GMT"), None);
    assert_eq!(HttpDate::parse("Sun, 06 Nov 1994 08:60:00 GMT"), None);
    assert_eq!(HttpDate::parse("Sun, 06 Nov 1994 08:49:60 GMT"), None);
    assert_eq!(HttpDate::parse("Sun, 00 Nov 1994 08:49:37 GMT"), None);
    assert_eq!(HttpDate::parse("Sun, 31 Nov 1994 08:49:37 GMT"), None);
    assert_eq!(HttpDate::parse("Mon, 29 Feb 1999 08:49:37 GMT"), None);
    assert_eq!(HttpDate::parse("Thu, 29 Feb 1900 08:49:37 GMT"), None);
    assert_eq!(HttpDate::parse("Xyz, 06 Nov 1994 08:49:37 GMT"), None);
    assert_eq!(HttpDate::parse("Sunday, 06-Nov-94 08:49:37 GMT"), None);
    assert_eq!(HttpDate::parse("Sun Nov  6 08:49:37 1994"), None);
    assert_eq!(HttpDate::parse("Sun, 06 Nov 19x4 08:49:37 GMT"), None);
}

#[test]
fn parse_reads_back_what_format_writes() {
    for secs in [0u64, 1, 59, 86399, 784111777, 951782400, 1700000000, 253402300799] {
        let date = HttpDate::from_unix(secs).unwrap();
        assert_eq!(HttpDate::parse(&date.format()), Some(date));
    }
}

#[test]
fn order_of_dates() {
    let a = HttpDate::parse("Sun, 06 Nov 1994 08:49:37 GMT").unwrap();
    let b = HttpDate::parse("Sun, 06 Nov 1994 08:49:38 GMT").unwrap();
    let c = HttpDate::parse("Sat, 01 Jan 1995 00:00:00 GMT").unwrap();
    let d = HttpDate::parse("Mon, 05 Dec 1994 23:00:00 GMT").unwrap();
    assert!(a.is_before(&b));
    assert!(!b.is_before(&a));
    assert!(!a.is_before(&a));
    assert!(b.is_before(&c));
    assert!(a.is_before(&d));
    assert!(d.is_before(&c));
    assert!(!c.is_before(&d));
}
