use http_dir::headers::{
    format_http_date, parse_http_date, IfModifiedSince, IfUnmodifiedSince, LastModified,
    MAX_HTTP_DATE_SECS,
};

#[test]
fn format_epoch() {
    assert_eq!(format_http_date(0), "Thu, 01 Jan 1970 00:00:00 GMT");
}

#[test]
fn format_2020() {
    assert_eq!(format_http_date(1577836800), "Wed, 01 Jan 2020 00:00:00 GMT");
}

#[test]
fn format_leap_day() {
    // 2020-02-29T12:34:56Z
    assert_eq!(format_http_date(1582979696), "Sat, 29 Feb 2020 12:34:56 GMT");
}

#[test]
fn format_last_moment() {
    assert_eq!(
        format_http_date(MAX_HTTP_DATE_SECS - 1),
        "Fri, 31 Dec 9999 23:59:59 GMT"
    );
}

#[test]
fn parse_2020() {
    assert_eq!(
        parse_http_date("Wed, 01 Jan 2020 00:00:00 GMT"),
        Some(1577836800)
    );
}

#[test]
fn parse_rejects_malformed() {
    assert_eq!(parse_http_date(""), None);
    assert_eq!(parse_http_date("Wed, 01 Jan 2020 00:00:00 UTC"), None);
    assert_eq!(parse_http_date("Xyz, 01 Jan 2020 00:00:00 GMT"), None);
    assert_eq!(parse_http_date("Wed, 32 Jan 2020 00:00:00 GMT"), None);
    assert_eq!(parse_http_date("Wed, 01 Jan 1969 00:00:00 GMT"), None);
    assert_eq!(parse_http_date("Wed, 29 Feb 2019 00:00:00 GMT"), None);
    assert_eq!(parse_http_date("Wed, 01 Jan 2020 24:00:00 GMT"), None);
}

#[test]
fn parse_accepts_any_weekday_name() {
    // The weekday field is not cross-checked against the date.
    assert_eq!(
        parse_http_date("Mon, 01 Jan 2020 00:00:00 GMT"),
        Some(1577836800)
    );
}

#[test]
fn round_trip_samples() {
    for &t in &[0u64, 1, 86399, 86400, 951827696, 1577836800, 4102444800, MAX_HTTP_DATE_SECS - 1] {
        assert_eq!(parse_http_date(&format_http_date(t)), Some(t));
    }
}

#[test]
fn conditional_comparisons() {
    let lm = LastModified::from_unix(1000).unwrap();
    let ims = IfModifiedSince::from_header_value(&format_http_date(1000)).unwrap();
    assert!(!ims.is_modified(&lm));
    let lm_newer = LastModified::from_unix(1001).unwrap();
    assert!(ims.is_modified(&lm_newer));
    let ius = IfUnmodifiedSince::from_header_value(&format_http_date(1000)).unwrap();
    assert!(ius.precondition_passes(&lm));
    assert!(!ius.precondition_passes(&lm_newer));
}

#[test]
fn last_modified_rejects_year_10000() {
    assert!(LastModified::from_unix(MAX_HTTP_DATE_SECS).is_none());
    let lm = LastModified::from_unix(1577836800).unwrap();
    assert_eq!(lm.to_date_string(), "Wed, 01 Jan 2020 00:00:00 GMT");
}
