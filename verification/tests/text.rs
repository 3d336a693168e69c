use chrono::{Datelike, NaiveDate, Timelike};
use nv_core::util::{format_stamp, timestamp_title, timestamp_title_with_seconds, DateFields};

#[test]
fn blank_means_trim_is_empty() {
    for u in 0u32..=0x3100 {
        if let Some(c) = char::from_u32(u) {
            let one = c.to_string();
            assert_eq!(nv_core::text::is_blank(&one), one.trim().is_empty(), "U+{u:04X}");
            let framed = format!("{c}x{c}");
            assert!(!nv_core::text::is_blank(&framed));
        }
    }
    assert!(nv_core::text::is_blank(""));
    assert!(nv_core::text::is_blank(" \t\n\u{3000}"));
}

fn fields(year: i32, month: u32, day: u32, hour: u32, minute: u32, second: u32, nanosecond: u32) -> DateFields {
    DateFields { year, month, day, hour, minute, second, nanosecond }
}

#[test]
fn stamps_match_chrono_formatting() {
    let dates = [
        (2024, 9, 19, 15, 30, 5, 0),
        (1999, 1, 1, 0, 0, 0, 0),
        (5, 12, 31, 23, 59, 59, 999_999_999),
        (12345, 2, 3, 4, 5, 6, 0),
        (-44, 3, 15, 12, 0, 0, 0),
        (2016, 12, 31, 23, 59, 59, 1_500_000_000),
    ];
    for (y, mo, d, h, mi, s, ns) in dates {
        let t = NaiveDate::from_ymd_opt(y, mo, d)
            .unwrap()
            .and_hms_nano_opt(h, mi, s, ns)
            .unwrap();
        let f = fields(t.year(), t.month(), t.day(), t.hour(), t.minute(), t.second(), t.nanosecond());
        assert_eq!(format_stamp(f, false), t.format("%Y%m%d-%H%M").to_string());
        assert_eq!(format_stamp(f, true), t.format("%Y%m%d-%H%M%S").to_string());
        assert_eq!(nv_core::util::format_date(f), t.format("%Y-%m-%d %H:%M").to_string());
    }
}

#[test]
fn timestamp_titles_have_the_documented_shape() {
    let t = timestamp_title();
    assert_eq!(t.len(), 13);
    assert_eq!(t.as_bytes()[8], b'-');
    let s = timestamp_title_with_seconds();
    assert_eq!(s.len(), 15);
    assert!(s.bytes().enumerate().all(|(i, b)| if i == 8 { b == b'-' } else { b.is_ascii_digit() }));
}

#[test]
fn fields_or_millis_picks_the_branch() {
    let f = DateFields { year: 2024, month: 9, day: 19, hour: 15, minute: 30, second: 5, nanosecond: 0 };
    assert_eq!(nv_core::util::format_fields_or_millis(Some(f), 17), "2024-09-19 15:30");
    assert_eq!(nv_core::util::format_fields_or_millis(None, 17), "17");
    assert_eq!(nv_core::util::format_fields_or_millis(None, -42), "-42");
    assert_eq!(nv_core::util::format_fields_or_millis(None, i64::MIN), "-9223372036854775808");
}

#[test]
fn signed_decimal_text_of_edges() {
    assert_eq!(nv_core::util::signed_decimal_text(0), "0");
    assert_eq!(nv_core::util::signed_decimal_text(i64::MAX), "9223372036854775807");
    assert_eq!(nv_core::util::signed_decimal_text(-1), "-1");
}

#[test]
fn local_millis_out_of_range_fall_back_to_digits() {
    assert_eq!(nv_core::util::format_local_millis(i64::MAX), "9223372036854775807");
    assert_eq!(nv_core::util::format_local_millis(i64::MIN), "-9223372036854775808");
}

#[test]
fn local_millis_in_range_match_chrono() {
    for ms in [0i64, 1_726_759_800_123, -86_400_000 * 365 * 3000, 8_000_000_000_000_000, -8_000_000_000_000_000] {
        let t = chrono::DateTime::from_timestamp_millis(ms).unwrap().with_timezone(&chrono::Local);
        assert_eq!(nv_core::util::format_local_millis(ms), t.format("%Y-%m-%d %H:%M").to_string());
    }
}
