use shell::datetime::{days_to_ymd, format_mtime, DateTime};

#[test]
fn epoch_day_is_first_of_january_1970() {
    assert_eq!(days_to_ymd(0), (1970, 1, 1));
}

#[test]
fn day_before_epoch() {
    assert_eq!(days_to_ymd(-1), (1969, 12, 31));
}

#[test]
fn leap_day_of_2000() {
    assert_eq!(days_to_ymd(11016), (2000, 2, 29));
    assert_eq!(days_to_ymd(11017), (2000, 3, 1));
}

#[test]
fn new_year_2024() {
    assert_eq!(days_to_ymd(19723), (2024, 1, 1));
}

#[test]
fn century_years_are_not_leap_unless_divisible_by_400() {
    assert_eq!(days_to_ymd(-25567), (1900, 1, 1));
    // 1900-02-28 is followed by 1900-03-01.
    assert_eq!(days_to_ymd(-25567 + 58), (1900, 2, 28));
    assert_eq!(days_to_ymd(-25567 + 59), (1900, 3, 1));
}

#[test]
fn far_dates() {
    assert_eq!(days_to_ymd(-719468), (0, 3, 1));
    assert_eq!(days_to_ymd(2932896), (9999, 12, 31));
    assert_eq!(days_to_ymd(-800000), (-221, 9, 4));
}

#[test]
fn year_is_truncated_to_32_bits() {
    assert_eq!(days_to_ymd(1_000_000_000_000), (-1557058320, 12, 27));
}

#[test]
fn datetime_from_seconds() {
    let t = DateTime::from_epoch_secs(Some(1_700_000_000));
    assert_eq!(t, DateTime { year: 2023, month: 11, day: 14, hour: 22, minute: 13 });
}

#[test]
fn datetime_from_seconds_beyond_the_signed_range() {
    let t = DateTime::from_epoch_secs(Some(u64::MAX));
    assert_eq!(t, DateTime { year: 1970, month: 1, day: 1, hour: 23, minute: 59 });
    let t = DateTime::from_epoch_secs(Some(u64::MAX - 172_859));
    assert_eq!(t, DateTime { year: 1969, month: 12, day: 30, hour: 23, minute: 59 });
    let t = DateTime::from_epoch_secs(Some(1u64 << 63));
    assert_eq!((t.hour, t.minute), (8, 29));
}

#[test]
fn datetime_before_epoch_is_epoch() {
    let t = DateTime::from_epoch_secs(None);
    assert_eq!(t, DateTime { year: 1970, month: 1, day: 1, hour: 0, minute: 0 });
}

#[test]
fn mtime_stamp() {
    assert_eq!(format_mtime(1_700_000_000), "2023-11-14 22:13");
    assert_eq!(format_mtime(0), "1970-01-01 00:00");
    assert_eq!(format_mtime(59), "1970-01-01 00:00");
    assert_eq!(format_mtime(3600 * 25 + 60 * 7), "1970-01-02 01:07");
}

#[test]
fn negative_mtime_counts_as_epoch() {
    assert_eq!(format_mtime(-5), "1970-01-01 00:00");
}

fn day_after(t: (i32, u8, u8)) -> (i32, u8, u8) {
    let (y, m, d) = t;
    let leap = y % 4 == 0 && (y % 100 != 0 || y % 400 == 0);
    let dim = match m {
        2 => if leap { 29 } else { 28 },
        4 | 6 | 9 | 11 => 30,
        _ => 31,
    };
    if d < dim {
        (y, m, d + 1)
    } else if m < 12 {
        (y, m + 1, 1)
    } else {
        (y + 1, 1, 1)
    }
}

#[test]
fn consecutive_days_are_consecutive_dates() {
    for n in [-719469i64, -25508, -1, 0, 58, 11015, 11016, 11322, 19722, 19781, 2_932_896] {
        assert_eq!(days_to_ymd(n + 1), day_after(days_to_ymd(n)), "day {}", n);
    }
    for n in -800i64..800 {
        assert_eq!(days_to_ymd(n + 1), day_after(days_to_ymd(n)), "day {}", n);
    }
}
