use ducklake::{
    DateTimeValue, FromPhysical, FromPhysicalWithContext, Interval, IntoLogical, IntoPhysical, IntoPhysicalWithContext,
    MonthDayNano, TimeOfDay, TimeUnit, TimeWithTimezone,
};

#[test]
fn wide_integers_round_trip_little_endian() {
    let x: i128 = -2;
    let bytes = x.into_physical();
    assert_eq!(bytes, (-2i128).to_le_bytes());
    assert_eq!(i128::from_physical(&bytes[..]), -2);
    let y: u128 = 1 << 100;
    let bytes = y.into_physical();
    let back: u128 = (&bytes[..]).into_logical();
    assert_eq!(back, y);
}

#[test]
fn narrow_values_are_identity() {
    assert_eq!(i8::from_physical(&-5), -5);
    assert_eq!(7u32.into_physical(), 7);
    assert!(bool::from_physical(&true));
    assert_eq!(String::from_physical("abc"), "abc");
    assert_eq!(Vec::<u8>::from_physical(&[1u8, 2][..]), vec![1, 2]);
}

#[test]
fn time_of_day_from_micros_and_nanos() {
    let t = TimeOfDay::from_physical_with_context(&3_723_000_001, &TimeUnit::Microsecond);
    assert_eq!(t, TimeOfDay { secs: 3723, nanos: 1000 });
    let t = TimeOfDay::from_physical_with_context(&3_723_000_000_123, &TimeUnit::Nanosecond);
    assert_eq!(t, TimeOfDay { secs: 3723, nanos: 123 });
}

#[test]
fn time_with_timezone_round_trip() {
    let t = TimeWithTimezone { time: TimeOfDay { secs: 45_296, nanos: 789_000 }, offset_secs: -3600 };
    let bytes = t.into_physical();
    assert_eq!(TimeWithTimezone::from_physical(&bytes[..]), t);
}

#[test]
fn interval_round_trip() {
    let v = Interval { months: 14, micros: 90_061_000_001 };
    let p = v.into_physical();
    assert_eq!(p.months, 14);
    assert_eq!(p.days, 1);
    assert_eq!(p.nanoseconds, 3_661_000_001_000);
    assert_eq!(Interval::from_physical(&p), v);
    let q = MonthDayNano { months: 1, days: -1, nanoseconds: -5_000 };
    let back = Interval::from_physical(&q).into_physical();
    assert_eq!(back, q);
}

#[test]
fn time_of_day_to_micros() {
    let t = TimeOfDay { secs: 1, nanos: 1_500 };
    assert_eq!(t.into_physical(), 1_000_001);
}

#[test]
fn timestamps_scale_by_their_unit() {
    let d = DateTimeValue::from_physical_with_context(&1_500, &TimeUnit::Millisecond);
    assert_eq!(d, DateTimeValue { secs: 1, nanos: 500_000_000 });
    let before = DateTimeValue::from_physical_with_context(&-1_500, &TimeUnit::Millisecond);
    assert_eq!(before, DateTimeValue { secs: -2, nanos: 500_000_000 });
    assert_eq!(before.into_physical_with_context(&TimeUnit::Millisecond), -1_500);
    assert_eq!(before.into_physical_with_context(&TimeUnit::Second), -2);
    assert_eq!(before.into_physical_with_context(&TimeUnit::Microsecond), -1_500_000);
    let n = DateTimeValue::from_physical_with_context(&-1, &TimeUnit::Nanosecond);
    assert_eq!(n, DateTimeValue { secs: -1, nanos: 999_999_999 });
    assert_eq!(n.into_physical_with_context(&TimeUnit::Nanosecond), -1);
    let s = DateTimeValue::from_physical_with_context(&i64::MIN, &TimeUnit::Second);
    assert_eq!(s, DateTimeValue { secs: i64::MIN, nanos: 0 });
}

#[test]
fn checked_physical_reads_refuse_what_holds_no_value() {
    let t = TimeWithTimezone { time: TimeOfDay { secs: 45_296, nanos: 789_000 }, offset_secs: -3600 };
    let bytes = t.into_physical();
    assert_eq!(TimeWithTimezone::try_from_physical(&bytes[..]), Some(t));
    assert_eq!(TimeWithTimezone::try_from_physical(&bytes[..7]), None);
    // 86_400_000_000 microseconds is a whole day, past the last time of day.
    let day = 86_400_000_000i64.to_le_bytes();
    let past = [day[0], day[1], day[2], day[3], day[4], 0, 0, 0];
    assert_eq!(TimeWithTimezone::try_from_physical(&past[..]), None);
    // An offset of exactly one day (86_400 seconds) is refused.
    let off = 86_400i32.to_le_bytes();
    let far = [0, 0, 0, 0, 0, off[0], off[1], off[2]];
    assert_eq!(TimeWithTimezone::try_from_physical(&far[..]), None);

    let ok = MonthDayNano { months: 1, days: 2, nanoseconds: 3_999 };
    assert_eq!(Interval::try_from_physical(&ok), Some(Interval { months: 1, micros: 172_800_000_003 }));
    let huge = MonthDayNano { months: 0, days: i32::MAX, nanoseconds: i64::MAX };
    assert_eq!(Interval::try_from_physical(&huge), None);
}
