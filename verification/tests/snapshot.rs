use ducklake::{SnapshotHead, SnapshotInfo, UtcDateTime, UuidText};

fn info(id: i64) -> SnapshotInfo {
    SnapshotInfo { id, schema_version: 0, next_catalog_id: 1, next_file_id: 0, snapshot_time: UtcDateTime(0) }
}

#[test]
fn stale_snapshot_does_not_replace_current_snapshot() {
    // Arrange
    let mut cache = SnapshotHead::new(info(0));
    let stale = cache.get_current();
    let mut latest = stale;
    latest.id += 1;
    cache.insert_snapshot(latest);

    // Act
    cache.insert_snapshot(stale);

    // Assert
    assert_eq!(cache.get_current().id, latest.id);
}

#[test]
fn insert_snapshot_returns_current_for_same_id() {
    let mut head = SnapshotHead::new(info(5));
    let mut other = info(5);
    other.next_file_id = 99;
    assert_eq!(head.insert_snapshot(other), info(5));
    assert_eq!(head.get_snapshot(info(7)), info(7));
    assert_eq!(head.get_snapshot(other), info(5));
}

#[test]
fn synthesized_snapshot_has_negative_ids_and_epoch() {
    let s = SnapshotInfo::synthesize_for_schema_version(12, 3);
    assert_eq!(s, SnapshotInfo { id: 12, schema_version: 3, next_catalog_id: -1, next_file_id: -1, snapshot_time: UtcDateTime(0) });
    let m = s.metadata();
    assert_eq!(m.id, 12);
    assert_eq!(m.timestamp, UtcDateTime(0));
}

#[test]
fn uuid_v7_values_differ() {
    let a = ducklake::UuidText::now_v7().unwrap();
    let b = ducklake::UuidText::now_v7().unwrap();
    assert_ne!(a.0, b.0);
    assert_eq!((a.0 >> 76) & 0xF, 7);
    assert_eq!((a.0 >> 62) & 0x3, 2);
    let now_millis = (ducklake::UtcDateTime::now().unwrap().0 / 1000) as u128;
    let stamped = a.0 >> 80;
    assert!(stamped <= now_millis && now_millis - stamped < 60_000);
}

#[test]
fn micros_since_epoch_is_exact_and_bounded() {
    assert_eq!(ducklake::micros_since_epoch(1, 2_500), Some(1_000_002));
    assert_eq!(ducklake::micros_since_epoch(0, 999_999_999), Some(999_999));
    assert_eq!(ducklake::micros_since_epoch(9_223_372_036_854, 775_807_000), Some(i64::MAX));
    assert_eq!(ducklake::micros_since_epoch(9_223_372_036_854, 775_808_000), None);
    assert_eq!(ducklake::micros_since_epoch(u64::MAX, 0), None);
}

#[test]
fn v7_uuid_lays_out_time_version_and_random_bytes() {
    let bytes = [0xFF, 0x12, 0xFF, 3, 4, 5, 6, 7, 8, 9];
    let u = UuidText::v7_from_millis(0x0123_4567_89AB, &bytes);
    assert_eq!(u.0, 0x0123_4567_89AB_7F12_BF03_0405_0607_0809u128);
    let later = UuidText::v7_from_millis(0x0123_4567_89AC, &[0; 10]);
    assert!(later.0 > u.0);
    let wrapped = UuidText::v7_from_millis(0x1_0000_0000_0001, &[0; 10]);
    assert_eq!(wrapped.0 >> 80, 1);
}

#[test]
fn now_is_after_the_epoch_and_now_v7_is_version_seven() {
    let t = UtcDateTime::now().unwrap();
    assert!(t.0 > 1_600_000_000_000_000);
    let u = UuidText::now_v7().unwrap();
    assert_eq!((u.0 >> 76) & 0xF, 7);
    assert_eq!((u.0 >> 62) & 0x3, 2);
}
