//! Snapshots of the catalog: their identity, and which one a connection sees as current.
use vstd::prelude::*;

verus! {

/// A point in time (UTC), as microseconds since the Unix epoch.
#[derive(Debug, Clone, Copy, PartialEq, Eq, Structural)]
pub struct UtcDateTime(pub i64);

/// The time elapsed since the Unix epoch (std `SystemTime::elapsed` on `UNIX_EPOCH`), as whole
/// seconds and the nanoseconds past them; `None` when the system clock is before the epoch.
/// Which time it is depends on the clock: only that the nanoseconds stay below a second (as
/// `Duration::subsec_nanos` documents) is stated.
#[verifier::external_body]
fn elapsed_since_epoch() -> (r: Option<(u64, u32)>)
    ensures
        r matches Some(t) ==> t.1 < 1_000_000_000,
{
    std::time::UNIX_EPOCH.elapsed().ok().map(|d| (d.as_secs(), d.subsec_nanos()))
}

/// Ten bytes from the operating system's random source (`getrandom::fill`); `None` when the
/// source fails. Nothing is stated of the bytes.
#[verifier::external_body]
fn random_bytes() -> (r: Option<[u8; 10]>) {
    let mut bytes = [0u8; 10];
    getrandom::fill(&mut bytes).ok().map(|_| bytes)
}

/// The 128 bits (most significant first) of the version-7 UUID made from a Unix time in
/// milliseconds and ten counter or random bytes: the low 48 bits of the time, the version `7`,
/// the low four bits of the first byte and all of the second, the RFC 4122 variant bits `10`,
/// the low six bits of the third byte, then the other seven bytes.
pub open spec fn v7_word(
    millis: u64,
    b0: u8,
    b1: u8,
    b2: u8,
    b3: u8,
    b4: u8,
    b5: u8,
    b6: u8,
    b7: u8,
    b8: u8,
    b9: u8,
) -> u128 {
    ((millis as u128 & 0xFFFF_FFFF_FFFFu128) << 80u128) | (0x7u128 << 76u128) | (((b0 as u128) & 0xFu128)
        << 72u128) | ((b1 as u128) << 64u128) | (0x2u128 << 62u128) | (((b2 as u128) & 0x3Fu128) << 56u128) | ((
    b3 as u128) << 48u128) | ((b4 as u128) << 40u128) | ((b5 as u128) << 32u128) | ((b6 as u128) << 24u128) | ((
    b7 as u128) << 16u128) | ((b8 as u128) << 8u128) | (b9 as u128)
}

/// The version-7 UUID of a time in milliseconds and a sequence of ten bytes (see `v7_word`).
pub open spec fn uuid_v7_layout(millis: u64, b: Seq<u8>) -> u128 {
    v7_word(millis, b[0], b[1], b[2], b[3], b[4], b[5], b[6], b[7], b[8], b[9])
}

/// The version-7 UUID (as its 128 bits) that `uuid::Builder::from_unix_timestamp_millis`
/// builds from a Unix time in milliseconds and ten counter or random bytes; its source lays
/// the bits out as `uuid_v7_layout` says.
#[verifier::external_body]
fn uuid_v7_bits(millis: u64, random: &[u8; 10]) -> (r: u128)
    ensures
        r == uuid_v7_layout(millis, random@),
{
    uuid::Builder::from_unix_timestamp_millis(millis, random).into_uuid().as_u128()
}

/// A UUID's 128 bits carry version `7` and the RFC 4122 variant.
pub open spec fn uuid_is_v7(v: u128) -> bool {
    &&& (v >> 76u128) & 0xFu128 == 7
    &&& (v >> 62u128) & 0x3u128 == 2
}

/// The microseconds since the Unix epoch of a time given as whole seconds and the nanoseconds
/// past them (cut down to whole microseconds); `None` when that does not fit in an `i64`.
pub fn micros_since_epoch(secs: u64, nanos: u32) -> (r: Option<i64>)
    ensures
        r == if secs * 1_000_000 + nanos / 1000 <= i64::MAX {
            Some((secs * 1_000_000 + nanos / 1000) as i64)
        } else {
            None
        },
{
    if secs > 9_223_372_036_854u64 {
        return None;
    }
    let m: u64 = secs * 1_000_000 + (nanos / 1000) as u64;
    if m <= 9_223_372_036_854_775_807u64 {
        Some(m as i64)
    } else {
        None
    }
}

/// The current time in microseconds since the Unix epoch; `None` when the clock is before the
/// epoch or too far after it for an `i64`.
fn now_micros() -> (r: Option<i64>)
    ensures
        r matches Some(m) ==> m >= 0,
{
    match elapsed_since_epoch() {
        Some((secs, nanos)) => micros_since_epoch(secs, nanos),
        None => None,
    }
}

impl UtcDateTime {
    /// The current time; `None` when the system clock is before the Unix epoch (or beyond what
    /// microseconds in an `i64` can hold).
    pub fn now() -> (r: Option<UtcDateTime>)
        ensures
            r matches Some(t) ==> t.0 >= 0,
    {
        match now_micros() {
            Some(m) => Some(UtcDateTime(m)),
            None => None,
        }
    }
}

/// A UUID stored as text in the catalog database, held as its 128 bits (most significant byte
/// first).
#[derive(Debug, Clone, Copy, PartialEq, Eq, Structural)]
pub struct UuidText(pub u128);

impl UuidText {
    /// A fresh version-7 UUID: the current Unix time in milliseconds followed by random bits.
    /// `None` when the clock is before the epoch or the random source fails.
    pub fn now_v7() -> (r: Option<UuidText>)
        ensures
            r matches Some(u) ==> uuid_is_v7(u.0),
    {
        let micros = now_micros();
        let random = random_bytes();
        match (micros, random) {
            (Some(m), Some(bytes)) => Some(UuidText::v7_from_millis((m / 1000) as u64, &bytes)),
            _ => None,
        }
    }

    /// The version-7 UUID of a Unix time in milliseconds and ten counter or random bytes, laid
    /// out as `uuid_v7_layout` says: the time's low 48 bits lead, and the version and variant
    /// are those of a version-7 UUID.
    pub fn v7_from_millis(millis: u64, random: &[u8; 10]) -> (r: UuidText)
        ensures
            r.0 == uuid_v7_layout(millis, random@),
            r.0 >> 80u128 == (millis as u128) % 0x1_0000_0000_0000u128,
            uuid_is_v7(r.0),
    {
        let r = uuid_v7_bits(millis, random);
        let b0 = random[0];
        let b1 = random[1];
        let b2 = random[2];
        let b3 = random[3];
        let b4 = random[4];
        let b5 = random[5];
        let b6 = random[6];
        let b7 = random[7];
        let b8 = random[8];
        let b9 = random[9];
        assert(r == v7_word(millis, b0, b1, b2, b3, b4, b5, b6, b7, b8, b9));
        assert(r >> 80u128 == (millis as u128) % 0x1_0000_0000_0000u128 && (r >> 76u128) & 0xFu128 == 7 && (r
            >> 62u128) & 0x3u128 == 2) by (bit_vector)
            requires
                r == v7_word(millis, b0, b1, b2, b3, b4, b5, b6, b7, b8, b9),
        ;
        UuidText(r)
    }
}

/// The time of a version-7 UUID leads its bits: of two UUIDs made in different milliseconds
/// (before the 48-bit time wraps), the later one is the larger, whatever their other bytes.
pub proof fn lemma_v7_time_order(m1: u64, m2: u64, b: Seq<u8>, c: Seq<u8>)
    requires
        m1 < m2 < 0x1_0000_0000_0000u64,
    ensures
        uuid_v7_layout(m1, b) < uuid_v7_layout(m2, c),
{
    let x = uuid_v7_layout(m1, b);
    let y = uuid_v7_layout(m2, c);
    let (b0, b1, b2, b3, b4, b5, b6, b7, b8, b9) = (b[0], b[1], b[2], b[3], b[4], b[5], b[6], b[7], b[8], b[9]);
    let (c0, c1, c2, c3, c4, c5, c6, c7, c8, c9) = (c[0], c[1], c[2], c[3], c[4], c[5], c[6], c[7], c[8], c[9]);
    assert(x >> 80u128 == m1 as u128) by (bit_vector)
        requires
            x == v7_word(m1, b0, b1, b2, b3, b4, b5, b6, b7, b8, b9),
            m1 < 0x1_0000_0000_0000u64,
    ;
    assert(y >> 80u128 == m2 as u128) by (bit_vector)
        requires
            y == v7_word(m2, c0, c1, c2, c3, c4, c5, c6, c7, c8, c9),
            m2 < 0x1_0000_0000_0000u64,
    ;
    assert(x < y) by (bit_vector)
        requires
            x >> 80u128 < y >> 80u128,
    ;
}

/// A row of `ducklake_snapshot`.
#[derive(Debug, Clone, Copy)]
pub struct DucklakeSnapshot {
    pub snapshot_id: i64,
    pub snapshot_time: UtcDateTime,
    pub schema_version: i64,
    pub next_catalog_id: i64,
    pub next_file_id: i64,
}

/// What identifies a snapshot and the state of the catalog at it.
#[derive(Debug, Clone, Copy, PartialEq, Eq, Structural)]
pub struct SnapshotInfo {
    pub id: i64,
    pub schema_version: i64,
    pub next_catalog_id: i64,
    pub next_file_id: i64,
    pub snapshot_time: UtcDateTime,
}

/// The ID and commit time of a snapshot.
#[derive(Debug, Clone, Copy, PartialEq, Eq, Structural)]
pub struct SnapshotMetadata {
    pub id: i64,
    pub timestamp: UtcDateTime,
}

impl SnapshotInfo {
    /// The snapshot a `ducklake_snapshot` row describes.
    pub fn from_row(row: DucklakeSnapshot) -> (r: SnapshotInfo)
        ensures
            r == (SnapshotInfo {
                id: row.snapshot_id,
                schema_version: row.schema_version,
                next_catalog_id: row.next_catalog_id,
                next_file_id: row.next_file_id,
                snapshot_time: row.snapshot_time,
            }),
    {
        SnapshotInfo {
            id: row.snapshot_id,
            schema_version: row.schema_version,
            next_catalog_id: row.next_catalog_id,
            next_file_id: row.next_file_id,
            snapshot_time: row.snapshot_time,
        }
    }

    /// A stand-in for a snapshot of a schema version whose snapshots were all expired: the
    /// earliest snapshot that begins the schema version, with negative catalog and file IDs
    /// (which no real snapshot has) and the epoch as its time.
    pub fn synthesize_for_schema_version(begin_snapshot: i64, schema_version: i64) -> (r: SnapshotInfo)
        ensures
            r == (SnapshotInfo {
                id: begin_snapshot,
                schema_version,
                next_catalog_id: -1i64,
                next_file_id: -1i64,
                snapshot_time: UtcDateTime(0i64),
            }),
    {
        SnapshotInfo { id: begin_snapshot, schema_version, next_catalog_id: -1, next_file_id: -1, snapshot_time: UtcDateTime(0) }
    }

    /// The ID and time of this snapshot.
    pub fn metadata(&self) -> (r: SnapshotMetadata)
        ensures
            r == (SnapshotMetadata { id: self.id, timestamp: self.snapshot_time }),
    {
        SnapshotMetadata { id: self.id, timestamp: self.snapshot_time }
    }
}

/// The snapshot a connection currently sees. It only moves forward: an older snapshot that a
/// concurrent lookup returns after a newer commit does not replace it.
#[derive(Debug)]
pub struct SnapshotHead {
    current: SnapshotInfo,
}

impl SnapshotHead {
    pub closed spec fn current_spec(&self) -> SnapshotInfo {
        self.current
    }

    pub fn new(info: SnapshotInfo) -> (r: SnapshotHead)
        ensures
            r.current_spec() == info,
    {
        SnapshotHead { current: info }
    }

    /// The current snapshot.
    pub fn get_current(&self) -> (r: SnapshotInfo)
        ensures
            r == self.current_spec(),
    {
        self.current
    }

    /// Takes note of a snapshot: it becomes current if it is newer than the current one.
    /// Returns the snapshot to use: the current one if it has the same ID, else the given one.
    pub fn insert_snapshot(&mut self, info: SnapshotInfo) -> (r: SnapshotInfo)
        ensures
            r == if old(self).current_spec().id == info.id {
                old(self).current_spec()
            } else {
                info
            },
            final(self).current_spec() == if info.id > old(self).current_spec().id {
                info
            } else {
                old(self).current_spec()
            },
    {
        if self.current.id == info.id {
            return self.current;
        }
        if info.id > self.current.id {
            self.current = info;
        }
        info
    }

    /// The snapshot to use for `info`, without moving the head: the current one if it has the
    /// same ID, else the given one.
    pub fn get_snapshot(&self, info: SnapshotInfo) -> (r: SnapshotInfo)
        ensures
            r == if self.current_spec().id == info.id {
                self.current_spec()
            } else {
                info
            },
    {
        if self.current.id == info.id {
            self.current
        } else {
            info
        }
    }
}

/// The head never moves back: after taking note of any snapshot, the current snapshot's ID is
/// the larger of the two IDs, so a stale snapshot never replaces a newer current one.
pub proof fn lemma_head_monotone(before: SnapshotInfo, info: SnapshotInfo, after: SnapshotInfo)
    requires
        after == if info.id > before.id {
            info
        } else {
            before
        },
    ensures
        after.id >= before.id,
        after.id >= info.id,
        after.id == before.id || after.id == info.id,
{
}

} // verus!
