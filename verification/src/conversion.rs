//! Conversions between logical values and their physical (Arrow) representation.
use vstd::prelude::*;

verus! {

/// Logical types that can be built from their physical Arrow representation.
pub trait FromPhysical: Sized {
    type ArrowType: ?Sized;

    /// The physical values the conversion accepts.
    spec fn accepts(value: &Self::ArrowType) -> bool;

    /// `r` is the logical value of the physical `value`.
    spec fn logical_of(value: &Self::ArrowType, r: Self) -> bool;

    fn from_physical(value: &Self::ArrowType) -> (r: Self)
        requires
            Self::accepts(value),
        ensures
            Self::logical_of(value, r),
    ;
}

/// Logical types that can be built from their physical Arrow representation and some context
/// (such as a time unit).
pub trait FromPhysicalWithContext: Sized {
    type ArrowType: ?Sized;
    type Context;

    spec fn accepts(value: &Self::ArrowType, context: &Self::Context) -> bool;

    spec fn logical_of(value: &Self::ArrowType, context: &Self::Context, r: Self) -> bool;

    fn from_physical_with_context(value: &Self::ArrowType, context: &Self::Context) -> (r: Self)
        requires
            Self::accepts(value, context),
        ensures
            Self::logical_of(value, context, r),
    ;
}

/// Logical types that can be turned into their physical Arrow representation.
pub trait IntoPhysical: Sized {
    type ArrowType;

    /// The logical values the conversion accepts.
    spec fn convertible(&self) -> bool;

    /// `r` is the physical representation of this value.
    spec fn physical_of(self, r: Self::ArrowType) -> bool;

    fn into_physical(self) -> (r: Self::ArrowType)
        requires
            self.convertible(),
        ensures
            self.physical_of(r),
    ;
}

/// Logical types that can be turned into their physical Arrow representation given some
/// context.
pub trait IntoPhysicalWithContext: Sized {
    type ArrowType;
    type Context;

    spec fn convertible(&self, context: &Self::Context) -> bool;

    spec fn physical_of(self, context: &Self::Context, r: Self::ArrowType) -> bool;

    fn into_physical_with_context(self, context: &Self::Context) -> (r: Self::ArrowType)
        requires
            self.convertible(context),
        ensures
            self.physical_of(context, r),
    ;
}

/// Physical values that can be turned into a logical value (every physical type of a
/// `FromPhysical` type).
pub trait IntoLogical<Logical> {
    spec fn converts(&self) -> bool;

    spec fn into_logical_rel(&self, r: Logical) -> bool;

    fn into_logical(self) -> (r: Logical)
        requires
            self.converts(),
        ensures
            self.into_logical_rel(r),
    ;
}

impl<'a, Physical: ?Sized, Logical: FromPhysical<ArrowType = Physical>> IntoLogical<Logical> for &'a Physical {
    open spec fn converts(&self) -> bool {
        Logical::accepts(*self)
    }

    open spec fn into_logical_rel(&self, r: Logical) -> bool {
        Logical::logical_of(*self, r)
    }

    fn into_logical(self) -> (r: Logical) {
        Logical::from_physical(self)
    }
}

/// Physical values that can be turned into a logical value given some context.
pub trait IntoLogicalWithContext<T, C> {
    spec fn converts(&self, context: &C) -> bool;

    spec fn into_logical_rel(&self, context: &C, r: T) -> bool;

    fn into_logical_with_context(self, context: &C) -> (r: T)
        requires
            self.converts(context),
        ensures
            self.into_logical_rel(context, r),
    ;
}

impl<'a, P: ?Sized, Logical: FromPhysicalWithContext<ArrowType = P, Context = C>, C> IntoLogicalWithContext<Logical, C> for &'a P {
    open spec fn converts(&self, context: &C) -> bool {
        Logical::accepts(*self, context)
    }

    open spec fn into_logical_rel(&self, context: &C, r: Logical) -> bool {
        Logical::logical_of(*self, context, r)
    }

    fn into_logical_with_context(self, context: &C) -> (r: Logical) {
        Logical::from_physical_with_context(self, context)
    }
}

/* ------------------------------------------ PRIMITIVE ----------------------------------------- */

impl FromPhysical for bool {
    type ArrowType = bool;

    open spec fn accepts(value: &bool) -> bool {
        true
    }

    open spec fn logical_of(value: &bool, r: bool) -> bool {
        r == *value
    }

    fn from_physical(value: &bool) -> (r: bool) {
        *value
    }
}

impl IntoPhysical for bool {
    type ArrowType = bool;

    open spec fn convertible(&self) -> bool {
        true
    }

    open spec fn physical_of(self, r: bool) -> bool {
        r == self
    }

    fn into_physical(self) -> (r: bool) {
        self
    }
}

impl FromPhysical for i8 {
    type ArrowType = i8;

    open spec fn accepts(value: &i8) -> bool {
        true
    }

    open spec fn logical_of(value: &i8, r: i8) -> bool {
        r == *value
    }

    fn from_physical(value: &i8) -> (r: i8) {
        *value
    }
}

impl IntoPhysical for i8 {
    type ArrowType = i8;

    open spec fn convertible(&self) -> bool {
        true
    }

    open spec fn physical_of(self, r: i8) -> bool {
        r == self
    }

    fn into_physical(self) -> (r: i8) {
        self
    }
}

impl FromPhysical for i16 {
    type ArrowType = i16;

    open spec fn accepts(value: &i16) -> bool {
        true
    }

    open spec fn logical_of(value: &i16, r: i16) -> bool {
        r == *value
    }

    fn from_physical(value: &i16) -> (r: i16) {
        *value
    }
}

impl IntoPhysical for i16 {
    type ArrowType = i16;

    open spec fn convertible(&self) -> bool {
        true
    }

    open spec fn physical_of(self, r: i16) -> bool {
        r == self
    }

    fn into_physical(self) -> (r: i16) {
        self
    }
}

impl FromPhysical for i32 {
    type ArrowType = i32;

    open spec fn accepts(value: &i32) -> bool {
        true
    }

    open spec fn logical_of(value: &i32, r: i32) -> bool {
        r == *value
    }

    fn from_physical(value: &i32) -> (r: i32) {
        *value
    }
}

impl IntoPhysical for i32 {
    type ArrowType = i32;

    open spec fn convertible(&self) -> bool {
        true
    }

    open spec fn physical_of(self, r: i32) -> bool {
        r == self
    }

    fn into_physical(self) -> (r: i32) {
        self
    }
}

impl FromPhysical for i64 {
    type ArrowType = i64;

    open spec fn accepts(value: &i64) -> bool {
        true
    }

    open spec fn logical_of(value: &i64, r: i64) -> bool {
        r == *value
    }

    fn from_physical(value: &i64) -> (r: i64) {
        *value
    }
}

impl IntoPhysical for i64 {
    type ArrowType = i64;

    open spec fn convertible(&self) -> bool {
        true
    }

    open spec fn physical_of(self, r: i64) -> bool {
        r == self
    }

    fn into_physical(self) -> (r: i64) {
        self
    }
}

impl FromPhysical for u8 {
    type ArrowType = u8;

    open spec fn accepts(value: &u8) -> bool {
        true
    }

    open spec fn logical_of(value: &u8, r: u8) -> bool {
        r == *value
    }

    fn from_physical(value: &u8) -> (r: u8) {
        *value
    }
}

impl IntoPhysical for u8 {
    type ArrowType = u8;

    open spec fn convertible(&self) -> bool {
        true
    }

    open spec fn physical_of(self, r: u8) -> bool {
        r == self
    }

    fn into_physical(self) -> (r: u8) {
        self
    }
}

impl FromPhysical for u16 {
    type ArrowType = u16;

    open spec fn accepts(value: &u16) -> bool {
        true
    }

    open spec fn logical_of(value: &u16, r: u16) -> bool {
        r == *value
    }

    fn from_physical(value: &u16) -> (r: u16) {
        *value
    }
}

impl IntoPhysical for u16 {
    type ArrowType = u16;

    open spec fn convertible(&self) -> bool {
        true
    }

    open spec fn physical_of(self, r: u16) -> bool {
        r == self
    }

    fn into_physical(self) -> (r: u16) {
        self
    }
}

impl FromPhysical for u32 {
    type ArrowType = u32;

    open spec fn accepts(value: &u32) -> bool {
        true
    }

    open spec fn logical_of(value: &u32, r: u32) -> bool {
        r == *value
    }

    fn from_physical(value: &u32) -> (r: u32) {
        *value
    }
}

impl IntoPhysical for u32 {
    type ArrowType = u32;

    open spec fn convertible(&self) -> bool {
        true
    }

    open spec fn physical_of(self, r: u32) -> bool {
        r == self
    }

    fn into_physical(self) -> (r: u32) {
        self
    }
}

impl FromPhysical for u64 {
    type ArrowType = u64;

    open spec fn accepts(value: &u64) -> bool {
        true
    }

    open spec fn logical_of(value: &u64, r: u64) -> bool {
        r == *value
    }

    fn from_physical(value: &u64) -> (r: u64) {
        *value
    }
}

impl IntoPhysical for u64 {
    type ArrowType = u64;

    open spec fn convertible(&self) -> bool {
        true
    }

    open spec fn physical_of(self, r: u64) -> bool {
        r == self
    }

    fn into_physical(self) -> (r: u64) {
        self
    }
}

/* ------------------------------------------ 128 BITS ------------------------------------------ */

/// The unsigned value of little-endian bytes.
pub open spec fn le_value(b: Seq<u8>) -> nat
    decreases b.len(),
{
    if b.len() == 0 {
        0
    } else {
        b[0] as nat + 256 * le_value(b.drop_first())
    }
}

/// The two's-complement value of a 128-bit pattern.
pub open spec fn signed128(v: nat) -> int {
    if v >= 0x8000_0000_0000_0000_0000_0000_0000_0000 {
        v - 0x1_0000_0000_0000_0000_0000_0000_0000_0000
    } else {
        v as int
    }
}

/// Appending a byte adds it at the weight of its position.
proof fn lemma_le_push(b: Seq<u8>, v: u8)
    ensures
        le_value(b.push(v)) == le_value(b) + byte_bound(b.len()) * v,
    decreases b.len(),
{
    let c = b.push(v);
    if b.len() == 0 {
        assert(c.drop_first() =~= Seq::<u8>::empty());
        assert(le_value(c) == c[0] as nat + 256 * le_value(c.drop_first()));
        assert(byte_bound(0) == 1);
    } else {
        let d = b.drop_first();
        assert(c.drop_first() =~= d.push(v));
        lemma_le_push(d, v);
        assert(le_value(c) == c[0] as nat + 256 * le_value(c.drop_first()));
        assert(le_value(b) == b[0] as nat + 256 * le_value(d));
        assert(byte_bound(b.len()) == 256 * byte_bound(d.len()));
        let p = byte_bound(d.len());
        assert(256 * (le_value(d) + p * v) == 256 * le_value(d) + (256 * p) * v) by (nonlinear_arith);
    }
}

/// `256^16` is `2^128`.
proof fn lemma_byte_bound_16()
    ensures
        byte_bound(16) == 0x1_0000_0000_0000_0000_0000_0000_0000_0000,
{
    reveal_with_fuel(byte_bound, 17);
}

/// Reads an unsigned 128-bit integer from little-endian bytes (as `u128::from_le_bytes`).
fn u128_from_le_bytes(b: [u8; 16]) -> (r: u128)
    ensures
        r == le_value(b@),
{
    let mut acc: u128 = 0;
    let mut i: usize = 16;
    proof {
        lemma_byte_bound_16();
        assert(b@.subrange(16, 16) =~= Seq::<u8>::empty());
    }
    while i > 0
        invariant
            i <= 16,
            b@.len() == 16,
            acc == le_value(b@.subrange(i as int, 16)),
            byte_bound(16) == 0x1_0000_0000_0000_0000_0000_0000_0000_0000,
        decreases i,
    {
        let ghost tail = b@.subrange(i as int, 16);
        let ghost next = b@.subrange(i - 1, 16);
        proof {
            assert(next.drop_first() =~= tail);
            lemma_le_bound(next);
            assert(next.len() <= 16);
            lemma_byte_bound_mono(next.len(), 16);
        }
        acc = b[i - 1] as u128 + 256 * acc;
        i = i - 1;
    }
    assert(b@.subrange(0, 16) =~= b@);
    acc
}

/// Powers of `256` grow with the exponent.
proof fn lemma_byte_bound_mono(m: nat, n: nat)
    requires
        m <= n,
    ensures
        byte_bound(m) <= byte_bound(n),
    decreases n,
{
    if m < n {
        lemma_byte_bound_mono(m, (n - 1) as nat);
    }
}

/// Writes an unsigned 128-bit integer as little-endian bytes (as `u128::to_le_bytes`).
fn u128_to_le_bytes(x: u128) -> (r: [u8; 16])
    ensures
        le_value(r@) == x,
{
    let mut r = [0u8; 16];
    let mut y: u128 = x;
    let mut i: usize = 0;
    proof {
        lemma_byte_bound_16();
        assert(r@.take(0) =~= Seq::<u8>::empty());
        assert(byte_bound(0) == 1);
    }
    while i < 16
        invariant
            i <= 16,
            r@.len() == 16,
            x == le_value(r@.take(i as int)) + byte_bound(i as nat) * y,
            byte_bound(16) == 0x1_0000_0000_0000_0000_0000_0000_0000_0000,
        decreases 16 - i,
    {
        let byte: u8 = (y % 256) as u8;
        let ghost before = r@.take(i as int);
        r[i] = byte;
        proof {
            assert(r@.take(i + 1) =~= before.push(byte));
            lemma_le_push(before, byte);
            assert(byte_bound((i + 1) as nat) == 256 * byte_bound(i as nat));
            assert(byte_bound(i as nat) * y == byte_bound(i as nat) * byte + (256 * byte_bound(i as nat)) * (y / 256)) by (nonlinear_arith)
                requires
                    byte == y % 256,
            ;
        }
        y = y / 256;
        i = i + 1;
    }
    proof {
        assert(r@.take(16) =~= r@);
        lemma_le_bound(r@);
        assert(y == 0) by (nonlinear_arith)
            requires
                x == le_value(r@) + 0x1_0000_0000_0000_0000_0000_0000_0000_0000 * y,
                x < 0x1_0000_0000_0000_0000_0000_0000_0000_0000,
        ;
    }
    r
}

/// Reads a signed 128-bit integer from little-endian two's-complement bytes (as
/// `i128::from_le_bytes`).
fn i128_from_le_bytes(b: [u8; 16]) -> (r: i128)
    ensures
        r == signed128(le_value(b@)),
{
    let u = u128_from_le_bytes(b);
    if u < 0x8000_0000_0000_0000_0000_0000_0000_0000 {
        u as i128
    } else if u == 0x8000_0000_0000_0000_0000_0000_0000_0000 {
        i128::MIN
    } else {
        0i128 - ((0xFFFF_FFFF_FFFF_FFFF_FFFF_FFFF_FFFF_FFFF - u + 1) as i128)
    }
}

/// Writes a signed 128-bit integer as little-endian two's-complement bytes (as
/// `i128::to_le_bytes`).
fn i128_to_le_bytes(x: i128) -> (r: [u8; 16])
    ensures
        signed128(le_value(r@)) == x,
{
    let u: u128 = if x >= 0 {
        x as u128
    } else {
        (x - i128::MIN) as u128 + 0x8000_0000_0000_0000_0000_0000_0000_0000
    };
    u128_to_le_bytes(u)
}

/// The first 16 bytes of a slice, as an array.
fn array16(value: &[u8]) -> (r: [u8; 16])
    requires
        value@.len() == 16,
    ensures
        r@ == value@,
{
    let mut a = [0u8; 16];
    let mut i: usize = 0;
    while i < 16
        invariant
            value@.len() == 16,
            i <= 16,
            a@.len() == 16,
            forall|j: int| 0 <= j < i ==> a@[j] == value@[j],
        decreases 16 - i,
    {
        a[i] = value[i];
        i = i + 1;
    }
    assert(a@ =~= value@);
    a
}

impl FromPhysical for i128 {
    type ArrowType = [u8];

    open spec fn accepts(value: &[u8]) -> bool {
        value@.len() == 16
    }

    open spec fn logical_of(value: &[u8], r: i128) -> bool {
        r == signed128(le_value(value@))
    }

    fn from_physical(value: &[u8]) -> (r: i128) {
        i128_from_le_bytes(array16(value))
    }
}

impl IntoPhysical for i128 {
    type ArrowType = [u8; 16];

    open spec fn convertible(&self) -> bool {
        true
    }

    /// The little-endian two's-complement bytes of this integer.
    open spec fn physical_of(self, r: [u8; 16]) -> bool {
        signed128(le_value(r@)) == self
    }

    fn into_physical(self) -> (r: [u8; 16]) {
        i128_to_le_bytes(self)
    }
}

impl FromPhysical for u128 {
    type ArrowType = [u8];

    open spec fn accepts(value: &[u8]) -> bool {
        value@.len() == 16
    }

    open spec fn logical_of(value: &[u8], r: u128) -> bool {
        r == le_value(value@)
    }

    fn from_physical(value: &[u8]) -> (r: u128) {
        u128_from_le_bytes(array16(value))
    }
}

impl IntoPhysical for u128 {
    type ArrowType = [u8; 16];

    open spec fn convertible(&self) -> bool {
        true
    }

    /// The little-endian bytes of this integer.
    open spec fn physical_of(self, r: [u8; 16]) -> bool {
        le_value(r@) == self
    }

    fn into_physical(self) -> (r: [u8; 16]) {
        u128_to_le_bytes(self)
    }
}

/// Little-endian byte strings of one length with one value are equal.
pub proof fn lemma_le_injective(a: Seq<u8>, b: Seq<u8>)
    requires
        a.len() == b.len(),
        le_value(a) == le_value(b),
    ensures
        a == b,
    decreases a.len(),
{
    if a.len() > 0 {
        assert(a[0] as nat == le_value(a) % 256) by (nonlinear_arith)
            requires
                le_value(a) == a[0] as nat + 256 * le_value(a.drop_first()),
                a[0] < 256,
        ;
        assert(b[0] as nat == le_value(b) % 256) by (nonlinear_arith)
            requires
                le_value(b) == b[0] as nat + 256 * le_value(b.drop_first()),
                b[0] < 256,
        ;
        assert(le_value(a.drop_first()) == le_value(b.drop_first())) by (nonlinear_arith)
            requires
                le_value(a) == a[0] as nat + 256 * le_value(a.drop_first()),
                le_value(b) == b[0] as nat + 256 * le_value(b.drop_first()),
                le_value(a) == le_value(b),
                a[0] == b[0],
        ;
        lemma_le_injective(a.drop_first(), b.drop_first());
        assert(a =~= seq![a[0]] + a.drop_first());
        assert(b =~= seq![b[0]] + b.drop_first());
    }
}

/// `256^n`.
pub open spec fn byte_bound(n: nat) -> nat
    decreases n,
{
    if n == 0 {
        1
    } else {
        256 * byte_bound((n - 1) as nat)
    }
}

/// The value of `n` bytes is below `256^n`.
pub proof fn lemma_le_bound(b: Seq<u8>)
    ensures
        le_value(b) < byte_bound(b.len()),
    decreases b.len(),
{
    if b.len() > 0 {
        lemma_le_bound(b.drop_first());
        let p = byte_bound((b.len() - 1) as nat);
        assert(le_value(b) < 256 * p) by (nonlinear_arith)
            requires
                le_value(b) == b[0] as nat + 256 * le_value(b.drop_first()),
                le_value(b.drop_first()) < p,
                b[0] < 256,
        ;
    }
}

/// Reading back the bytes an unsigned 128-bit integer is written as gives the integer.
pub proof fn lemma_u128_roundtrip(x: u128, written: [u8; 16], read: &[u8])
    requires
        le_value(written@) == x,
        read@ == written@,
    ensures
        <u128 as FromPhysical>::accepts(read),
        <u128 as FromPhysical>::logical_of(read, x),
{
}

/// Reading back the bytes a signed 128-bit integer is written as gives the integer.
pub proof fn lemma_i128_roundtrip(x: i128, written: [u8; 16], read: &[u8])
    requires
        signed128(le_value(written@)) == x,
        read@ == written@,
    ensures
        <i128 as FromPhysical>::accepts(read),
        <i128 as FromPhysical>::logical_of(read, x),
{
}

/* ------------------------------------------- STRING ------------------------------------------- */

impl FromPhysical for String {
    type ArrowType = str;

    open spec fn accepts(value: &str) -> bool {
        true
    }

    open spec fn logical_of(value: &str, r: String) -> bool {
        r@ == value@
    }

    fn from_physical(value: &str) -> (r: String) {
        value.to_owned()
    }
}

impl IntoPhysical for String {
    type ArrowType = String;

    open spec fn convertible(&self) -> bool {
        true
    }

    open spec fn physical_of(self, r: String) -> bool {
        r == self
    }

    fn into_physical(self) -> (r: String) {
        self
    }
}

impl FromPhysical for Vec<u8> {
    type ArrowType = [u8];

    open spec fn accepts(value: &[u8]) -> bool {
        true
    }

    open spec fn logical_of(value: &[u8], r: Vec<u8>) -> bool {
        r@ == value@
    }

    fn from_physical(value: &[u8]) -> (r: Vec<u8>) {
        let mut r: Vec<u8> = Vec::new();
        let mut i: usize = 0;
        while i < value.len()
            invariant
                i <= value@.len(),
                r@ == value@.take(i as int),
            decreases value@.len() - i,
        {
            r.push(value[i]);
            i = i + 1;
            assert(r@ =~= value@.take(i as int));
        }
        assert(value@.take(value@.len() as int) =~= value@);
        r
    }
}

impl IntoPhysical for Vec<u8> {
    type ArrowType = Vec<u8>;

    open spec fn convertible(&self) -> bool {
        true
    }

    open spec fn physical_of(self, r: Vec<u8>) -> bool {
        r == self
    }

    fn into_physical(self) -> (r: Vec<u8>) {
        self
    }
}


proof fn lemma_array_ext(a: [u8; 16], b: [u8; 16])
    requires
        a@ == b@,
    ensures
        a == b,
{
    broadcast use vstd::array::group_array_axioms;

    assert forall|i: int| 0 <= i < 16 implies a[i] == b[i] by {
        assert(a@[i] == b@[i]);
    }
    assert(a =~= b);
}

/// Two encodings of one unsigned 128-bit integer are the same bytes.
pub proof fn lemma_u128_physical_unique(x: u128, a: [u8; 16], b: [u8; 16])
    requires
        x.physical_of(a),
        x.physical_of(b),
    ensures
        a == b,
{
    lemma_le_injective(a@, b@);
    lemma_array_ext(a, b);
}

/// Two encodings of one signed 128-bit integer are the same bytes.
pub proof fn lemma_i128_physical_unique(x: i128, a: [u8; 16], b: [u8; 16])
    requires
        x.physical_of(a),
        x.physical_of(b),
    ensures
        a == b,
{
    lemma_le_bound(a@);
    lemma_le_bound(b@);
    lemma_byte_bound_16();
    lemma_le_injective(a@, b@);
    lemma_array_ext(a, b);
}

/* -------------------------------------------- TIME -------------------------------------------- */

/// The unit of a physical time or timestamp value.
#[derive(Debug, Clone, Copy, PartialEq, Eq, Structural)]
pub enum TimeUnit {
    Second,
    Millisecond,
    Microsecond,
    Nanosecond,
}

/// A time of day: seconds since midnight and nanoseconds within the second (at or above a
/// billion only during a leap second).
#[derive(Debug, Clone, Copy, PartialEq, Eq, Structural)]
pub struct TimeOfDay {
    pub secs: u32,
    pub nanos: u32,
}

impl TimeOfDay {
    pub open spec fn wf(&self) -> bool {
        self.secs < 86400 && self.nanos < 2_000_000_000
    }

    /// Microseconds since midnight.
    pub open spec fn micros(&self) -> int {
        self.secs * 1_000_000 + self.nanos / 1000
    }
}

/// The number of a unit's ticks per second, for the units a time of day is stored in.
pub open spec fn ticks_per_second(unit: TimeUnit) -> int {
    match unit {
        TimeUnit::Microsecond => 1_000_000,
        TimeUnit::Nanosecond => 1_000_000_000,
        _ => 0,
    }
}

impl FromPhysicalWithContext for TimeOfDay {
    type ArrowType = i64;
    type Context = TimeUnit;

    /// Microseconds or nanoseconds since midnight, within one day.
    open spec fn accepts(value: &i64, context: &TimeUnit) -> bool {
        (*context is Microsecond || *context is Nanosecond) && 0 <= *value < 86400 * ticks_per_second(*context)
    }

    open spec fn logical_of(value: &i64, context: &TimeUnit, r: TimeOfDay) -> bool {
        let t = ticks_per_second(*context);
        &&& r.secs == (*value as int) / t
        &&& r.nanos == ((*value as int) % t) * (1_000_000_000int / t)
    }

    fn from_physical_with_context(value: &i64, context: &TimeUnit) -> (r: TimeOfDay) {
        let v = *value;
        match context {
            TimeUnit::Microsecond => {
                assert(ticks_per_second(*context) == 1_000_000);
                assert(1_000_000_000int / 1_000_000int == 1000);
                assert(v / 1_000_000 < 86400);
                TimeOfDay { secs: (v / 1_000_000) as u32, nanos: ((v % 1_000_000) * 1000) as u32 }
            },
            _ => {
                assert(ticks_per_second(*context) == 1_000_000_000);
                assert(1_000_000_000int / 1_000_000_000int == 1);
                assert(v / 1_000_000_000 < 86400);
                TimeOfDay { secs: (v / 1_000_000_000) as u32, nanos: (v % 1_000_000_000) as u32 }
            },
        }
    }
}

impl IntoPhysical for TimeOfDay {
    type ArrowType = i64;

    open spec fn convertible(&self) -> bool {
        self.wf()
    }

    /// Microseconds since midnight.
    open spec fn physical_of(self, r: i64) -> bool {
        r == self.micros()
    }

    fn into_physical(self) -> (r: i64) {
        self.secs as i64 * 1_000_000 + (self.nanos as i64 / 1000)
    }
}

/* ------------------------------------------ DATE TIME ----------------------------------------- */

/// A date and time without time zone: seconds since the Unix epoch (UTC) and the nanoseconds
/// past them.
#[derive(Debug, Clone, Copy, PartialEq, Eq, Structural)]
pub struct DateTimeValue {
    pub secs: i64,
    pub nanos: u32,
}

/// The number of a unit's ticks per second.
pub open spec fn unit_ticks(unit: TimeUnit) -> int {
    match unit {
        TimeUnit::Second => 1,
        TimeUnit::Millisecond => 1_000,
        TimeUnit::Microsecond => 1_000_000,
        TimeUnit::Nanosecond => 1_000_000_000,
    }
}

impl DateTimeValue {
    pub open spec fn wf(&self) -> bool {
        self.nanos < 1_000_000_000
    }

    /// The date and time in ticks of `unit` since the epoch, whole ticks only.
    pub open spec fn ticks(&self, unit: TimeUnit) -> int {
        self.secs * unit_ticks(unit) + (self.nanos as int) / (1_000_000_000int / unit_ticks(unit))
    }
}

fn ticks_exec(unit: &TimeUnit) -> (r: i64)
    ensures
        r == unit_ticks(*unit),
{
    match unit {
        TimeUnit::Second => 1,
        TimeUnit::Millisecond => 1_000,
        TimeUnit::Microsecond => 1_000_000,
        TimeUnit::Nanosecond => 1_000_000_000,
    }
}

impl FromPhysicalWithContext for DateTimeValue {
    type ArrowType = i64;
    type Context = TimeUnit;

    /// Any number of ticks since the epoch.
    open spec fn accepts(value: &i64, context: &TimeUnit) -> bool {
        true
    }

    /// The whole seconds (rounded down) and the nanoseconds of the remaining ticks.
    open spec fn logical_of(value: &i64, context: &TimeUnit, r: DateTimeValue) -> bool {
        let t = unit_ticks(*context);
        &&& r.secs == (*value as int) / t
        &&& r.nanos == ((*value as int) % t) * (1_000_000_000int / t)
    }

    fn from_physical_with_context(value: &i64, context: &TimeUnit) -> (r: DateTimeValue) {
        let t = ticks_exec(context);
        let v = *value;
        let ghost ti = t as int;
        let ghost vi = v as int;
        let (secs, rest): (i64, i64) = if v >= 0 {
            (v / t, v % t)
        } else {
            let a: i64 = -(v + 1);
            let qa: i64 = a / t;
            let ra: i64 = a % t;
            proof {
                lemma_floor_of_negative(vi, ti, a as int, qa as int, ra as int);
            }
            (-qa - 1, t - 1 - ra)
        };
        assert(secs == vi / ti && rest == vi % ti);
        let per_tick: i64 = 1_000_000_000 / t;
        assert(0 <= rest < ti && per_tick == 1_000_000_000int / ti);
        assert(rest * per_tick < 1_000_000_000) by (nonlinear_arith)
            requires
                0 <= rest < ti,
                per_tick * ti <= 1_000_000_000,
                per_tick >= 1,
        {
            assert(rest * per_tick <= (ti - 1) * per_tick);
        }
        DateTimeValue { secs, nanos: (rest * per_tick) as u32 }
    }
}

/// A number of ticks read as a date and time is written back as the same number of ticks.
pub proof fn lemma_datetime_roundtrip(v: i64, unit: TimeUnit, d: DateTimeValue)
    requires
        <DateTimeValue as FromPhysicalWithContext>::logical_of(&v, &unit, d),
    ensures
        d.wf(),
        d.ticks(unit) == v,
{
    let t = unit_ticks(unit);
    let p = 1_000_000_000int / t;
    let r = (v as int) % t;
    assert(p * t == 1_000_000_000 && p >= 1);
    assert(0 <= r < t);
    assert((r * p) / p == r) by (nonlinear_arith)
        requires
            p >= 1,
            0 <= r,
    {
        vstd::arithmetic::div_mod::lemma_div_multiples_vanish(r, p);
    }
    assert(r * p < 1_000_000_000) by (nonlinear_arith)
        requires
            0 <= r < t,
            p * t == 1_000_000_000,
            p >= 1,
    ;
    assert((v as int) == ((v as int) / t) * t + r) by (nonlinear_arith)
        requires
            t > 0,
            r == (v as int) % t,
    ;
}

/// Floor division of a negative `v` by `t`, from the truncating division of `-(v + 1)`.
proof fn lemma_floor_of_negative(v: int, t: int, a: int, qa: int, ra: int)
    requires
        v < 0,
        t > 0,
        a == -(v + 1),
        qa == a / t,
        ra == a % t,
    ensures
        v / t == -qa - 1,
        v % t == t - 1 - ra,
{
    assert(a == qa * t + ra && 0 <= ra < t) by (nonlinear_arith)
        requires
            t > 0,
            qa == a / t,
            ra == a % t,
    ;
    assert(v == (-qa - 1) * t + (t - 1 - ra)) by (nonlinear_arith)
        requires
            a == qa * t + ra,
            a == -(v + 1),
    ;
    vstd::arithmetic::div_mod::lemma_fundamental_div_mod_converse(v, t, -qa - 1, t - 1 - ra);
}

impl IntoPhysicalWithContext for DateTimeValue {
    type ArrowType = i64;
    type Context = TimeUnit;

    /// A valid date and time whose ticks fit in an `i64`.
    open spec fn convertible(&self, context: &TimeUnit) -> bool {
        &&& self.wf()
        &&& i64::MIN <= self.ticks(*context) <= i64::MAX
    }

    open spec fn physical_of(self, context: &TimeUnit, r: i64) -> bool {
        r == self.ticks(*context)
    }

    fn into_physical_with_context(self, context: &TimeUnit) -> (r: i64) {
        let t = ticks_exec(context);
        let per_tick = 1_000_000_000u32 / (t as u32);
        let part = (self.nanos / per_tick) as i128;
        let secs = self.secs as i128;
        assert(-0x8000_0000_0000_0000 * 1_000_000_000 <= secs * (t as i128) <= 0x7FFF_FFFF_FFFF_FFFF * 1_000_000_000)
            by (nonlinear_arith)
            requires
                -0x8000_0000_0000_0000 <= secs <= 0x7FFF_FFFF_FFFF_FFFF,
                1 <= t <= 1_000_000_000,
        ;
        let total = secs * (t as i128) + part;
        assert(total == self.ticks(*context));
        total as i64
    }
}

/// A time of day at microsecond precision (outside a leap second) is read back from its
/// microseconds as itself.
pub proof fn lemma_time_roundtrip(t: TimeOfDay, p: i64)
    requires
        t.wf(),
        t.nanos < 1_000_000_000,
        t.nanos % 1000 == 0,
        t.physical_of(p),
    ensures
        <TimeOfDay as FromPhysicalWithContext>::accepts(&p, &TimeUnit::Microsecond),
        <TimeOfDay as FromPhysicalWithContext>::logical_of(&p, &TimeUnit::Microsecond, t),
{
    assert(p / 1_000_000 == t.secs && (p % 1_000_000) * 1000 == t.nanos) by (nonlinear_arith)
        requires
            p == t.secs * 1_000_000 + t.nanos / 1000,
            0 <= t.nanos < 1_000_000_000,
            t.nanos % 1000 == 0,
            t.secs >= 0,
    ;
}

/// A time of day with a fixed offset from UTC, in seconds (east of UTC positive).
#[derive(Debug, Clone, Copy, PartialEq, Eq, Structural)]
pub struct TimeWithTimezone {
    pub time: TimeOfDay,
    pub offset_secs: i32,
}

impl TimeWithTimezone {
    pub open spec fn wf(&self) -> bool {
        self.time.wf() && -86400 < self.offset_secs < 86400
    }
}

/// The value of the five little-endian bytes from `b[0]` (microseconds).
pub open spec fn tz_micros(b: Seq<u8>) -> int {
    b[0] + 256 * b[1] + 65536 * b[2] + 16777216 * b[3] + 4294967296 * b[4]
}

/// The 24-bit two's-complement value of the three little-endian bytes from `b[5]` (the
/// offset in seconds).
pub open spec fn tz_offset(b: Seq<u8>) -> int {
    let w = b[5] + 256 * b[6] + 65536 * b[7];
    if w >= 8388608 {
        w - 16777216
    } else {
        w
    }
}

impl FromPhysical for TimeWithTimezone {
    type ArrowType = [u8];

    /// Eight bytes: microseconds since midnight within one day (five bytes), then a valid
    /// offset (three bytes).
    open spec fn accepts(value: &[u8]) -> bool {
        value@.len() >= 8 && 0 <= tz_micros(value@) < 86_400_000_000 && -86400 < tz_offset(value@) < 86400
    }

    open spec fn logical_of(value: &[u8], r: TimeWithTimezone) -> bool {
        &&& r.offset_secs == tz_offset(value@)
        &&& r.time.secs == tz_micros(value@) / 1_000_000
        &&& r.time.nanos == (tz_micros(value@) % 1_000_000) * 1000
    }

    fn from_physical(value: &[u8]) -> (r: TimeWithTimezone) {
        let micros: i64 = value[0] as i64 + 256 * (value[1] as i64) + 65536 * (value[2] as i64) + 16777216 * (
        value[3] as i64) + 4294967296 * (value[4] as i64);
        let w: i32 = value[5] as i32 + 256 * (value[6] as i32) + 65536 * (value[7] as i32);
        let offset = if w >= 8388608 { w - 16777216 } else { w };
        let time = TimeOfDay::from_physical_with_context(&micros, &TimeUnit::Microsecond);
        TimeWithTimezone { time, offset_secs: offset }
    }
}

impl TimeWithTimezone {
    /// The time with time zone that eight physical bytes hold, or `None` when they do not hold
    /// one (fewer than eight bytes, a time past the day, or an offset of a day or more).
    pub fn try_from_physical(value: &[u8]) -> (r: Option<TimeWithTimezone>)
        ensures
            r is Some <==> <TimeWithTimezone as FromPhysical>::accepts(value),
            r matches Some(t) ==> <TimeWithTimezone as FromPhysical>::logical_of(value, t),
    {
        if value.len() < 8 {
            return None;
        }
        let micros: i64 = value[0] as i64 + 256 * (value[1] as i64) + 65536 * (value[2] as i64) + 16777216 * (
        value[3] as i64) + 4294967296 * (value[4] as i64);
        let w: i32 = value[5] as i32 + 256 * (value[6] as i32) + 65536 * (value[7] as i32);
        let offset = if w >= 8388608 { w - 16777216 } else { w };
        if micros < 86_400_000_000 && -86400 < offset && offset < 86400 {
            Some(<TimeWithTimezone as FromPhysical>::from_physical(value))
        } else {
            None
        }
    }
}

impl IntoPhysical for TimeWithTimezone {
    type ArrowType = [u8; 8];

    open spec fn convertible(&self) -> bool {
        self.wf()
    }

    /// The low five bytes of the microseconds since midnight, then the low three bytes of the
    /// offset (two's complement), little-endian.
    open spec fn physical_of(self, r: [u8; 8]) -> bool {
        let m = self.time.micros();
        let o = if self.offset_secs < 0 { self.offset_secs + 16777216 } else { self.offset_secs as int };
        &&& r@[0] == m % 256
        &&& r@[1] == (m / 256) % 256
        &&& r@[2] == (m / 65536) % 256
        &&& r@[3] == (m / 16777216) % 256
        &&& r@[4] == (m / 4294967296) % 256
        &&& r@[5] == o % 256
        &&& r@[6] == (o / 256) % 256
        &&& r@[7] == o / 65536
    }

    fn into_physical(self) -> (r: [u8; 8]) {
        let m = self.time.into_physical();
        let o: i32 = if self.offset_secs < 0 { self.offset_secs + 16777216 } else { self.offset_secs };
        let mut b = [0u8; 8];
        b[0] = (m % 256) as u8;
        b[1] = ((m / 256) % 256) as u8;
        b[2] = ((m / 65536) % 256) as u8;
        b[3] = ((m / 16777216) % 256) as u8;
        b[4] = ((m / 4294967296) % 256) as u8;
        b[5] = (o % 256) as u8;
        b[6] = ((o / 256) % 256) as u8;
        b[7] = (o / 65536) as u8;
        b
    }
}

/// A time with time zone at microsecond precision (outside a leap second) is read back from
/// its eight bytes as itself.
pub proof fn lemma_time_with_timezone_roundtrip(t: TimeWithTimezone, written: [u8; 8], read: &[u8])
    requires
        t.wf(),
        t.time.nanos < 1_000_000_000,
        t.time.nanos % 1000 == 0,
        t.physical_of(written),
        read@ == written@,
    ensures
        <TimeWithTimezone as FromPhysical>::accepts(read),
        <TimeWithTimezone as FromPhysical>::logical_of(read, t),
{
    let b = read@;
    let m = t.time.micros();
    let o = if t.offset_secs < 0 { t.offset_secs + 16777216 } else { t.offset_secs as int };
    assert(0 <= m < 86_400_000_000);
    assert(tz_micros(b) == m) by (nonlinear_arith)
        requires
            0 <= m < 1_099_511_627_776,
            b[0] == m % 256,
            b[1] == (m / 256) % 256,
            b[2] == (m / 65536) % 256,
            b[3] == (m / 16777216) % 256,
            b[4] == (m / 4294967296) % 256,
            tz_micros(b) == b[0] + 256 * b[1] + 65536 * b[2] + 16777216 * b[3] + 4294967296 * b[4],
    ;
    assert(b[5] + 256 * b[6] + 65536 * b[7] == o) by (nonlinear_arith)
        requires
            0 <= o < 16777216,
            b[5] == o % 256,
            b[6] == (o / 256) % 256,
            b[7] == o / 65536,
    ;
    assert(t.time.secs == m / 1_000_000 && t.time.nanos == (m % 1_000_000) * 1000) by (nonlinear_arith)
        requires
            m == t.time.secs * 1_000_000 + t.time.nanos / 1000,
            0 <= t.time.nanos < 1_000_000_000,
            t.time.nanos % 1000 == 0,
            t.time.secs >= 0,
    ;
}

/* ------------------------------------------ INTERVAL ------------------------------------------ */

/// Arrow's month-day-nanosecond interval.
#[derive(Debug, Clone, Copy, PartialEq, Eq, Structural)]
pub struct MonthDayNano {
    pub months: i32,
    pub days: i32,
    pub nanoseconds: i64,
}

/// A DuckLake interval: a number of months and a signed duration in microseconds.
#[derive(Debug, Clone, Copy, PartialEq, Eq, Structural)]
pub struct Interval {
    pub months: u32,
    pub micros: i64,
}

/// Microseconds per day.
pub open spec fn day_micros() -> int {
    86_400_000_000
}

/// Integer division rounding toward zero (as Rust's `/`).
pub open spec fn div_trunc(a: int, d: int) -> int {
    if a >= 0 {
        a / d
    } else {
        -((-a) / d)
    }
}

/// The microseconds of a month-day-nanosecond interval (nanoseconds truncated toward zero).
pub open spec fn interval_micros(v: MonthDayNano) -> int {
    v.days * day_micros() + div_trunc(v.nanoseconds as int, 1000)
}

/// The bit pattern of an `i32` read as `u32`.
pub open spec fn as_u32(x: i32) -> u32 {
    if x < 0 {
        (x + 0x1_0000_0000) as u32
    } else {
        x as u32
    }
}

/// The bit pattern of a `u32` read as `i32`.
pub open spec fn as_i32(x: u32) -> i32 {
    if x >= 0x8000_0000 {
        (x - 0x1_0000_0000) as i32
    } else {
        x as i32
    }
}

fn i32_bits_as_u32(x: i32) -> (r: u32)
    ensures
        r == as_u32(x),
{
    if x < 0 {
        (x as i64 + 0x1_0000_0000i64) as u32
    } else {
        x as u32
    }
}

fn u32_bits_as_i32(x: u32) -> (r: i32)
    ensures
        r == as_i32(x),
{
    if x >= 0x8000_0000 {
        (x as i64 - 0x1_0000_0000i64) as i32
    } else {
        x as i32
    }
}

impl FromPhysical for Interval {
    type ArrowType = MonthDayNano;

    /// The days and nanoseconds fit in microseconds.
    open spec fn accepts(value: &MonthDayNano) -> bool {
        &&& i64::MIN <= value.days * day_micros() <= i64::MAX
        &&& i64::MIN <= interval_micros(*value) <= i64::MAX
    }

    open spec fn logical_of(value: &MonthDayNano, r: Interval) -> bool {
        r.months == as_u32(value.months) && r.micros == interval_micros(*value)
    }

    fn from_physical(value: &MonthDayNano) -> (r: Interval) {
        let months = i32_bits_as_u32(value.months);
        let nanos_us: i64 = value.nanoseconds / 1000;
        assert(nanos_us == div_trunc(value.nanoseconds as int, 1000));
        let micros = value.days as i64 * 86_400_000_000 + nanos_us;
        Interval { months, micros }
    }
}

impl Interval {
    /// The interval of Arrow's month-day-nanosecond form, or `None` when its days and
    /// nanoseconds do not fit in microseconds.
    pub fn try_from_physical(value: &MonthDayNano) -> (r: Option<Interval>)
        ensures
            r is Some <==> <Interval as FromPhysical>::accepts(value),
            r matches Some(i) ==> <Interval as FromPhysical>::logical_of(value, i),
    {
        let days = match (value.days as i64).checked_mul(86_400_000_000) {
            Some(d) => d,
            None => return None,
        };
        let nanos_us: i64 = value.nanoseconds / 1000;
        assert(nanos_us == div_trunc(value.nanoseconds as int, 1000));
        match days.checked_add(nanos_us) {
            Some(_) => Some(<Interval as FromPhysical>::from_physical(value)),
            None => None,
        }
    }
}

impl IntoPhysical for Interval {
    type ArrowType = MonthDayNano;

    open spec fn convertible(&self) -> bool {
        true
    }

    /// Whole days (toward zero) and the rest in nanoseconds.
    open spec fn physical_of(self, r: MonthDayNano) -> bool {
        let days = div_trunc(self.micros as int, day_micros());
        &&& r.months == as_i32(self.months)
        &&& r.days == days
        &&& r.nanoseconds == (self.micros - days * day_micros()) * 1000
    }

    fn into_physical(self) -> (r: MonthDayNano) {
        let days: i64 = self.micros / 86_400_000_000;
        assert(days == div_trunc(self.micros as int, day_micros()));
        let rest: i64 = self.micros - days * 86_400_000_000;
        MonthDayNano { months: u32_bits_as_i32(self.months), days: days as i32, nanoseconds: rest * 1000 }
    }
}

/// An interval is read back from its physical form as itself.
pub proof fn lemma_interval_roundtrip(v: Interval, p: MonthDayNano)
    requires
        v.physical_of(p),
    ensures
        <Interval as FromPhysical>::accepts(&p),
        <Interval as FromPhysical>::logical_of(&p, v),
{
}

/// A physical interval whose nanoseconds are whole microseconds, less than a day and of the
/// days' sign, is written back from its logical form as itself.
pub proof fn lemma_month_day_nano_roundtrip(p: MonthDayNano, v: Interval)
    requires
        <Interval as FromPhysical>::accepts(&p),
        <Interval as FromPhysical>::logical_of(&p, v),
        p.nanoseconds % 1000 == 0,
        (p.days >= 0 && 0 <= p.nanoseconds < day_micros() * 1000) || (p.days <= 0 && -day_micros() * 1000 < p.nanoseconds <= 0),
    ensures
        v.physical_of(p),
{
}

} // verus!
