use vstd::prelude::*;

verus! {

/// Result of comparing two values of the same kind.
#[derive(Debug, Clone, Copy, PartialEq, Eq, Structural)]
pub enum Order {
    Less,
    Equal,
    Greater,
}

/// A literal value of a primitive DuckLake data type, as used for column statistics and
/// defaults. Temporal values are held in their physical representation (days since the epoch
/// for dates, microseconds for times and timestamps).
#[derive(Debug)]
pub enum Value {
    Boolean(bool),
    Int8(i8),
    Int16(i16),
    Int32(i32),
    Int64(i64),
    Int128(i128),
    UInt8(u8),
    UInt16(u16),
    UInt32(u32),
    UInt64(u64),
    UInt128(u128),
    Date(i32),
    Time(i64),
    Timestamp(i64),
    TimestampTz(i64),
    Varchar(String),
    Blob(Vec<u8>),
    Uuid(u128),
}

/// Mathematical model of a [`Value`]; an integer's model keeps its width in bits.
pub enum ValueModel {
    Boolean(bool),
    Int(nat, int),
    UInt(nat, int),
    Date(int),
    Time(int),
    Timestamp(int),
    TimestampTz(int),
    Varchar(Seq<char>),
    Blob(Seq<u8>),
    Uuid(int),
}

/// The kind of a value; values of different kinds are not comparable.
pub open spec fn value_kind(v: Value) -> int {
    match v {
        Value::Boolean(_) => 0,
        Value::Int8(_) => 1,
        Value::Int16(_) => 2,
        Value::Int32(_) => 3,
        Value::Int64(_) => 4,
        Value::Int128(_) => 5,
        Value::UInt8(_) => 6,
        Value::UInt16(_) => 7,
        Value::UInt32(_) => 8,
        Value::UInt64(_) => 9,
        Value::UInt128(_) => 10,
        Value::Date(_) => 11,
        Value::Time(_) => 12,
        Value::Timestamp(_) => 13,
        Value::TimestampTz(_) => 14,
        Value::Varchar(_) => 15,
        Value::Blob(_) => 16,
        Value::Uuid(_) => 17,
    }
}

impl View for Value {
    type V = ValueModel;

    open spec fn view(&self) -> ValueModel {
        match self {
            Value::Boolean(b) => ValueModel::Boolean(*b),
            Value::Int8(x) => ValueModel::Int(8, *x as int),
            Value::Int16(x) => ValueModel::Int(16, *x as int),
            Value::Int32(x) => ValueModel::Int(32, *x as int),
            Value::Int64(x) => ValueModel::Int(64, *x as int),
            Value::Int128(x) => ValueModel::Int(128, *x as int),
            Value::UInt8(x) => ValueModel::UInt(8, *x as int),
            Value::UInt16(x) => ValueModel::UInt(16, *x as int),
            Value::UInt32(x) => ValueModel::UInt(32, *x as int),
            Value::UInt64(x) => ValueModel::UInt(64, *x as int),
            Value::UInt128(x) => ValueModel::UInt(128, *x as int),
            Value::Date(x) => ValueModel::Date(*x as int),
            Value::Time(x) => ValueModel::Time(*x as int),
            Value::Timestamp(x) => ValueModel::Timestamp(*x as int),
            Value::TimestampTz(x) => ValueModel::TimestampTz(*x as int),
            Value::Varchar(s) => ValueModel::Varchar(s@),
            Value::Blob(b) => ValueModel::Blob(b@),
            Value::Uuid(x) => ValueModel::Uuid(*x as int),
        }
    }
}

pub open spec fn order_int(a: int, b: int) -> Order {
    if a < b {
        Order::Less
    } else if a == b {
        Order::Equal
    } else {
        Order::Greater
    }
}

/// Lexicographic order of character sequences (the order of Rust strings: by code point).
pub open spec fn order_chars(a: Seq<char>, b: Seq<char>) -> Order
    decreases a.len(),
{
    if a.len() == 0 {
        if b.len() == 0 {
            Order::Equal
        } else {
            Order::Less
        }
    } else if b.len() == 0 {
        Order::Greater
    } else if (a[0] as u32) < (b[0] as u32) {
        Order::Less
    } else if (a[0] as u32) > (b[0] as u32) {
        Order::Greater
    } else {
        order_chars(a.drop_first(), b.drop_first())
    }
}

/// Lexicographic order of byte sequences.
pub open spec fn order_bytes(a: Seq<u8>, b: Seq<u8>) -> Order
    decreases a.len(),
{
    if a.len() == 0 {
        if b.len() == 0 {
            Order::Equal
        } else {
            Order::Less
        }
    } else if b.len() == 0 {
        Order::Greater
    } else if a[0] < b[0] {
        Order::Less
    } else if a[0] > b[0] {
        Order::Greater
    } else {
        order_bytes(a.drop_first(), b.drop_first())
    }
}

/// Partial order of values: values of the same kind compare by their natural order (`false`
/// before `true`), values of different kinds are incomparable.
pub open spec fn value_order(a: Value, b: Value) -> Option<Order> {
    if value_kind(a) != value_kind(b) {
        None
    } else {
        match (a@, b@) {
            (ValueModel::Boolean(x), ValueModel::Boolean(y)) => Some(
                order_int(if x { 1 } else { 0 }, if y { 1 } else { 0 }),
            ),
            (ValueModel::Int(_, x), ValueModel::Int(_, y)) => Some(order_int(x, y)),
            (ValueModel::UInt(_, x), ValueModel::UInt(_, y)) => Some(order_int(x, y)),
            (ValueModel::Date(x), ValueModel::Date(y)) => Some(order_int(x, y)),
            (ValueModel::Time(x), ValueModel::Time(y)) => Some(order_int(x, y)),
            (ValueModel::Timestamp(x), ValueModel::Timestamp(y)) => Some(order_int(x, y)),
            (ValueModel::TimestampTz(x), ValueModel::TimestampTz(y)) => Some(order_int(x, y)),
            (ValueModel::Varchar(x), ValueModel::Varchar(y)) => Some(order_chars(x, y)),
            (ValueModel::Blob(x), ValueModel::Blob(y)) => Some(order_bytes(x, y)),
            (ValueModel::Uuid(x), ValueModel::Uuid(y)) => Some(order_int(x, y)),
            _ => None,
        }
    }
}

fn order_i128(a: i128, b: i128) -> (r: Order)
    ensures
        r == order_int(a as int, b as int),
{
    if a < b {
        Order::Less
    } else if a == b {
        Order::Equal
    } else {
        Order::Greater
    }
}

fn order_u128(a: u128, b: u128) -> (r: Order)
    ensures
        r == order_int(a as int, b as int),
{
    if a < b {
        Order::Less
    } else if a == b {
        Order::Equal
    } else {
        Order::Greater
    }
}

/// Compares two strings by code point.
pub fn compare_str(a: &str, b: &str) -> (r: Order)
    ensures
        r == order_chars(a@, b@),
{
    let la = a.unicode_len();
    let lb = b.unicode_len();
    let mut i: usize = 0;
    assert(a@.skip(0) =~= a@);
    assert(b@.skip(0) =~= b@);
    while i < la && i < lb
        invariant
            la == a@.len(),
            lb == b@.len(),
            i <= la,
            i <= lb,
            order_chars(a@, b@) == order_chars(a@.skip(i as int), b@.skip(i as int)),
        decreases la - i,
    {
        let x = a.get_char(i);
        let y = b.get_char(i);
        assert(a@.skip(i as int).drop_first() =~= a@.skip(i + 1));
        assert(b@.skip(i as int).drop_first() =~= b@.skip(i + 1));
        if (x as u32) < (y as u32) {
            return Order::Less;
        } else if (x as u32) > (y as u32) {
            return Order::Greater;
        }
        i = i + 1;
    }
    if i == la && i == lb {
        Order::Equal
    } else if i == la {
        Order::Less
    } else {
        Order::Greater
    }
}

/// Compares two byte strings lexicographically.
pub fn compare_bytes(a: &[u8], b: &[u8]) -> (r: Order)
    ensures
        r == order_bytes(a@, b@),
{
    let la = a.len();
    let lb = b.len();
    let mut i: usize = 0;
    assert(a@.skip(0) =~= a@);
    assert(b@.skip(0) =~= b@);
    while i < la && i < lb
        invariant
            la == a@.len(),
            lb == b@.len(),
            i <= la,
            i <= lb,
            order_bytes(a@, b@) == order_bytes(a@.skip(i as int), b@.skip(i as int)),
        decreases la - i,
    {
        let x = a[i];
        let y = b[i];
        assert(a@.skip(i as int).drop_first() =~= a@.skip(i + 1));
        assert(b@.skip(i as int).drop_first() =~= b@.skip(i + 1));
        if x < y {
            return Order::Less;
        } else if x > y {
            return Order::Greater;
        }
        i = i + 1;
    }
    if i == la && i == lb {
        Order::Equal
    } else if i == la {
        Order::Less
    } else {
        Order::Greater
    }
}

/// Copies a string.
pub fn copy_string(s: &String) -> (r: String)
    ensures
        r@ == s@,
{
    s.clone()
}

/// Copies a byte vector.
pub fn copy_bytes(v: &Vec<u8>) -> (r: Vec<u8>)
    ensures
        r@ == v@,
{
    let mut r: Vec<u8> = Vec::new();
    let mut i: usize = 0;
    while i < v.len()
        invariant
            i <= v.len(),
            r@ == v@.take(i as int),
        decreases v.len() - i,
    {
        r.push(v[i]);
        i = i + 1;
        assert(r@ =~= v@.take(i as int));
    }
    assert(v@.take(v.len() as int) =~= v@);
    r
}

impl Value {
    /// A copy of this value.
    pub fn duplicate(&self) -> (r: Value)
        ensures
            r@ == self@,
            value_kind(r) == value_kind(*self),
    {
        match self {
            Value::Boolean(x) => Value::Boolean(*x),
            Value::Int8(x) => Value::Int8(*x),
            Value::Int16(x) => Value::Int16(*x),
            Value::Int32(x) => Value::Int32(*x),
            Value::Int64(x) => Value::Int64(*x),
            Value::Int128(x) => Value::Int128(*x),
            Value::UInt8(x) => Value::UInt8(*x),
            Value::UInt16(x) => Value::UInt16(*x),
            Value::UInt32(x) => Value::UInt32(*x),
            Value::UInt64(x) => Value::UInt64(*x),
            Value::UInt128(x) => Value::UInt128(*x),
            Value::Date(x) => Value::Date(*x),
            Value::Time(x) => Value::Time(*x),
            Value::Timestamp(x) => Value::Timestamp(*x),
            Value::TimestampTz(x) => Value::TimestampTz(*x),
            Value::Varchar(s) => Value::Varchar(copy_string(s)),
            Value::Blob(b) => Value::Blob(copy_bytes(b)),
            Value::Uuid(x) => Value::Uuid(*x),
        }
    }

    /// Compares two values; `None` when they are of different kinds.
    pub fn compare(&self, other: &Value) -> (r: Option<Order>)
        ensures
            r == value_order(*self, *other),
    {
        match (self, other) {
            (Value::Boolean(x), Value::Boolean(y)) => {
                let a: i128 = if *x { 1 } else { 0 };
                let b: i128 = if *y { 1 } else { 0 };
                Some(order_i128(a, b))
            },
            (Value::Int8(x), Value::Int8(y)) => Some(order_i128(*x as i128, *y as i128)),
            (Value::Int16(x), Value::Int16(y)) => Some(order_i128(*x as i128, *y as i128)),
            (Value::Int32(x), Value::Int32(y)) => Some(order_i128(*x as i128, *y as i128)),
            (Value::Int64(x), Value::Int64(y)) => Some(order_i128(*x as i128, *y as i128)),
            (Value::Int128(x), Value::Int128(y)) => Some(order_i128(*x, *y)),
            (Value::UInt8(x), Value::UInt8(y)) => Some(order_u128(*x as u128, *y as u128)),
            (Value::UInt16(x), Value::UInt16(y)) => Some(order_u128(*x as u128, *y as u128)),
            (Value::UInt32(x), Value::UInt32(y)) => Some(order_u128(*x as u128, *y as u128)),
            (Value::UInt64(x), Value::UInt64(y)) => Some(order_u128(*x as u128, *y as u128)),
            (Value::UInt128(x), Value::UInt128(y)) => Some(order_u128(*x, *y)),
            (Value::Date(x), Value::Date(y)) => Some(order_i128(*x as i128, *y as i128)),
            (Value::Time(x), Value::Time(y)) => Some(order_i128(*x as i128, *y as i128)),
            (Value::Timestamp(x), Value::Timestamp(y)) => Some(order_i128(*x as i128, *y as i128)),
            (Value::TimestampTz(x), Value::TimestampTz(y)) => Some(
                order_i128(*x as i128, *y as i128),
            ),
            (Value::Varchar(x), Value::Varchar(y)) => Some(compare_str(x.as_str(), y.as_str())),
            (Value::Blob(x), Value::Blob(y)) => Some(compare_bytes(x.as_slice(), y.as_slice())),
            (Value::Uuid(x), Value::Uuid(y)) => Some(order_u128(*x, *y)),
            _ => None,
        }
    }
}

/// `a` comes before `b` in dictionary order, deciding at position `k`: they agree before `k`,
/// and there `a` ends while `b` goes on, or `a`'s character has the smaller code point.
pub open spec fn chars_before_at(a: Seq<char>, b: Seq<char>, k: int) -> bool {
    &&& 0 <= k <= a.len()
    &&& k <= b.len()
    &&& forall|j: int| 0 <= j < k ==> a[j] == b[j]
    &&& (k == a.len() && k < b.len()) || (k < a.len() && k < b.len() && (a[k] as u32) < (b[k] as u32))
}

/// `a` comes before `b` in dictionary order of bytes, deciding at position `k`.
pub open spec fn bytes_before_at(a: Seq<u8>, b: Seq<u8>, k: int) -> bool {
    &&& 0 <= k <= a.len()
    &&& k <= b.len()
    &&& forall|j: int| 0 <= j < k ==> a[j] == b[j]
    &&& (k == a.len() && k < b.len()) || (k < a.len() && k < b.len() && a[k] < b[k])
}

/// Character sequences are ordered as in a dictionary, whatever their lengths: a proper
/// prefix comes first, and otherwise the first differing character decides.
pub proof fn lemma_order_chars_dictionary(a: Seq<char>, b: Seq<char>, k: int)
    requires
        chars_before_at(a, b, k),
    ensures
        order_chars(a, b) == Order::Less,
        order_chars(b, a) == Order::Greater,
    decreases k,
{
    if k > 0 {
        assert(a[0] == b[0]);
        assert forall|j: int| 0 <= j < k - 1 implies a.drop_first()[j] == b.drop_first()[j] by {
            assert(a[j + 1] == b[j + 1]);
        }
        lemma_order_chars_dictionary(a.drop_first(), b.drop_first(), k - 1);
    }
}

/// Equal character sequences, and only those, compare as equal.
pub proof fn lemma_order_chars_equal(a: Seq<char>, b: Seq<char>)
    ensures
        order_chars(a, b) == Order::Equal <==> a == b,
    decreases a.len(),
{
    if a.len() == 0 || b.len() == 0 {
        if a.len() == 0 && b.len() == 0 {
            assert(a =~= b);
        }
    } else if (a[0] as u32) != (b[0] as u32) {
        assert(a[0] != b[0]);
    } else {
        vstd::utf8::char_u32_cast(a[0], a[0] as u32);
        vstd::utf8::char_u32_cast(b[0], b[0] as u32);
        lemma_order_chars_equal(a.drop_first(), b.drop_first());
        assert(order_chars(a, b) == order_chars(a.drop_first(), b.drop_first()));
        if a.drop_first() == b.drop_first() {
            assert(a =~= seq![a[0]] + a.drop_first());
            assert(b =~= seq![b[0]] + b.drop_first());
        }
        if a == b {
            assert(a.drop_first() =~= b.drop_first());
        }
    }
}

/// Byte sequences are ordered as in a dictionary, whatever their lengths.
pub proof fn lemma_order_bytes_dictionary(a: Seq<u8>, b: Seq<u8>, k: int)
    requires
        bytes_before_at(a, b, k),
    ensures
        order_bytes(a, b) == Order::Less,
        order_bytes(b, a) == Order::Greater,
    decreases k,
{
    if k > 0 {
        assert(a[0] == b[0]);
        assert forall|j: int| 0 <= j < k - 1 implies a.drop_first()[j] == b.drop_first()[j] by {
            assert(a[j + 1] == b[j + 1]);
        }
        lemma_order_bytes_dictionary(a.drop_first(), b.drop_first(), k - 1);
    }
}

/// Text values (the bounds of statistics on text columns) are ordered as in a dictionary: a
/// proper prefix is smaller, and otherwise the first differing character decides, whatever
/// the lengths (so `"aa"` is below `"b"`). Equal texts, and only those, compare as equal.
pub proof fn lemma_varchar_order(x: String, y: String, k: int)
    ensures
        chars_before_at(x@, y@, k) ==> value_order(Value::Varchar(x), Value::Varchar(y)) == Some(Order::Less)
            && value_order(Value::Varchar(y), Value::Varchar(x)) == Some(Order::Greater),
        value_order(Value::Varchar(x), Value::Varchar(y)) == Some(Order::Equal) <==> x@ == y@,
{
    if chars_before_at(x@, y@, k) {
        lemma_order_chars_dictionary(x@, y@, k);
    }
    lemma_order_chars_equal(x@, y@);
}

/// Binary values are ordered as in a dictionary of bytes, whatever their lengths.
pub proof fn lemma_blob_order(x: Vec<u8>, y: Vec<u8>, k: int)
    ensures
        bytes_before_at(x@, y@, k) ==> value_order(Value::Blob(x), Value::Blob(y)) == Some(Order::Less)
            && value_order(Value::Blob(y), Value::Blob(x)) == Some(Order::Greater),
{
    if bytes_before_at(x@, y@, k) {
        lemma_order_bytes_dictionary(x@, y@, k);
    }
}

} // verus!
