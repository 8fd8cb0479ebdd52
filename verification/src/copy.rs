//! Rows for PostgreSQL's `COPY ... FROM STDIN` in text format: how catalog rows are written
//! when they are streamed into the catalog database in bulk.
use vstd::prelude::*;

use crate::dialect::{double_quotes, escape_quote};
use crate::text::{concat_str, decimal_chars, decimal_text, push_char_of};

verus! {

/// A value bound into a catalog statement, by kind; `Other` stands for every kind that COPY
/// does not take.
#[derive(Debug)]
pub enum SqlValue {
    Bool(Option<bool>),
    BigInt(Option<i64>),
    String(Option<String>),
    Uuid(Option<u128>),
    Other,
}

/// COPY takes booleans, big integers, strings and UUIDs.
pub open spec fn copy_supported(v: SqlValue) -> bool {
    !(v is Other)
}

/// Whether all values of the rows can be streamed with COPY.
pub fn supports(rows: &[Vec<SqlValue>]) -> (r: bool)
    ensures
        r == forall|i: int, j: int|
            0 <= i < rows@.len() && 0 <= j < rows@[i]@.len() ==> copy_supported(#[trigger] rows@[i]@[j]),
{
    let mut i: usize = 0;
    while i < rows.len()
        invariant
            i <= rows@.len(),
            forall|a: int, j: int| 0 <= a < i && 0 <= j < rows@[a]@.len() ==> copy_supported(#[trigger] rows@[a]@[j]),
        decreases rows@.len() - i,
    {
        let row = &rows[i];
        let mut j: usize = 0;
        while j < row.len()
            invariant
                i < rows@.len(),
                row == rows@[i as int],
                j <= row@.len(),
                forall|a: int, b: int| 0 <= a < i && 0 <= b < rows@[a]@.len() ==> copy_supported(#[trigger] rows@[a]@[b]),
                forall|b: int| 0 <= b < j ==> copy_supported(#[trigger] row@[b]),
            decreases row@.len() - j,
        {
            if let SqlValue::Other = row[j] {
                assert(!copy_supported(rows@[i as int]@[j as int]));
                return false;
            }
            j = j + 1;
        }
        i = i + 1;
    }
    true
}

/// How one character of a string is written: backslash, tab, newline and carriage return as
/// backslash escapes, every other character as itself.
pub open spec fn escape_char(c: char) -> Seq<char> {
    if c == '\\' {
        seq!['\\', '\\']
    } else if c == '\t' {
        seq!['\\', 't']
    } else if c == '\n' {
        seq!['\\', 'n']
    } else if c == '\r' {
        seq!['\\', 'r']
    } else {
        seq![c]
    }
}

/// A string as COPY's text format writes it.
pub open spec fn copy_escape(s: Seq<char>) -> Seq<char>
    decreases s.len(),
{
    if s.len() == 0 {
        Seq::empty()
    } else {
        copy_escape(s.drop_last()) + escape_char(s.last())
    }
}

/// The decimal text of an integer, with a leading `-` when it is negative.
pub open spec fn int_chars(n: int) -> Seq<char> {
    if n < 0 {
        seq!['-'] + decimal_chars((-n) as nat)
    } else {
        decimal_chars(n as nat)
    }
}

/// The lowercase hexadecimal digit of `d` (below 16).
pub open spec fn hex_char(d: int) -> char {
    if d < 10 {
        (('0' as int) + d) as char
    } else {
        (('a' as int) + d - 10) as char
    }
}

/// The `k`-th of the 32 hexadecimal digits of a 128-bit value, most significant first.
pub open spec fn hex_digit_of(v: u128, k: int) -> char {
    hex_char(((v as int) / vstd::arithmetic::power::pow(16, (31 - k) as nat)) % 16)
}

/// A UUID's hyphenated lowercase text: its 32 hexadecimal digits in groups of 8, 4, 4, 4 and
/// 12, separated by `-`.
pub open spec fn uuid_chars(v: u128) -> Seq<char> {
    let d = Seq::new(32, |k: int| hex_digit_of(v, k));
    d.subrange(0, 8) + seq!['-'] + d.subrange(8, 12) + seq!['-'] + d.subrange(12, 16) + seq!['-'] + d.subrange(16, 20)
        + seq!['-'] + d.subrange(20, 32)
}

/// How a value is written in a COPY row: `t` or `f`, decimal integers, hyphenated UUIDs,
/// escaped strings, and `\N` for a null.
pub open spec fn copy_field(v: SqlValue) -> Seq<char> {
    match v {
        SqlValue::Bool(Some(b)) => if b {
            seq!['t']
        } else {
            seq!['f']
        },
        SqlValue::BigInt(Some(n)) => int_chars(n as int),
        SqlValue::Uuid(Some(u)) => uuid_chars(u),
        SqlValue::String(Some(s)) => copy_escape(s@),
        _ => seq!['\\', 'N'],
    }
}

/// The first `k` fields of a row, separated by tabs.
pub open spec fn copy_fields(row: Seq<SqlValue>, k: int) -> Seq<char>
    decreases k,
{
    if k <= 0 || k > row.len() {
        Seq::empty()
    } else if k == 1 {
        copy_field(row[0])
    } else {
        copy_fields(row, k - 1) + seq!['\t'] + copy_field(row[k - 1])
    }
}

/// A row as a line of COPY's text format.
pub open spec fn copy_line(row: Seq<SqlValue>) -> Seq<char> {
    copy_fields(row, row.len() as int) + seq!['\n']
}

/// The decimal text of `n` (`Display` for `i64`).
pub(crate) fn int_text(n: i64) -> (r: String)
    ensures
        r@ == int_chars(n as int),
{
    if n < 0 {
        let magnitude: u64 = ((-(n + 1)) as u64) + 1;
        let digits = decimal_text(magnitude);
        let r = concat_str("-", digits.as_str());
        proof {
            reveal_strlit("-");
        }
        r
    } else {
        decimal_text(n as u64)
    }
}

/// The hyphenated lowercase text of a UUID (`uuid::Uuid::from_u128` and its `Display`).
#[verifier::external_body]
fn uuid_text(v: u128) -> (r: String)
    ensures
        r@ == uuid_chars(v),
{
    uuid::Uuid::from_u128(v).hyphenated().to_string()
}

/// Appends the COPY text of string `s` to `buffer`.
fn push_escaped(buffer: &mut String, s: &str)
    ensures
        final(buffer)@ == old(buffer)@ + copy_escape(s@),
{
    let n = s.unicode_len();
    let mut i: usize = 0;
    while i < n
        invariant
            n == s@.len(),
            i <= n,
            buffer@ == old(buffer)@ + copy_escape(s@.take(i as int)),
        decreases n - i,
    {
        let c = s.get_char(i);
        assert(s@.take(i + 1).drop_last() =~= s@.take(i as int));
        assert(s@.take(i + 1).last() == c);
        let ghost before = buffer@;
        if c == '\\' {
            buffer.append("\\\\");
            proof {
                reveal_strlit("\\\\");
            }
            assert("\\\\"@ =~= seq!['\\', '\\']);
        } else if c == '\t' {
            buffer.append("\\t");
            proof {
                reveal_strlit("\\t");
            }
            assert("\\t"@ =~= seq!['\\', 't']);
        } else if c == '\n' {
            buffer.append("\\n");
            proof {
                reveal_strlit("\\n");
            }
            assert("\\n"@ =~= seq!['\\', 'n']);
        } else if c == '\r' {
            buffer.append("\\r");
            proof {
                reveal_strlit("\\r");
            }
            assert("\\r"@ =~= seq!['\\', 'r']);
        } else {
            push_char_of(buffer, s, i);
        }
        assert(buffer@ =~= before + escape_char(c));
        assert(copy_escape(s@.take(i + 1)) == copy_escape(s@.take(i as int)) + escape_char(c));
        assert(buffer@ =~= old(buffer)@ + copy_escape(s@.take(i + 1)));
        i = i + 1;
    }
    assert(s@.take(n as int) =~= s@);
}

/// Appends the COPY text of a value to `buffer`.
fn push_field(buffer: &mut String, value: SqlValue)
    requires
        copy_supported(value),
    ensures
        final(buffer)@ == old(buffer)@ + copy_field(value),
{
    proof {
        reveal_strlit("t");
        reveal_strlit("f");
        reveal_strlit("\\N");
    }
    match value {
        SqlValue::Bool(Some(b)) => {
            if b {
                buffer.append("t");
            } else {
                buffer.append("f");
            }
        },
        SqlValue::BigInt(Some(n)) => {
            let t = int_text(n);
            buffer.append(t.as_str());
        },
        SqlValue::Uuid(Some(u)) => {
            let t = uuid_text(u);
            buffer.append(t.as_str());
        },
        SqlValue::String(Some(s)) => {
            push_escaped(buffer, s.as_str());
        },
        _ => {
            buffer.append("\\N");
        },
    }
}

/// Appends a row to `buffer` as a line of COPY's text format: the values separated by tabs,
/// then a newline.
pub fn encode_row(buffer: &mut String, row: Vec<SqlValue>)
    requires
        forall|j: int| 0 <= j < row@.len() ==> copy_supported(#[trigger] row@[j]),
    ensures
        final(buffer)@ == old(buffer)@ + copy_line(row@),
{
    let ghost all = row@;
    let n = row.len();
    let mut index: usize = 0;
    for value in it: row.into_iter()
        invariant
            it.seq() == all,
            index == it.index(),
            index <= n,
            n == all.len(),
            forall|j: int| 0 <= j < all.len() ==> copy_supported(#[trigger] all[j]),
            buffer@ == old(buffer)@ + copy_fields(all, index as int),
    {
        assert(value == all[index as int]);
        let ghost before = buffer@;
        if index > 0 {
            buffer.append("\t");
            proof {
                reveal_strlit("\t");
            }
            assert("\t"@ =~= seq!['\t']);
        }
        let ghost mid = buffer@;
        push_field(buffer, value);
        assert(copy_fields(all, index + 1) == if index == 0 {
            copy_field(all[0])
        } else {
            copy_fields(all, index as int) + seq!['\t'] + copy_field(all[index as int])
        });
        assert(buffer@ =~= old(buffer)@ + copy_fields(all, index + 1));
        index = index + 1;
    }
    buffer.append("\n");
    proof {
        reveal_strlit("\n");
    }
    assert(buffer@ =~= old(buffer)@ + copy_line(all));
}

/// A table or column name as a quoted SQL identifier: in double quotes, with each double
/// quote doubled.
pub fn quote_identifier(identifier: &str) -> (r: String)
    ensures
        r@ == quoted(identifier@),
{
    let inner = escape_quote(identifier, '"');
    proof {
        reveal_strlit("\"");
    }
    let a = concat_str("\"", inner.as_str());
    let r = concat_str(a.as_str(), "\"");
    assert(r@ =~= seq!['"'] + double_quotes(identifier@, '"') + seq!['"']);
    r
}

/// A name as a quoted SQL identifier.
pub open spec fn quoted(name: Seq<char>) -> Seq<char> {
    seq!['"'] + double_quotes(name, '"') + seq!['"']
}

/// The first `k` names, each quoted, separated by `, `.
pub open spec fn quoted_list(names: Seq<Seq<char>>, k: int) -> Seq<char>
    decreases k,
{
    if k <= 0 || k > names.len() {
        Seq::empty()
    } else if k == 1 {
        quoted(names[0])
    } else {
        quoted_list(names, k - 1) + seq![',', ' '] + quoted(names[k - 1])
    }
}

/// The statement that streams rows of the given columns into a table with COPY in text
/// format.
pub fn copy_statement(table: &str, columns: &[&str]) -> (r: String)
    ensures
        r@ == "COPY "@ + quoted(table@) + " ("@ + quoted_list(columns@.map_values(|c: &str| c@), columns@.len() as int)
            + ") FROM STDIN WITH (FORMAT text, ENCODING 'UTF8')"@,
{
    let ghost names = columns@.map_values(|c: &str| c@);
    let mut list = String::new();
    let mut k: usize = 0;
    while k < columns.len()
        invariant
            k <= columns@.len(),
            names == columns@.map_values(|c: &str| c@),
            list@ == quoted_list(names, k as int),
        decreases columns@.len() - k,
    {
        if k > 0 {
            list.append(", ");
            proof {
                reveal_strlit(", ");
            }
        }
        let q = quote_identifier(columns[k]);
        list.append(q.as_str());
        assert(list@ =~= quoted_list(names, k + 1));
        k = k + 1;
    }
    let mut r = String::new();
    r.append("COPY ");
    let t = quote_identifier(table);
    r.append(t.as_str());
    r.append(" (");
    r.append(list.as_str());
    r.append(") FROM STDIN WITH (FORMAT text, ENCODING 'UTF8')");
    assert(r@ =~= "COPY "@ + quoted(table@) + " ("@ + quoted_list(names, columns@.len() as int)
        + ") FROM STDIN WITH (FORMAT text, ENCODING 'UTF8')"@);
    r
}

/// What COPY's text format reads back from escaped text: a backslash and the character after
/// it stand for that character (`t`, `n` and `r` for tab, newline and carriage return).
pub open spec fn copy_unescape(t: Seq<char>) -> Seq<char>
    decreases t.len(),
{
    if t.len() == 0 {
        Seq::empty()
    } else if t[0] == '\\' && t.len() >= 2 {
        seq![unescape_char(t[1])] + copy_unescape(t.subrange(2, t.len() as int))
    } else {
        seq![t[0]] + copy_unescape(t.drop_first())
    }
}

/// The character that a backslash escape stands for.
pub open spec fn unescape_char(c: char) -> char {
    if c == 't' {
        '\t'
    } else if c == 'n' {
        '\n'
    } else if c == 'r' {
        '\r'
    } else {
        c
    }
}

/// Escaping text piece by piece escapes the whole.
proof fn lemma_escape_concat(a: Seq<char>, b: Seq<char>)
    ensures
        copy_escape(a + b) == copy_escape(a) + copy_escape(b),
    decreases b.len(),
{
    if b.len() == 0 {
        assert(a + b =~= a);
        assert(copy_escape(a) + copy_escape(b) =~= copy_escape(a));
    } else {
        lemma_escape_concat(a, b.drop_last());
        assert((a + b).drop_last() =~= a + b.drop_last());
        assert((a + b).last() == b.last());
        assert(copy_escape(a + b) =~= copy_escape(a) + copy_escape(b));
    }
}

/// The escape of a non-empty text starts with the escape of its first character.
proof fn lemma_escape_front(s: Seq<char>)
    requires
        s.len() > 0,
    ensures
        copy_escape(s) == escape_char(s[0]) + copy_escape(s.drop_first()),
{
    lemma_escape_concat(seq![s[0]], s.drop_first());
    assert(seq![s[0]] + s.drop_first() =~= s);
    assert(seq![s[0]].drop_last() =~= Seq::<char>::empty());
    assert(copy_escape(Seq::<char>::empty()) =~= Seq::<char>::empty());
    assert(seq![s[0]].last() == s[0]);
    assert(copy_escape(seq![s[0]]) =~= escape_char(s[0]));
}

/// Reading an escaped string back gives the string: COPY receives exactly the text that was
/// escaped.
pub proof fn lemma_copy_escape_roundtrip(s: Seq<char>)
    ensures
        copy_unescape(copy_escape(s)) == s,
    decreases s.len(),
{
    if s.len() > 0 {
        lemma_escape_front(s);
        lemma_copy_escape_roundtrip(s.drop_first());
        let rest = copy_escape(s.drop_first());
        let c = s[0];
        let head = escape_char(c);
        let e = head + rest;
        assert(copy_escape(s) == e);
        if c == '\\' || c == '\t' || c == '\n' || c == '\r' {
            assert(head.len() == 2 && head[0] == '\\' && unescape_char(head[1]) == c);
            assert(e[0] == '\\' && e[1] == head[1]);
            assert(e.subrange(2, e.len() as int) =~= rest);
            assert(copy_unescape(e) == seq![c] + copy_unescape(rest));
        } else {
            assert(head =~= seq![c]);
            assert(e[0] == c);
            assert(e.drop_first() =~= rest);
            assert(copy_unescape(e) == seq![c] + copy_unescape(rest));
        }
        assert(s =~= seq![c] + s.drop_first());
    } else {
        assert(copy_escape(s) =~= Seq::<char>::empty());
    }
}

/// An escaped string holds no tab, newline or carriage return, so it never splits a field or
/// a row.
pub proof fn lemma_copy_escape_no_separators(s: Seq<char>)
    ensures
        !copy_escape(s).contains('\t'),
        !copy_escape(s).contains('\n'),
        !copy_escape(s).contains('\r'),
    decreases s.len(),
{
    if s.len() > 0 {
        lemma_copy_escape_no_separators(s.drop_last());
        let prev = copy_escape(s.drop_last());
        let e = copy_escape(s);
        assert forall|i: int| 0 <= i < e.len() implies e[i] != '\t' && e[i] != '\n' && e[i] != '\r' by {
            if i < prev.len() {
                assert(e[i] == prev[i]);
                assert(prev.contains(prev[i]));
            }
        }
    }
}

/// A string value never reads as a null: its escape is never `\N`.
pub proof fn lemma_copy_string_not_null(s: Seq<char>)
    ensures
        copy_escape(s) != seq!['\\', 'N'],
{
    if s.len() > 0 {
        lemma_escape_front(s);
        let e = copy_escape(s);
        if e == seq!['\\', 'N'] {
            assert(e[0] == '\\');
            assert(e[1] == 'N');
        }
    } else {
        assert(copy_escape(s).len() == 0);
    }
}

} // verus!
