use ducklake::{copy_statement, encode_row, quote_identifier, supports, SqlValue};

#[test]
fn rows_are_encoded_as_copy_text() {
    let mut buffer = String::from("x");
    encode_row(
        &mut buffer,
        vec![
            SqlValue::Bool(Some(true)),
            SqlValue::BigInt(Some(-42)),
            SqlValue::String(Some("a\tb\\c\nd\re\\N".to_string())),
            SqlValue::Uuid(Some(0x0123_4567_89ab_cdef_0011_2233_4455_6677)),
            SqlValue::String(None),
            SqlValue::Bool(Some(false)),
        ],
    );
    assert_eq!(buffer, "xt\t-42\ta\\tb\\\\c\\nd\\re\\\\N\t01234567-89ab-cdef-0011-223344556677\t\\N\tf\n");
}

#[test]
fn extreme_integers_are_written_in_full() {
    let mut buffer = String::new();
    encode_row(&mut buffer, vec![SqlValue::BigInt(Some(i64::MIN)), SqlValue::BigInt(Some(i64::MAX)), SqlValue::BigInt(Some(0))]);
    assert_eq!(buffer, "-9223372036854775808\t9223372036854775807\t0\n");
}

#[test]
fn empty_row_is_an_empty_line() {
    let mut buffer = String::new();
    encode_row(&mut buffer, Vec::new());
    assert_eq!(buffer, "\n");
}

#[test]
fn only_scalar_kinds_are_supported() {
    assert!(supports(&[vec![SqlValue::Bool(None), SqlValue::Uuid(None)], vec![SqlValue::String(Some("s".to_string()))]]));
    assert!(!supports(&[vec![SqlValue::BigInt(Some(1))], vec![SqlValue::Other]]));
    assert!(supports(&[]));
}

#[test]
fn identifiers_are_quoted() {
    assert_eq!(quote_identifier("ducklake_table"), "\"ducklake_table\"");
    assert_eq!(quote_identifier("we\"ird"), "\"we\"\"ird\"");
    assert_eq!(
        copy_statement("ducklake_tag", &["object_id", "key"]),
        "COPY \"ducklake_tag\" (\"object_id\", \"key\") FROM STDIN WITH (FORMAT text, ENCODING 'UTF8')"
    );
}

fn unescape(t: &str) -> String {
    let mut out = String::new();
    let mut chars = t.chars();
    while let Some(c) = chars.next() {
        if c == '\\' {
            match chars.next() {
                Some('t') => out.push('\t'),
                Some('n') => out.push('\n'),
                Some('r') => out.push('\r'),
                Some(other) => out.push(other),
                None => out.push('\\'),
            }
        } else {
            out.push(c);
        }
    }
    out
}

#[test]
fn escaped_strings_read_back_and_hold_no_separators() {
    for s in ["", "plain", "tab\there", "back\\slash", "\\N", "multi\nline\r\n"] {
        let mut buffer = String::new();
        encode_row(&mut buffer, vec![SqlValue::String(Some(s.to_string()))]);
        let field = buffer.strip_suffix('\n').unwrap();
        assert!(!field.contains('\t') && !field.contains('\n') && !field.contains('\r'));
        assert_ne!(field, "\\N");
        assert_eq!(unescape(field), s);
    }
}
