use meilisearch_sql_connector::document::{
    i64_to_string, is_valid_pk, pk_string_of, render_document_string, render_field_value,
    trim_quotes_str, u64_to_string, utf8_byte_len, Document, FieldValue,
};

fn doc(fields: Vec<(&str, FieldValue)>) -> Document {
    let mut d = Document::new();
    for (name, value) in fields {
        d.insert(name.to_string(), value);
    }
    d
}

#[test]
fn integer_rendering_is_decimal() {
    assert_eq!(u64_to_string(0), "0");
    assert_eq!(u64_to_string(7), "7");
    assert_eq!(u64_to_string(1234567890), "1234567890");
    assert_eq!(i64_to_string(0), "0");
    assert_eq!(i64_to_string(-1), "-1");
    assert_eq!(i64_to_string(-123456), "-123456");
    assert_eq!(i64_to_string(i64::MAX), i64::MAX.to_string());
    assert_eq!(i64_to_string(i64::MIN), i64::MIN.to_string());
}

#[test]
fn scalar_rendering_matches_serializer() {
    assert_eq!(render_field_value(&FieldValue::Null), "null");
    assert_eq!(render_field_value(&FieldValue::Boolean(true)), "true");
    assert_eq!(render_field_value(&FieldValue::Boolean(false)), "false");
    assert_eq!(render_field_value(&FieldValue::Integer(42)), "42");
    let samples = [
        "plain",
        "",
        "with \"quotes\"",
        "back\\slash",
        "tab\tnewline\nreturn\rbell\u{7}",
        "ünïcødé ☃",
    ];
    for s in samples {
        let expected = serde_json::to_string(&serde_json::Value::String(s.to_string())).unwrap();
        assert_eq!(
            render_field_value(&FieldValue::Text(s.to_string())),
            expected,
            "mismatch for {s:?}"
        );
    }
}

#[test]
fn document_rendering_matches_serializer() {
    // Field names chosen in sorted order so the serializer's map, which
    // sorts its keys, writes them in the same order.
    let d = doc(vec![
        ("a", FieldValue::Integer(1)),
        ("b", FieldValue::Text("x\"y".to_string())),
        ("c", FieldValue::Null),
    ]);
    let mut m = serde_json::Map::new();
    m.insert("a".to_string(), serde_json::Value::from(1));
    m.insert("b".to_string(), serde_json::Value::String("x\"y".to_string()));
    m.insert("c".to_string(), serde_json::Value::Null);
    let expected = serde_json::to_string(&serde_json::Value::Object(m)).unwrap();
    assert_eq!(render_document_string(&d), expected);
    assert_eq!(
        utf8_byte_len(&render_document_string(&d)) as usize,
        expected.len()
    );
}

#[test]
fn empty_document_renders_as_braces() {
    let d = Document::new();
    assert_eq!(render_document_string(&d), "{}");
    assert_eq!(utf8_byte_len("{}"), 2);
}

#[test]
fn utf8_byte_len_counts_bytes_not_chars() {
    assert_eq!(utf8_byte_len("abc"), 3);
    assert_eq!(utf8_byte_len("é"), 2);
    assert_eq!(utf8_byte_len("☃"), 3);
    assert_eq!(utf8_byte_len("𝄞"), 4);
    assert_eq!(utf8_byte_len("aé☃𝄞"), 10);
}

#[test]
fn trim_quotes_removes_surrounding_quotes() {
    assert_eq!(trim_quotes_str("\"abc\""), "abc");
    assert_eq!(trim_quotes_str("abc"), "abc");
    assert_eq!(trim_quotes_str("\"\""), "");
    assert_eq!(trim_quotes_str(""), "");
    assert_eq!(trim_quotes_str("\"\"x\"\""), "x");
}

#[test]
fn pk_string_matches_trimmed_serialization() {
    let cases: Vec<(FieldValue, serde_json::Value)> = vec![
        (FieldValue::Integer(1), serde_json::Value::from(1)),
        (FieldValue::Integer(-7), serde_json::Value::from(-7)),
        (FieldValue::Boolean(true), serde_json::Value::from(true)),
        (
            FieldValue::Text("hello".to_string()),
            serde_json::Value::String("hello".to_string()),
        ),
        (
            FieldValue::Text("\"a\"".to_string()),
            serde_json::Value::String("\"a\"".to_string()),
        ),
        (FieldValue::Null, serde_json::Value::Null),
    ];
    for (fv, jv) in cases {
        let expected = jv.to_string().trim_matches('"').to_string();
        assert_eq!(pk_string_of(&fv), expected, "mismatch for {fv:?}");
    }
}

#[test]
fn identity_rule_rejects_null_zero_and_empty() {
    assert!(!is_valid_pk(&FieldValue::Null));
    assert!(!is_valid_pk(&FieldValue::Integer(0)));
    assert!(!is_valid_pk(&FieldValue::Text(String::new())));
    assert!(!is_valid_pk(&FieldValue::Text("null".to_string())));
    assert!(!is_valid_pk(&FieldValue::Text("0".to_string())));
    assert!(!is_valid_pk(&FieldValue::Raw("null".to_string())));
}

#[test]
fn identity_rule_accepts_ordinary_keys() {
    assert!(is_valid_pk(&FieldValue::Integer(1)));
    assert!(is_valid_pk(&FieldValue::Integer(-1)));
    assert!(is_valid_pk(&FieldValue::Text("1".to_string())));
    assert!(is_valid_pk(&FieldValue::Text("abc".to_string())));
    assert!(is_valid_pk(&FieldValue::Boolean(false)));
}

#[test]
fn integer_and_string_keys_collide() {
    // The canonical form conflates integer 1 and the string "1"; the
    // search backend does not distinguish them as identifiers either.
    assert_eq!(
        pk_string_of(&FieldValue::Integer(1)),
        pk_string_of(&FieldValue::Text("1".to_string()))
    );
}

#[test]
fn document_get_and_insert_behave_like_a_map() {
    let mut d = Document::new();
    d.insert("id".to_string(), FieldValue::Integer(1));
    d.insert("name".to_string(), FieldValue::Text("a".to_string()));
    assert_eq!(d.len(), 2);
    assert_eq!(d.get("id"), Some(&FieldValue::Integer(1)));
    assert_eq!(d.get("name"), Some(&FieldValue::Text("a".to_string())));
    assert_eq!(d.get("missing"), None);
    // Inserting under an existing name replaces in place.
    d.insert("id".to_string(), FieldValue::Integer(2));
    assert_eq!(d.len(), 2);
    assert_eq!(d.get("id"), Some(&FieldValue::Integer(2)));
    assert_eq!(d.fields[0].0, "id");
}
