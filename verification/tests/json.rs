use compacto::text::{read_document, write_document};
use compacto::Document;
use serde_json::Number;

#[test]
fn a_text_is_read_into_its_document() {
    let doc = read_document(r#"{"b":[1,"x",null,true],"a":{"c":-2.5}}"#).unwrap();
    let expected = Document::Object(vec![
        (
            "a".to_string(),
            Document::Object(vec![(
                "c".to_string(),
                Document::Number(Number::from_f64(-2.5).unwrap()),
            )]),
        ),
        (
            "b".to_string(),
            Document::Array(vec![
                Document::Number(Number::from(1u64)),
                Document::String("x".to_string()),
                Document::Null,
                Document::Bool(true),
            ]),
        ),
    ]);
    assert_eq!(doc, expected);
}

#[test]
fn a_text_that_is_not_json_gives_the_parsers_message() {
    let expected = serde_json::from_str::<serde_json::Value>("[1,]")
        .unwrap_err()
        .to_string();
    assert_eq!(read_document("[1,]"), Err(expected));
}

#[test]
fn a_document_is_written_as_compact_json() {
    let doc = Document::Array(vec![
        Document::Null,
        Document::Bool(false),
        Document::Number(Number::from(12u64)),
        Document::Number(Number::from(-3i64)),
        Document::String("a\"b".to_string()),
        Document::Object(vec![
            ("z".to_string(), Document::Array(vec![])),
            ("a".to_string(), Document::Object(vec![])),
        ]),
    ]);
    assert_eq!(write_document(&doc), r#"[null,false,12,-3,"a\"b",{"a":{},"z":[]}]"#);
}

#[test]
fn of_two_members_with_one_key_the_later_is_written() {
    let doc = Document::Object(vec![
        ("k".to_string(), Document::Bool(true)),
        ("j".to_string(), Document::Null),
        ("k".to_string(), Document::Bool(false)),
    ]);
    assert_eq!(write_document(&doc), r#"{"j":null,"k":false}"#);
}

#[test]
fn what_was_read_is_written_as_serde_json_writes_it() {
    for text in [
        "5",
        r#"{"b":1,"a":[1.50,2e2,-0.0,"é\n"]}"#,
        "[[[]],{},[{}]]",
        "  [ 1 , 2 ]  ",
    ] {
        let expected = serde_json::from_str::<serde_json::Value>(text).unwrap().to_string();
        assert_eq!(write_document(&read_document(text).unwrap()), expected);
    }
}

#[test]
fn a_copy_stands_for_the_same_document() {
    let doc = read_document(r#"{"a":[1,2.5,"x",null,{"b":false}]}"#).unwrap();
    assert_eq!(doc.clone(), doc);
}

#[test]
fn scalars_are_told_from_arrays_and_objects() {
    for text in ["null", "true", "1", "1.5", r#""a""#] {
        assert!(read_document(text).unwrap().is_scalar());
    }
    for text in ["[]", "{}", "[1]", r#"{"a":1}"#] {
        assert!(!read_document(text).unwrap().is_scalar());
    }
}

#[test]
fn documents_are_equal_by_type_and_text() {
    let read = |text: &str| read_document(text).unwrap();
    assert!(read("null") == read("null"));
    assert!(read("true") == read("true"));
    assert!(read("true") != read("false"));
    assert!(read("12") == read("12"));
    assert!(read("12") != read("13"));
    assert!(read("1") != read("1.0"));
    assert!(read("1.0") == read("1.00"));
    assert!(read("0.0") != read("-0.0"));
    assert!(read(r#""a""#) == read(r#""a""#));
    assert!(read(r#""a""#) != read(r#""b""#));
    assert!(read(r#""1""#) != read("1"));
    assert!(read("null") != read(r#""null""#));
    assert!(read("1") != read("[1]"));
    assert!(read("[]") != read("{}"));
    assert!(read("[1,[2,{\"a\":null}]]") == read("[1, [2, {\"a\": null}]]"));
    assert!(read("[1,2]") != read("[2,1]"));
    assert!(read("[1,2]") != read("[1,2,3]"));
    assert!(read(r#"{"a":1,"b":2}"#) == read(r#"{"b":2,"a":1}"#));
    assert!(read(r#"{"a":1,"b":2}"#) != read(r#"{"a":1,"b":3}"#));
    assert!(read(r#"{"a":1,"b":2}"#) != read(r#"{"a":1,"c":2}"#));
    assert!(read(r#"{"a":1}"#) != read(r#"{"a":1,"b":2}"#));
}

#[test]
fn members_are_compared_in_their_order() {
    let ab = Document::Object(vec![
        ("a".to_string(), Document::Null),
        ("b".to_string(), Document::Null),
    ]);
    let ba = Document::Object(vec![
        ("b".to_string(), Document::Null),
        ("a".to_string(), Document::Null),
    ]);
    assert!(ab != ba);
    assert_eq!(write_document(&ab), write_document(&ba));
}
