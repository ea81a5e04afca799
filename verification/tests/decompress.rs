use compacto::Decompressor;
use serde_json::Value;

const OUTPUT_SAMPLE: &str = r#"[{"0":1,"2":[{"3":{"4":5,"6":1,"7":8}},{"3":{"4":9,"6":10,"7":11}}]},["page",1,"users","user","age",null,"id","name","eduardo",90,2,"jose"]]"#;
const INPUT_SAMPLE: &str = r#"{
    "users": [
        {"user": {"id": 1, "name": "eduardo", "age": null}},
        {"user": {"id": 2, "name": "jose", "age": 90}}
    ],
    "page": 1
}"#;

#[test]
fn should_return_valid_json() -> compacto::Result<()> {
    let result = Decompressor::new(OUTPUT_SAMPLE)?.decompress()?;
    let output: Value = serde_json::from_str(&result).unwrap();
    assert_eq!(true, output.is_object());
    Ok(())
}

#[test]
fn should_be_equal_to_original_json() -> compacto::Result<()> {
    let result = Decompressor::new(OUTPUT_SAMPLE)?.decompress()?;
    let result_value: Value = serde_json::from_str(&result).unwrap();
    let expect: Value = serde_json::from_str(INPUT_SAMPLE).unwrap();
    assert_eq!(expect, result_value);
    Ok(())
}

#[test]
fn should_return_original_input_if_not_array() -> compacto::Result<()> {
    let result = Decompressor::new(r#"{"ok":"ok"}"#)?.decompress()?;
    let result_value: Value = serde_json::from_str(&result).unwrap();
    let mut expected = serde_json::Map::new();
    expected.insert("ok".to_string(), Value::String("ok".to_string()));
    assert_eq!(Value::Object(expected), result_value);
    Ok(())
}

#[test]
fn should_return_original_input_if_not_array_expected_length() -> compacto::Result<()> {
    let result = Decompressor::new(r#"[{"ok":"ok"}]"#)?.decompress()?;
    let result_obj: Value = serde_json::from_str(&result).unwrap();
    let mut expected = serde_json::Map::new();
    expected.insert("ok".to_string(), Value::String("ok".to_string()));
    assert_eq!(Value::Array(vec![Value::Object(expected)]), result_obj);
    Ok(())
}

fn unknown(text: &str) -> String {
    match compacto::decompress_json(text) {
        Err(compacto::Error::UnknownJSONValueRef(culprit)) => culprit,
        other => panic!("unexpected outcome: {:?}", other),
    }
}

#[test]
fn bare_scalar_root_comes_back() {
    assert_eq!(compacto::decompress_json("[0,[5]]").unwrap(), "5");
}

#[test]
fn anything_but_an_array_of_two_passes_through() {
    for text in ["5", "null", "true", r#""a""#, "[]", "[1]", "[1,2,3]", r#"{"0":1}"#, r#"[[0],[5],[]]"#] {
        assert_eq!(compacto::decompress_json(text).unwrap(), text);
    }
}

#[test]
fn a_leaf_may_be_a_number_or_a_numeric_string() {
    assert_eq!(compacto::decompress_json(r#"[[1,"0","+1","001"],["a","b"]]"#).unwrap(), r#"["b","a","b","b"]"#);
}

#[test]
fn a_key_is_replaced_by_the_string_it_names() {
    assert_eq!(
        compacto::decompress_json(r#"[{"1":0,"+2":[0]},[true,"k","l"]]"#).unwrap(),
        r#"{"k":true,"l":[true]}"#
    );
}

#[test]
fn a_later_member_replaces_an_earlier_one_with_the_same_key() {
    assert_eq!(
        compacto::decompress_json(r#"[{"0":1,"00":2},["k","a","b"]]"#).unwrap(),
        r#"{"k":"b"}"#
    );
}

#[test]
fn a_reference_list_that_is_no_array_counts_as_empty() {
    assert_eq!(compacto::decompress_json("[[],5]").unwrap(), "[]");
    assert_eq!(compacto::decompress_json(r#"[{},"x"]"#).unwrap(), "{}");
    assert_eq!(unknown("[0,5]"), "0");
    assert_eq!(unknown(r#"[0,{"0":1}]"#), "0");
}

#[test]
fn null_and_booleans_name_no_entry() {
    assert_eq!(unknown("[true,[1]]"), "true");
    assert_eq!(unknown("[false,[1]]"), "false");
    assert_eq!(unknown("[null,[1]]"), "null");
    assert_eq!(unknown("[[0,null],[1]]"), "null");
}

#[test]
fn an_index_beyond_the_list_names_no_entry() {
    assert_eq!(unknown("[1,[7]]"), "1");
    assert_eq!(unknown("[0,[]]"), "0");
    assert_eq!(unknown(r#"["2",[7,8]]"#), r#""2""#);
    assert_eq!(unknown(r#"[{"3":0},["k"]]"#), r#""3""#);
    assert_eq!(unknown("[18446744073709551615,[7]]"), "18446744073709551615");
    assert_eq!(unknown(r#"["99999999999999999999999999",[7]]"#), r#""99999999999999999999999999""#);
}

#[test]
fn a_leaf_that_writes_no_index_names_no_entry() {
    assert_eq!(unknown("[1.5,[7,8]]"), "1.5");
    assert_eq!(unknown("[-1,[7,8]]"), "-1");
    assert_eq!(unknown("[1.0,[7,8]]"), "1.0");
    assert_eq!(unknown(r#"["abc",[7]]"#), r#""abc""#);
    assert_eq!(unknown(r#"["",[7]]"#), r#""""#);
    assert_eq!(unknown(r#"["+",[7]]"#), r#""+""#);
    assert_eq!(unknown(r#"["-0",[7]]"#), r#""-0""#);
    assert_eq!(unknown(r#"["1 ",[7]]"#), r#""1 ""#);
    assert_eq!(unknown(r#"["١",[7]]"#), r#""١""#);
}

#[test]
fn a_key_must_name_a_string() {
    assert_eq!(unknown(r#"[{"x":0},["k"]]"#), r#""x""#);
    assert_eq!(unknown(r#"[{"0":0},[1]]"#), r#""0""#);
    assert_eq!(unknown(r#"[{"0":0},[null]]"#), r#""0""#);
    assert_eq!(unknown(r#"[{"0":0},[["k"]]]"#), r#""0""#);
}

#[test]
fn the_first_culprit_in_reading_order_is_reported() {
    assert_eq!(unknown("[[0,true,null],[1]]"), "true");
    assert_eq!(unknown(r#"[{"0":true,"9":0},["k"]]"#), "true");
    assert_eq!(unknown(r#"[[[0,9],8],[1]]"#), "9");
}

#[test]
fn an_entry_is_substituted_whatever_it_is() {
    assert_eq!(compacto::decompress_json("[[0,0],[[1,2]]]").unwrap(), "[[1,2],[1,2]]");
}

#[test]
fn text_that_is_not_json_cannot_be_decompressed() {
    let expected = serde_json::from_str::<Value>("[1,").unwrap_err().to_string();
    match compacto::decompress_json("[1,") {
        Err(compacto::Error::JSONError(message)) => assert_eq!(message, expected),
        other => panic!("unexpected outcome: {:?}", other),
    }
    assert!(matches!(
        Decompressor::new("{"),
        Err(compacto::Error::JSONError(_))
    ));
}

#[test]
fn decompress_may_be_asked_twice() {
    let mut decompressor = Decompressor::new(r#"[{"0":1},["a","b"]]"#).unwrap();
    assert_eq!(decompressor.decompress().unwrap(), r#"{"a":"b"}"#);
    assert_eq!(decompressor.decompress().unwrap(), r#"{"a":"b"}"#);
}

#[test]
fn decompress_document_resolves_against_the_second_element() {
    let packed = compacto::text::read_document(r#"[{"0":[1,0,2]},["k","v",7]]"#).unwrap();
    let expected = compacto::text::read_document(r#"{"k":["v","k",7]}"#).unwrap();
    assert_eq!(compacto::decompress_document(&packed).unwrap(), expected);
}

#[test]
fn keys_that_name_one_string_give_members_in_order() {
    let packed = compacto::text::read_document(r#"[{"0":1,"00":2},["k","a","b"]]"#).unwrap();
    let expected = compacto::Document::Object(vec![
        ("k".to_string(), compacto::Document::String("a".to_string())),
        ("k".to_string(), compacto::Document::String("b".to_string())),
    ]);
    assert_eq!(compacto::decompress_document(&packed).unwrap(), expected);
}

#[test]
fn decompress_document_reports_the_culprit() {
    let packed = compacto::text::read_document(r#"[[0,{"1":7}],["a","b"]]"#).unwrap();
    match compacto::decompress_document(&packed) {
        Err(compacto::Error::UnknownJSONValueRef(text)) => assert_eq!(text, "7"),
        other => panic!("unexpected outcome: {:?}", other),
    }
}
