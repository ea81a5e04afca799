use compacto::Compressor;
use serde_json::Value;

fn sample() -> String {
    r#"{
            "users": [
                {"user": {"id": 1,"name": "eduardo","age": null}},
                {"user": {"id": 2,"name": "jose","age": 90}}],
            "page": 1
        }"#
    .to_string()
}

#[test]
fn should_be_able_to_compress_json() -> compacto::Result<()> {
    let result = Compressor::new(&sample())?.compress()?;
    assert_eq!(
        result,
        r#"[{"0":1,"2":[{"3":{"4":5,"6":1,"7":8}},{"3":{"4":9,"6":10,"7":11}}]},["page",1,"users","user","age",null,"id","name","eduardo",90,2,"jose"]]"#
    );
    Ok(())
}

#[test]
fn should_not_contain_duplicated_values() -> compacto::Result<()> {
    let json = Compressor::new(&sample())?.compress()?;
    let json_value: Value = serde_json::from_str(&json).unwrap();

    let output = json_value
        .as_array()
        .unwrap()
        .get(1)
        .unwrap()
        .as_array()
        .unwrap()
        .clone();

    assert_eq!(
        vec![
            Value::String("page".to_string()),
            Value::Number(1.into()),
            Value::String("users".to_string()),
            Value::String("user".to_string()),
            Value::String("age".to_string()),
            Value::Null,
            Value::String("id".to_string()),
            Value::String("name".to_string()),
            Value::String("eduardo".to_string()),
            Value::Number(90.into()),
            Value::Number(2.into()),
            Value::String("jose".to_string())
        ],
        output
    );

    Ok(())
}

#[test]
fn should_compress_and_create_reference_of_values() -> compacto::Result<()> {
    let result = Compressor::new(r#"{"id": "123", "123":"id"}"#)?.compress()?;

    let serde_value = serde_json::from_str::<Value>(&result).unwrap();

    let output = serde_value.as_array();
    let output_obj = output.unwrap().get(0).unwrap().as_object().unwrap().clone();
    let output_refs = output.unwrap().get(1).unwrap().as_array().unwrap().clone();

    let mut expected = serde_json::Map::new();
    expected.insert("0".to_string(), 1.into());
    expected.insert("1".to_string(), 0.into());

    assert_eq!(expected, output_obj);
    assert_eq!(
        vec![
            Value::String("123".to_string()),
            Value::String("id".to_string()),
        ],
        output_refs
    );

    Ok(())
}

#[test]
fn bare_scalar_root_is_referenced() {
    assert_eq!(compacto::compress_json("5").unwrap(), "[0,[5]]");
    assert_eq!(compacto::compress_json("null").unwrap(), "[0,[null]]");
    assert_eq!(compacto::compress_json(r#""a""#).unwrap(), r#"[0,["a"]]"#);
}

#[test]
fn empty_array_and_object_keep_their_shape() {
    assert_eq!(compacto::compress_json("[]").unwrap(), "[[],[]]");
    assert_eq!(compacto::compress_json("{}").unwrap(), "[{},[]]");
    assert_eq!(compacto::compress_json("[[],{}]").unwrap(), "[[[],{}],[]]");
}

#[test]
fn scalars_of_different_types_never_share_an_index() {
    let packed = compacto::compress_json(r#"[1,"1",true,"true",null,"null",false,"false"]"#).unwrap();
    assert_eq!(
        packed,
        r#"[[0,1,2,3,4,5,6,7],[1,"1",true,"true",null,"null",false,"false"]]"#
    );
}

#[test]
fn keys_and_values_are_distinct_for_id() {
    assert_eq!(
        compacto::compress_json(r#"{"id": "123", "123": "id"}"#).unwrap(),
        r#"[{"0":1,"1":0},["123","id"]]"#
    );
}

#[test]
fn nested_document_has_twelve_references() {
    let packed = compacto::compress_json(&sample()).unwrap();
    let parsed: Value = serde_json::from_str(&packed).unwrap();
    assert_eq!(parsed[1].as_array().unwrap().len(), 12);
}

#[test]
fn equal_scalars_share_one_index() {
    assert_eq!(
        compacto::compress_json(r#"["a","b","a",["b",{"a":"a"}]]"#).unwrap(),
        r#"[[0,1,0,[1,{"0":0}]],["a","b"]]"#
    );
}

#[test]
fn numbers_are_the_same_where_their_numerals_are() {
    assert_eq!(
        compacto::compress_json("[1, 1.0, 1.00, 10e-1, -0.0, 0.0, 0, -1]").unwrap(),
        "[[0,1,1,1,2,3,4,5],[1,1.0,-0.0,0.0,0,-1]]"
    );
}

#[test]
fn written_keys_are_ordered_as_text() {
    let packed = compacto::compress_json(
        r#"{"a":0,"b":0,"c":0,"d":0,"e":0,"f":0,"g":0,"h":0,"i":0,"j":0,"k":0}"#,
    )
    .unwrap();
    assert_eq!(
        packed,
        r#"[{"0":1,"10":1,"11":1,"2":1,"3":1,"4":1,"5":1,"6":1,"7":1,"8":1,"9":1},["a",0,"b","c","d","e","f","g","h","i","j","k"]]"#
    );
}

#[test]
fn text_that_is_not_json_is_refused_with_the_parsers_message() {
    let expected = serde_json::from_str::<Value>("{\"a\":").unwrap_err().to_string();
    match compacto::compress_json("{\"a\":") {
        Err(compacto::Error::JSONError(message)) => assert_eq!(message, expected),
        other => panic!("unexpected outcome: {:?}", other),
    }
    assert!(matches!(
        Compressor::new("not json"),
        Err(compacto::Error::JSONError(_))
    ));
}

#[test]
fn compress_document_makes_the_pair_of_tree_and_list() {
    let doc = compacto::text::read_document(r#"{"k":["v","k",7]}"#).unwrap();
    let packed = compacto::compress_document(&doc);
    let expected = compacto::text::read_document(r#"[{"0":[1,0,2]},["k","v",7]]"#).unwrap();
    assert_eq!(packed, expected);
}
