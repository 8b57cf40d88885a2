use home_sync::documents::{merge_json_texts, merge_yaml_texts, DocMergeError};

fn json(text: &str) -> serde_json::Value {
    serde_json::from_str(text).unwrap()
}

#[test]
fn json_objects_merge_and_arrays_are_replaced() {
    let target = r#"{"a": 1, "b": {"x": 1, "y": 2}, "arr": [1, 2]}"#;
    let source = r#"{"b": {"y": 3, "z": 4}, "arr": [9], "c": true}"#;
    let merged = merge_json_texts(target, source).unwrap();
    let expected = json(r#"{"a": 1, "b": {"x": 1, "y": 3, "z": 4}, "arr": [9], "c": true}"#);
    assert_eq!(json(&merged), expected);
    assert_eq!(merged, serde_json::to_string_pretty(&expected).unwrap());
}

#[test]
fn json_scalar_source_replaces_the_target() {
    assert_eq!(merge_json_texts(r#"{"a": 1}"#, "5").unwrap(), "5");
    assert_eq!(merge_json_texts("5", r#"{"a": 1}"#).unwrap(), "{\n  \"a\": 1\n}");
}

#[test]
fn json_merge_with_itself_and_twice() {
    let t = r#"{"a": {"b": [1]}, "c": "x"}"#;
    let s = r#"{"a": {"d": null}}"#;
    assert_eq!(json(&merge_json_texts(t, t).unwrap()), json(t));
    let once = merge_json_texts(t, s).unwrap();
    assert_eq!(merge_json_texts(&once, s).unwrap(), once);
}

#[test]
fn json_parse_errors() {
    assert_eq!(merge_json_texts("{", "{"), Err(DocMergeError::SourceParse));
    assert_eq!(merge_json_texts("{", "{}"), Err(DocMergeError::TargetParse));
}

#[test]
fn yaml_mappings_merge_in_order() {
    let target = "a: 1\nb:\n  x: 1\n";
    let source = "b:\n  y: 2\nc: 3\n";
    assert_eq!(merge_yaml_texts(target, source).unwrap(), "a: 1\nb:\n  x: 1\n  y: 2\nc: 3\n");
}

#[test]
fn yaml_replaced_key_moves_to_the_end() {
    let target = "a: 1\nb: 2\nc: 3\n";
    let source = "a: 10\n";
    assert_eq!(merge_yaml_texts(target, source).unwrap(), "c: 3\nb: 2\na: 10\n");
}

#[test]
fn yaml_sequences_are_replaced_and_non_string_keys_kept() {
    let target = "list:\n- 1\n- 2\n1: one\n";
    let source = "list:\n- 3\n1: uno\n";
    let merged = merge_yaml_texts(target, source).unwrap();
    let v: serde_yaml::Value = serde_yaml::from_str(&merged).unwrap();
    let expected: serde_yaml::Value = serde_yaml::from_str("list:\n- 3\n1: uno\n").unwrap();
    assert_eq!(v, expected);
}

#[test]
fn yaml_parse_errors() {
    assert_eq!(merge_yaml_texts("a: [", "b: ["), Err(DocMergeError::SourceParse));
    assert_eq!(merge_yaml_texts("a: [", "b: 1"), Err(DocMergeError::TargetParse));
}

#[test]
fn yaml_mapping_keys_match_whatever_their_entry_order() {
    let target = "? {a: 1, b: 2}\n: x\nc: 3\n";
    let source = "? {b: 2, a: 1}\n: y\n";
    let merged = merge_yaml_texts(target, source).unwrap();
    let v: serde_yaml::Value = serde_yaml::from_str(&merged).unwrap();
    let expected: serde_yaml::Value = serde_yaml::from_str("c: 3\n? {a: 1, b: 2}\n: y\n").unwrap();
    assert_eq!(v, expected);
    assert_eq!(v.as_mapping().unwrap().len(), 2);
}

#[test]
fn yaml_keys_only_in_one_side_keep_their_values() {
    let target = "a: 1\nn:\n  x: 1\n";
    let source = "n:\n  y: 2\nb: 3\n";
    let merged = merge_yaml_texts(target, source).unwrap();
    let v: serde_yaml::Value = serde_yaml::from_str(&merged).unwrap();
    assert_eq!(v["a"], serde_yaml::Value::from(1));
    assert_eq!(v["b"], serde_yaml::Value::from(3));
    assert_eq!(v["n"]["x"], serde_yaml::Value::from(1));
    assert_eq!(v["n"]["y"], serde_yaml::Value::from(2));
    assert_eq!(merge_yaml_texts("a: 1\n", "- 1\n").unwrap(), "- 1\n");
}
