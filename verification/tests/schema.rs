use vibrev::json::{parse_json, Fields, JsonValue};
use vibrev::schema::{
    deref, effective, has_nullable_type_array, is_null_branch, normalize_input, normalize_tool,
    null_branch_position, strip_dialect, types_of,
};
use vibrev::tool::Tool;

fn json(source: &str) -> JsonValue {
    parse_json(source).expect("a JSON document")
}

fn fields(source: &str) -> Fields {
    match json(source) {
        JsonValue::Object(fields) => fields,
        other => panic!("not an object: {other:?}"),
    }
}

fn root() -> Fields {
    fields(r#"{"$defs": {"Dialect": {"oneOf": [{"const": "c"}, {"const": "rust"}]}}}"#)
}

fn property<'a>(schema: &'a JsonValue, name: &str) -> Option<&'a JsonValue> {
    schema.get("properties").and_then(|p| p.get(name))
}

fn contains_key(schema: &JsonValue, key: &str) -> bool {
    match schema {
        JsonValue::Object(object) => {
            object.contains_key(key)
                || (0..object.len()).any(|i| contains_key(object.value(i), key))
        }
        JsonValue::List(items) => items.iter().any(|v| contains_key(v, key)),
        _ => false,
    }
}

#[test]
fn a_null_arm_is_found_through_a_ref_sibling() {
    let root = root();
    let optional_enum = json(r##"{"anyOf": [{"$ref": "#/$defs/Dialect"}, {"type": "null"}]}"##);
    assert_eq!(null_branch_position(&root, &optional_enum), Some(1));
    // …and the value arm is what `effective` hands back, not the null one.
    assert!(effective(&root, &optional_enum).get("oneOf").is_some());
}

#[test]
fn the_two_spellings_of_optional_are_told_apart() {
    assert!(has_nullable_type_array(&json(
        r#"{"type": ["integer", "null"]}"#
    )));
    assert!(!has_nullable_type_array(&json(r#"{"type": "null"}"#)));
    assert!(is_null_branch(&json(r#"{"type": "null"}"#)));
    assert!(!is_null_branch(&json(r#"{"type": ["integer", "null"]}"#)));
}

#[test]
fn a_lone_null_any_of_is_not_optionality() {
    assert_eq!(
        null_branch_position(&Fields::new(), &json(r#"{"anyOf": [{"type": "null"}]}"#)),
        None
    );
}

/// A whole derived parameter schema.
#[test]
fn an_option_reaches_the_client_as_a_plain_optional_parameter() {
    let mut schema = json(
        r#"{
            "$schema": "https://json-schema.org/draft/2020-12/schema",
            "type": "object",
            "properties": {
                "timeout_secs": {
                    "$schema": "https://json-schema.org/draft/2020-12/schema",
                    "description": "Timeout in seconds",
                    "anyOf": [
                        {"type": "integer", "format": "int64", "minimum": 0, "maximum": 600},
                        {"type": "null"}
                    ],
                    "default": null
                },
                "query": {
                    "type": ["string", "null"],
                    "description": "Optional query"
                }
            }
        }"#,
    );

    normalize_input(&mut schema);

    assert_eq!(
        property(&schema, "timeout_secs"),
        Some(&json(
            r#"{
                "type": "integer",
                "format": "int64",
                "minimum": 0,
                "maximum": 600,
                "description": "Timeout in seconds"
            }"#
        )),
        "the value arm absorbs the node, the null arm and the null default go, \
         and every other keyword survives"
    );
    assert_eq!(
        property(&schema, "query"),
        Some(&json(r#"{"type": "string", "description": "Optional query"}"#))
    );
    assert!(!contains_key(&schema, "$schema"));
}

/// The normalizer is deliberately conservative about `format`.
#[test]
fn formats_are_left_alone() {
    for spelling in [
        r#"{"type": "integer", "format": "int64", "minimum": 0}"#,
        r#"{"type": "string", "format": "date-time"}"#,
        r#"{"type": "number", "format": "double"}"#,
    ] {
        let mut schema = json(spelling);
        normalize_input(&mut schema);
        assert_eq!(schema, json(spelling));
    }
}

/// A union with a null arm keeps the union.
#[test]
fn several_value_arms_lose_only_the_null_one() {
    let mut schema = json(
        r#"{
            "anyOf": [{"type": "integer"}, {"type": "string"}, {"type": "null"}],
            "description": "either"
        }"#,
    );
    normalize_input(&mut schema);
    assert_eq!(
        schema,
        json(
            r#"{
                "anyOf": [{"type": "integer"}, {"type": "string"}],
                "description": "either"
            }"#
        )
    );
}

/// Whatever the auditor reports, the normalizer removes.
#[test]
fn the_auditor_and_the_normalizer_agree_on_what_a_null_arm_is() {
    for shape in [
        r##"{"anyOf": [{"type": "integer"}, {"type": "null"}]}"##,
        r##"{"anyOf": [{"type": "null"}, {"type": "integer"}]}"##,
        r##"{"oneOf": [{"$ref": "#/$defs/Dialect"}, {"type": "null"}]}"##,
        r##"{"anyOf": [{"type": "integer"}, {"type": "string"}, {"type": "null"}]}"##,
    ] {
        let root = root();
        assert!(
            null_branch_position(&root, &json(shape)).is_some(),
            "the auditor should flag {shape}"
        );
        let mut normalized = json(shape);
        normalize_input(&mut normalized);
        assert!(
            null_branch_position(&root, &normalized).is_none(),
            "the normalizer left {shape} for the auditor to flag again"
        );
    }
}

#[test]
fn normalizing_twice_changes_nothing_the_second_time() {
    let mut once = json(
        r#"{
            "$schema": "https://json-schema.org/draft/2020-12/schema",
            "type": "object",
            "properties": {"x": {"anyOf": [{"type": "integer"}, {"type": "null"}]}}
        }"#,
    );
    normalize_input(&mut once);
    let mut twice = once.clone();
    normalize_input(&mut twice);
    assert_eq!(once, twice);
}

/// However deep optionals are nested, one call folds them all.
#[test]
fn an_optional_inside_an_optional_is_folded_at_once() {
    for shape in [
        r#"{"anyOf": [
            {"anyOf": [{"type": "integer"}, {"type": "null"}]},
            {"type": "null"}
        ]}"#,
        r#"{"anyOf": [
            {"type": "null"},
            {"oneOf": [{"type": ["integer", "null"]}, {"type": "null"}]}
        ]}"#,
        r#"{"anyOf": [
            {"anyOf": [{"anyOf": [{"type": "integer"}, {"type": "null"}]}, {"type": "null"}]},
            {"type": "null"}
        ]}"#,
    ] {
        let mut schema = json(shape);
        normalize_input(&mut schema);
        assert_eq!(schema, json(r#"{"type": "integer"}"#), "for {shape}");
        let once = schema.clone();
        normalize_input(&mut schema);
        assert_eq!(schema, once);
    }
}

/// An output schema keeps its null arms.
#[test]
fn the_output_face_loses_the_dialect_and_nothing_else() {
    let mut schema = json(
        r#"{
            "$schema": "https://json-schema.org/draft/2020-12/schema",
            "type": "object",
            "properties": {"segment": {"anyOf": [{"type": "object"}, {"type": "null"}]}}
        }"#,
    );
    strip_dialect(&mut schema);
    assert!(!contains_key(&schema, "$schema"));
    assert_eq!(
        property(&schema, "segment"),
        Some(&json(r#"{"anyOf": [{"type": "object"}, {"type": "null"}]}"#))
    );
}

/// A branch list with nothing to keep is left alone.
#[test]
fn a_branch_list_of_nothing_but_null_is_not_rewritten() {
    for shape in [
        r#"{"anyOf": [{"type": "null"}]}"#,
        r#"{"anyOf": [{"type": "null"}, {"type": "null"}]}"#,
    ] {
        let mut normalized = json(shape);
        normalize_input(&mut normalized);
        assert_eq!(normalized, json(shape));
    }
}

#[test]
fn a_type_list_of_nothing_but_null_loses_the_keyword() {
    let mut schema = json(r#"{"type": ["null"], "description": "never carries a value"}"#);
    normalize_input(&mut schema);
    assert_eq!(schema, json(r#"{"description": "never carries a value"}"#));
}

#[test]
fn references_are_followed_and_a_loop_ends() {
    let root = fields(
        r##"{"$defs": {"A": {"$ref": "#/$defs/B"}, "B": {"type": "string"}, "L": {"$ref": "#/$defs/L"}}}"##,
    );
    let a = json(r##"{"$ref": "#/$defs/A"}"##);
    assert_eq!(deref(&root, &a), &json(r#"{"type": "string"}"#));
    let looped = json(r##"{"$ref": "#/$defs/L"}"##);
    assert_eq!(deref(&root, &looped), &json(r##"{"$ref": "#/$defs/L"}"##));
    assert_eq!(types_of(&json(r#"{"type": ["integer", "null"]}"#)), ["integer", "null"]);
}

#[test]
fn a_tool_is_published_with_both_faces_normalized() {
    let mut tool = Tool {
        name: "t".to_owned(),
        title: None,
        description: None,
        annotations: None,
        input_schema: fields(
            r#"{"$schema": "d", "properties": {"x": {"type": ["integer", "null"]}}}"#,
        ),
        output_schema: Some(fields(r#"{"$schema": "d", "anyOf": [{"type": "null"}]}"#)),
    };
    normalize_tool(&mut tool);
    assert_eq!(
        tool.input_schema,
        fields(r#"{"properties": {"x": {"type": "integer"}}}"#)
    );
    assert_eq!(
        tool.output_schema,
        Some(fields(r#"{"anyOf": [{"type": "null"}]}"#))
    );
}
