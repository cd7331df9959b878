use vibrev::json::{parse_json, JsonValue};
use vibrev::render::{is_bookkeeping, pretty, render};

fn json(source: &str) -> JsonValue {
    parse_json(source).expect("a JSON document")
}

#[test]
fn decompiler_output_prints_bare() {
    let v = json(r#"{ "c_code": "int main() {\n  return 0;\n}" }"#);
    assert_eq!(render(&v), "int main() {\n  return 0;\n}");
}

/// Declaring coverage and staying readable are not mutually exclusive: the
/// bare-text rule tolerates bookkeeping siblings.
#[test]
fn a_text_payload_may_carry_bookkeeping_and_stay_readable() {
    let v = json(
        r#"{
            "c_code": "int main() {\n  return 0;\n}",
            "analysis_coverage": { "state": "partial", "auto_is_ok": false }
        }"#,
    );
    let out = render(&v);
    assert!(out.starts_with("int main() {\n  return 0;\n}"), "{out}");
    // …and the caveat is *shown*, not quietly dropped.
    assert!(out.contains("analysis_coverage"), "{out}");
    assert!(out.contains("partial"), "{out}");
}

/// A substantial sibling is content, not bookkeeping.
#[test]
fn a_second_body_of_text_is_not_bookkeeping() {
    let v = json(
        r#"{
            "c_code": "int main() { return 0; }",
            "listing": "push rbp\nmov rbp, rsp"
        }"#,
    );
    assert!(render(&v).starts_with('{'), "expected the JSON fallback");
}

#[test]
fn one_list_plus_bookkeeping_becomes_a_titled_table() {
    let v = json(
        r#"{
            "functions": [{"name": "main", "addr": "0x1000"}, {"name": "init", "addr": "0x1040"}],
            "total": 1523
        }"#,
    );
    let out = render(&v);
    assert!(out.starts_with("functions (2 items, total=1523):"));
    assert!(out.contains("name"));
    assert!(out.contains("0x1040"));
}

/// Asserted structurally: a name nobody has thought of yet must work too.
#[test]
fn a_coverage_block_does_not_cost_a_tool_its_table() {
    let v = json(
        r#"{
            "functions": [{"name": "main", "addr": "0x1000"}],
            "total": 161,
            "analysis_coverage": { "state": "complete", "auto_is_ok": true },
            "a_convention_invented_next_month": 7
        }"#,
    );
    let out = render(&v);
    assert!(out.starts_with("functions (1 items, total=161"), "{out}");
    assert!(out.contains("analysis_coverage"), "{out}");
    assert!(out.contains("a_convention_invented_next_month=7"), "{out}");
    assert!(out.contains("0x1000"), "the table is still a table:\n{out}");
}

/// The header names everything it kept.
#[test]
fn bookkeeping_the_header_used_to_swallow_is_shown() {
    let v = json(r#"{ "items": [{"a": 1}], "error_count": 3 }"#);
    assert!(render(&v).starts_with("items (1 items, error_count=3):"));
}

#[test]
fn ragged_rows_still_share_a_column_set() {
    let v = json(r#"[{"a": 1}, {"b": 2}]"#);
    let out = render(&v);
    assert!(out.lines().next().unwrap().contains('a'));
    assert!(out.lines().next().unwrap().contains('b'));
}

#[test]
fn a_table_is_laid_out_exactly() {
    let v = json(r#"[{"name": "main", "size": 120}, {"name": "f", "size": 7}]"#);
    assert_eq!(render(&v), "name  size\n----  ----\nmain  120\nf     7");
}

#[test]
fn scalars_print_as_they_are() {
    assert_eq!(render(&json("null")), "");
    assert_eq!(render(&json("[]")), "(空)");
    assert_eq!(render(&json("7")), "7");
    assert_eq!(render(&json("\"plain\"")), "plain");
    assert_eq!(pretty(&json(r#"{"a":1}"#)), "{\n  \"a\": 1\n}");
}

#[test]
fn long_text_is_not_bookkeeping() {
    assert!(is_bookkeeping(&json("\"short\"")));
    assert!(!is_bookkeeping(&json("\"two\\nlines\"")));
    let long = "x".repeat(97);
    assert!(!is_bookkeeping(&JsonValue::Text(long)));
    assert!(!is_bookkeeping(&json("[1]")));
}
