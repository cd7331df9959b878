use vibrev::args::parse_unsigned;
use vibrev::contract::{audit, Audit, OutputSchemas, Rule, SurfaceReport};
use vibrev::json::{parse_json, Fields, JsonValue};
use vibrev::schema::normalize_input;
use vibrev::tool::{CliHints, Tool, ToolAnnotations, ToolDef};

fn object(source: &str) -> Fields {
    match parse_json(source).expect("a JSON document") {
        JsonValue::Object(fields) => fields,
        other => panic!("not an object: {other:?}"),
    }
}

const READS: ToolAnnotations = ToolAnnotations {
    read_only_hint: Some(true),
    destructive_hint: None,
    idempotent_hint: None,
    open_world_hint: None,
};

const SILENT: ToolAnnotations = ToolAnnotations {
    read_only_hint: None,
    destructive_hint: None,
    idempotent_hint: None,
    open_world_hint: None,
};

/// A tool that passes everything, so each test can break exactly one thing.
fn sound(name: &str) -> Tool {
    Tool {
        name: name.to_owned(),
        title: Some(format!("Read {name} out of the database")),
        description: Some("Does a thing.".to_owned()),
        annotations: Some(READS),
        input_schema: object(
            r#"{
                "type": "object",
                "properties": {"addr": {"type": "integer"}},
                "required": ["addr"]
            }"#,
        ),
        output_schema: Some(object(
            r#"{
                "type": "object",
                "properties": {"result": {"type": "string"}},
                "required": ["result"]
            }"#,
        )),
    }
}

fn rules(report: &SurfaceReport) -> Vec<Rule> {
    let mut found: Vec<Rule> = report.findings().iter().map(|f| f.rule).collect();
    found.sort_unstable();
    found.dedup();
    found
}

#[test]
fn a_sound_surface_passes_and_says_what_it_looked_at() {
    let report = Audit::new("native").run(&[sound("decompile"), sound("strings")]);
    assert!(report.is_clean(), "{}", report.message());
    assert_eq!(report.checked().tools, 2);
    assert_eq!(report.checked().input_schemas, 2);
    assert_eq!(report.checked().output_schemas, 2);
}

/// The failure a contract test can least afford is passing while checking
/// nothing, so an empty catalog is itself a finding.
#[test]
fn an_empty_catalog_is_not_a_pass() {
    let report = Audit::new("native").run::<Tool>(&[]);
    assert_eq!(rules(&report), vec![Rule::EmptySurface]);
}

#[test]
fn a_missing_read_only_hint_is_caught_on_both_shapes_of_absence() {
    let mut no_annotations = sound("patch");
    no_annotations.annotations = None;
    let mut no_hint = sound("rename");
    no_hint.annotations = Some(SILENT);

    let report = Audit::new("native").run(&[no_annotations, no_hint]);
    assert_eq!(
        rules(&report),
        vec![Rule::MissingAnnotations, Rule::MissingReadOnlyHint]
    );
}

#[test]
fn a_title_that_says_nothing_new_is_a_finding() {
    let mut restates_name = sound("list_funcs");
    restates_name.title = Some("List Funcs".into());
    let mut restates_description = sound("segments");
    restates_description.description = Some("Lists the segments. And more.".into());
    restates_description.title = Some("Lists the segments".into());
    let mut missing = sound("imports");
    missing.title = None;

    let report = Audit::new("native").run(&[restates_name, restates_description, missing]);
    assert_eq!(
        rules(&report),
        vec![
            Rule::MissingTitle,
            Rule::TitleRestatesName,
            Rule::TitleRestatesDescription
        ]
    );
}

#[test]
fn two_tools_may_not_share_a_name_or_a_title() {
    let mut twin = sound("exports");
    twin.title = Some("Read imports out of the database".into());
    let mut other = sound("imports");
    other.title = Some("Read imports out of the database".into());

    let report = Audit::new("native").run(&[sound("exports"), twin, other]);
    assert_eq!(
        rules(&report),
        vec![Rule::DuplicateName, Rule::DuplicateTitle]
    );
}

/// Both spellings schemars emits. This is the check that is supposed to go
/// red the moment an engine with no normalizer is wired up.
#[test]
fn an_input_schema_may_not_spell_optional_as_a_null_branch() {
    let mut type_array = sound("disasm");
    type_array.input_schema = object(r##"{
        "type": "object",
        "properties": {"max_size": {"type": ["integer", "null"]}}
    }"##);
    let mut any_of = sound("decompile");
    any_of.input_schema = object(r##"{
        "type": "object",
        "$defs": {"Dialect": {"enum": ["c", "rust"]}},
        "properties": {
            "dialect": {"anyOf": [{"$ref": "#/$defs/Dialect"}, {"type": "null"}]}
        }
    }"##);

    let report = Audit::new("native").run(&[type_array, any_of]);
    assert_eq!(rules(&report), vec![Rule::NullableInputBranch]);
    assert_eq!(report.by_rule(Rule::NullableInputBranch).len(), 2);
    assert!(
        report.findings()[0].detail.contains("/properties/max_size"),
        "a finding has to say where: {}",
        report.findings()[0].message()
    );
}

/// The same shape in an *output* schema is the truth, not a defect: an
/// `Option` field without `skip_serializing_if` really is emitted as null.
#[test]
fn an_output_schema_may_say_a_field_is_null() {
    let mut tool = sound("addr_info");
    tool.output_schema = Some(object(r##"{
        "type": "object",
        "properties": {"segment": {"type": ["string", "null"]}},
        "required": ["segment"]
    }"##));
    assert!(Audit::new("native").run(&[tool]).is_clean());
}

/// The two halves of one rule, in the one test where both are visible: the
/// scan tells an engine to declare an unsigned parameter as `i64`, and
/// `parse_unsigned` is what an `i64` that arrives out of range does *not*
/// silently become. The schemas are derived, not hand-written, so this also
/// pins what schemars actually emits today rather than what a comment
/// remembers it emitting.
#[test]
fn what_the_scan_demands_is_what_the_converter_reads() {
    // The schema of one optional parameter, as it is derived and then published.
    fn parameters<T: schemars::JsonSchema>(bounds: &str) -> Fields {
        let mut generator = schemars::SchemaGenerator::default();
        let schema = generator.subschema_for::<T>();
        let text = serde_json::to_string(&schema).expect("a schema is JSON");
        let inner = text.strip_suffix('}').expect("an object");
        let mut schema = parse_json(&format!(
            r#"{{"type": "object", "properties": {{"limit": {inner}{bounds}}}}}}}"#
        ))
        .expect("a JSON document");
        normalize_input(&mut schema);
        match schema {
            JsonValue::Object(fields) => fields,
            other => panic!("not an object: {other:?}"),
        }
    }

    let derived = |schema| {
        let mut tool = sound("strings");
        tool.input_schema = schema;
        // The parameter under test really is a page size, so the fixture owes
        // the other thing a page size costs.
        tool.output_schema = Some(object(
            r#"{
                "type": "object",
                "properties": {
                    "strings": {"type": "array", "items": {"type": "string"}},
                    "next_offset": {"type": ["integer", "null"]}
                },
                "required": ["strings", "next_offset"]
            }"#,
        ));
        Audit::new("native").run(&[tool])
    };

    let unsigned = derived(parameters::<Option<u32>>(""));
    assert_eq!(rules(&unsigned), vec![Rule::UnportableFormat]);
    let detail = &unsigned.findings()[0].detail;
    assert!(detail.contains("uint32"), "{detail}");
    assert!(detail.contains("/properties/limit"), "{detail}");
    assert!(detail.contains("parse_unsigned"), "{detail}");

    let portable = derived(parameters::<Option<i64>>(
        r#", "minimum": 0, "maximum": 10000"#,
    ));
    assert!(portable.is_clean(), "{}", portable.message());

    // And the value that field can now carry only reaches a count through
    // the conversion the finding names.
    assert_eq!(parse_unsigned::<usize>(10_000, "limit"), Ok(10_000));
    assert!(parse_unsigned::<usize>(-1, "limit").is_err());
}

/// The same width in an *output* schema is not a defect: nothing hands a
/// response schema to a provider's declaration parser, and a validator that
/// meets `uint64` is required to ignore what it does not know. Both engines
/// publish a few hundred of these, so the scope is the difference between a
/// rule and a rewrite of every response struct.
#[test]
fn an_output_schema_may_publish_any_numeric_width() {
    let mut tool = sound("segments");
    tool.output_schema = Some(object(r##"{
        "type": "object",
        "properties": {"start": {"type": "integer", "format": "uint64"}},
        "required": ["start"]
    }"##));
    assert!(Audit::new("native").run(&[tool]).is_clean());
}

/// A tool that pages has to say where the next page starts.
///
/// The two engines had five tools between them in exactly this shape — an
/// `offset` and a `limit` on the way in, a bare list on the way out. The
/// caller was invited to page and given nothing to page with.
#[test]
fn a_tool_that_invites_paging_must_say_where_the_next_page_starts() {
    let paging_input = r#"{
        "type": "object",
        "properties": {
            "offset": {"type": "integer"},
            "limit": {"type": "integer"}
        }
    }"#;

    let mut silent = sound("imports");
    silent.input_schema = object(paging_input);
    silent.output_schema = Some(object(r##"{
        "type": "object",
        
        
        
        "properties": {"imports": {"type": "array"}, "total": {"type": "integer"}},
        "required": ["imports", "total"]
    }"##));

    let report = Audit::new("native").run(&[silent]);
    assert_eq!(rules(&report), vec![Rule::SilentTruncation]);
    assert!(
        report.findings()[0].detail.contains("next_offset"),
        "a finding has to name the way out: {}",
        report.findings()[0].message()
    );

    let mut honest = sound("exports");
    honest.input_schema = object(paging_input);
    honest.output_schema = Some(object(r##"{
        "type": "object",
        "properties": {
            "exports": {"type": "array"},
            "total": {"type": "integer"},
            "next_offset": {"type": ["integer", "null"]}
        },
        "required": ["exports", "total", "next_offset"]
    }"##));
    assert!(Audit::new("native").run(&[honest]).is_clean());
}

/// A tool that caps a scan without paging it owes a weaker answer.
///
/// There is no second page to ask for, so `next_offset` would be a fiction.
/// What the caller still cannot work out on their own is whether the cap was
/// reached, and any of three fields says it.
#[test]
fn a_capped_scan_may_say_so_in_any_of_three_ways() {
    let capped = r#"{"type": "object", "properties": {"limit": {"type": "integer"}}}"#;
    let answers = |field: &str| {
        let mut tool = sound("find_insns");
        tool.input_schema = object(capped);
        tool.output_schema = Some(object(&format!(
            r#"{{
                "type": "object",
                "properties": {{"matches": {{"type": "array"}}, "{field}": {{"type": "integer"}}}},
                "required": ["matches", "{field}"]
            }}"#
        )));
        Audit::new("native").run(&[tool])
    };

    for field in ["total", "truncated", "next_offset"] {
        assert!(answers(field).is_clean(), "{field} is an honest answer");
    }
    // `count` is the field that looks like an answer and is not: it is the
    // length of the array beside it, so it agrees with the page whether or
    // not the page is everything.
    let report = answers("count");
    assert_eq!(rules(&report), vec![Rule::SilentTruncation]);
}

/// A batch tool pages each of its answers, so that is where it says so.
///
/// `find_bytes` takes several patterns in one call and answers with one
/// entry per pattern. There is no page for the call as a whole, so the root
/// has nowhere true to put a `next_offset` — demanding one there would be
/// demanding a fabrication.
#[test]
fn a_batch_tool_may_answer_on_each_entry_instead_of_at_the_root() {
    let mut tool = sound("find_bytes");
    tool.input_schema = object(r##"{
        "type": "object",
        "properties": {
            "patterns": {"type": "array", "items": {"type": "string"}},
            "offset": {"type": "integer"},
            "limit": {"type": "integer"}
        }
    }"##);
    tool.output_schema = Some(object(r##"{
        "type": "object",
        "$defs": {
            "Entry": {
                "type": "object",
                "properties": {
                    "pattern": {"type": "string"},
                    "matches": {"type": "array", "items": {"type": "string"}},
                    "next_offset": {"type": ["integer", "null"]}
                },
                "required": ["pattern", "matches", "next_offset"]
            }
        },
        "properties": {"results": {"type": "array", "items": {"$ref": "#/$defs/Entry"}}},
        "required": ["results"]
    }"##));

    assert!(Audit::new("native").run(&[tool]).is_clean());
}

/// The rule reads the response object and its entries, not every type the
/// document defines.
///
/// A `total` on an entry is not read as an answer, and this is the reason:
/// `total` is an ordinary name for an ordinary count — here, how many
/// instructions a basic block has — and it says nothing about whether the
/// list of blocks around it is complete. `next_offset` and `truncated` are
/// read at that depth precisely because they cannot mean anything else.
#[test]
fn a_total_buried_in_a_nested_type_does_not_answer_for_the_response() {
    let mut tool = sound("basic_blocks");
    tool.input_schema = object(r##"{
        "type": "object",
        "properties": {"limit": {"type": "integer"}}
    }"##);
    tool.output_schema = Some(object(r##"{
        "type": "object",
        "$defs": {
            "Block": {
                "type": "object",
                "properties": {"total": {"type": "integer"}},
                "required": ["total"]
            }
        },
        "properties": {"blocks": {"type": "array", "items": {"$ref": "#/$defs/Block"}}},
        "required": ["blocks"]
    }"##));

    assert_eq!(
        rules(&Audit::new("native").run(&[tool])),
        vec![Rule::SilentTruncation]
    );
}

/// A root `$ref` is followed, because that is what schemars emits for a
/// response that is a newtype over another struct — and a rule that could
/// not see through it would demand a field that is already there.
#[test]
fn a_response_behind_a_root_ref_is_read_through_it() {
    let mut tool = sound("strings");
    tool.input_schema = object(r##"{
        "type": "object",
        "properties": {"limit": {"type": "integer"}}
    }"##);
    tool.output_schema = Some(object(r##"{
        "$ref": "#/$defs/StringPage",
        "$defs": {
            "StringPage": {
                "type": "object",
                "properties": {"strings": {"type": "array"}, "total": {"type": "integer"}},
                "required": ["strings", "total"]
            }
        }
    }"##));

    assert!(Audit::new("native").run(&[tool]).is_clean());
}

/// An `offset` that is not a page cursor is left alone.
///
/// `get_bytes` and `patch` take one — an offset *into* the object they were
/// pointed at — and neither is paging anything. The `limit` is what makes a
/// tool answerable to this rule, so those never reach it.
#[test]
fn an_offset_without_a_limit_is_not_a_page_cursor() {
    let mut tool = sound("get_bytes");
    tool.input_schema = object(r##"{
        "type": "object",
        "properties": {"addr": {"type": "integer"}, "offset": {"type": "integer"}}
    }"##);
    assert!(Audit::new("native").run(&[tool]).is_clean());
}

/// A `format` on a string is an annotation, not a width, and this rule has
/// nothing to say about it.
#[test]
fn a_string_format_is_left_alone() {
    let mut tool = sound("open");
    tool.input_schema = object(r##"{
        "type": "object",
        "properties": {
            "path": {"type": "string", "format": "uri"},
            "since": {"type": "string", "format": "date-time"},
            "depth": {"type": "integer", "format": "int32"}
        }
    }"##);
    assert!(Audit::new("native").run(&[tool]).is_clean());
}

#[test]
fn a_ref_must_resolve_inside_the_document_that_carries_it() {
    let mut dangling = sound("callgraph");
    // The supervisor's `{result: …}` wrapper, applied without lifting $defs.
    dangling.output_schema = Some(object(r##"{
        "type": "object",
        "properties": {"result": {"$ref": "#/$defs/Node"}},
        "required": ["result"]
    }"##));
    let mut remote = sound("callers");
    remote.output_schema = Some(object(r##"{
        "type": "object",
        "properties": {"result": {"$ref": "https://example.invalid/Node"}},
        "required": ["result"]
    }"##));

    let report = Audit::new("supervisor").run(&[dangling, remote]);
    assert_eq!(rules(&report), vec![Rule::DanglingRef, Rule::NonLocalRef]);
    assert_eq!(report.checked().refs, 2);
}

#[test]
fn a_resolvable_ref_passes_and_is_counted() {
    let mut tool = sound("callgraph");
    tool.output_schema = Some(object(r##"{
        "type": "object",
        "$defs": {"Node": {"type": "string"}},
        "properties": {"result": {"$ref": "#/$defs/Node"}},
        "required": ["result"]
    }"##));
    let report = Audit::new("native").run(&[tool]);
    assert!(report.is_clean(), "{}", report.message());
    assert_eq!(report.checked().refs, 1);
}

#[test]
fn the_schema_dialect_key_leaks_from_either_face_and_from_any_depth() {
    let mut input = sound("search");
    input.input_schema = object(r##"{
        "$schema": "https://json-schema.org/draft/2020-12/schema",
        "type": "object"
    }"##);
    let mut nested_output = sound("strings");
    nested_output.output_schema = Some(object(r##"{
        "type": "object",
        "properties": {
            "result": {"$schema": "https://json-schema.org/draft/2020-12/schema", "type": "string"}
        },
        "required": ["result"]
    }"##));

    let report = Audit::new("native").run(&[input, nested_output]);
    assert_eq!(rules(&report), vec![Rule::SchemaDialectLeak]);
    assert!(
        report.findings()[1].detail.contains("/properties/result"),
        "{}",
        report.findings()[1].message()
    );
}

#[test]
fn output_schemas_are_staged_by_the_engines_own_ratchet() {
    let mut converted = sound("decompile");
    let mut unconverted = sound("aaa_not_yet");
    converted.output_schema = None;
    unconverted.output_schema = None;

    let staged = Audit::new("native")
        .output_schemas(OutputSchemas::Staged(&["decompile"]))
        .run(&[converted.clone(), unconverted.clone()]);
    assert_eq!(rules(&staged), vec![Rule::MissingOutputSchema]);
    assert_eq!(
        staged.findings()[0].tool.as_deref(),
        Some("decompile"),
        "only the converted tool is on the ratchet"
    );

    let total = Audit::new("native").run(&[converted, unconverted]);
    assert_eq!(total.by_rule(Rule::MissingOutputSchema).len(), 2);
}

#[test]
fn a_ratchet_that_has_gone_stale_or_unsorted_is_itself_a_finding() {
    let report = Audit::new("native")
        .output_schemas(OutputSchemas::Staged(&["strings", "decompile"]))
        .run(&[sound("decompile")]);
    assert_eq!(
        rules(&report),
        vec![Rule::StaleRatchetEntry, Rule::UnsortedRatchet]
    );
}

/// The required-property convention in the shape kit can carry: the
/// mechanism, driven by the engine's list. Declaring the property is not
/// enough — it has to be `required`.
#[test]
fn a_declared_but_optional_property_does_not_satisfy_the_requirement() {
    let mut optional = sound("list_funcs");
    optional.output_schema = Some(object(r##"{
        "type": "object",
        "properties": {"analysis_coverage": {"type": "object"}, "total": {"type": "integer"}},
        "required": ["total"]
    }"##));
    let mut absent = sound("strings");
    absent.output_schema = Some(object(r##"{
        "type": "object",
        "properties": {"total": {"type": "integer"}},
        "required": ["total"]
    }"##));
    let untouched = sound("segments");

    let report = Audit::new("native")
        .require_output_property("analysis_coverage", &["list_funcs", "strings"])
        .run(&[optional, absent, untouched]);

    assert_eq!(
        rules(&report),
        vec![Rule::MissingRequiredProperty, Rule::PropertyNotRequired]
    );
    assert!(
        report
            .by_rule(Rule::MissingRequiredProperty)
            .iter()
            .all(|f| f.tool.as_deref() == Some("strings")),
        "segments owes nothing: {}", report.message()
    );
}

#[test]
fn an_unstable_catalog_order_is_caught_by_rebuilding_it() {
    let builds: Vec<Vec<Tool>> = (1..=3)
        .map(|round: usize| {
            if round % 2 == 0 {
                vec![sound("strings"), sound("decompile")]
            } else {
                vec![sound("decompile"), sound("strings")]
            }
        })
        .collect();
    let report = Audit::new("native").run_repeated(&builds);
    assert_eq!(rules(&report), vec![Rule::UnstableOrder]);
    assert!(report.findings()[0].detail.contains("index 0"));
}

#[test]
fn a_stable_catalog_survives_rebuilding() {
    let build = || vec![sound("decompile"), sound("strings")];
    let report = Audit::new("native").run_repeated(&[build(), build(), build()]);
    assert!(report.is_clean(), "{}", report.message());
    assert_eq!(report.checked().tools, 2, "the audit still ran once");
}

#[test]
fn several_faces_fail_together() {
    let mut native = Audit::new("native").run(&[sound("decompile")]);
    let mut broken = sound("idb_open");
    broken.annotations = None;
    native.merge(Audit::new("supervisor").run(&[broken]));

    assert_eq!(native.checked().tools, 2);
    assert_eq!(native.findings().len(), 1);
    assert_eq!(native.findings()[0].face, "supervisor");
    assert!(
        native.message().contains("supervisor/idb_open"),
        "the report has to name the face: {}", native.message()
    );
}

#[test]
fn a_dirty_report_is_told_in_full() {
    let mut tool = sound("strings");
    tool.title = Some("  ".to_owned());
    let report = Audit::new("native").run(&[tool]);
    let text = report.assert_clean().expect_err("a blank title is a finding");
    assert!(text.contains("[blank-title] native/strings: "), "{text}");
    assert!(text.contains("1 finding(s) over 1 tools"), "{text}");
    assert_eq!(Audit::new("native").run(&[sound("a")]).assert_clean(), Ok(()));
}

#[test]
fn null_branches_can_be_allowed() {
    let mut tool = sound("disasm");
    tool.input_schema = object(
        r#"{"type": "object", "properties": {"n": {"type": ["integer", "null"]}}}"#,
    );
    let report = Audit::new("native").nullable_input_branches(true).run(&[tool]);
    assert!(report.is_clean(), "{}", report.message());
}

#[test]
fn definitions_are_audited_as_a_surface_of_their_own() {
    let def = ToolDef {
        tool: sound("strings"),
        cli: CliHints {
            positional: &[],
            int_args: &[],
            enabled: true,
            needs_session: true,
        },
        ext: None,
    };
    assert!(audit(&[def]).is_clean());
    assert_eq!(audit(&[]).findings()[0].face, "tools");
}
