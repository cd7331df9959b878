use vibrev::cli::{EngineCli, TOOL_COMMAND};
use vibrev::contract::Audit;
use vibrev::json::{parse_json, Fields, JsonValue};
use vibrev::outcome::{CallToolResponse, CallToolResult, ErrorData, Rendered};
use vibrev::output::{Capped, OutputCache, Reply};
use vibrev::router::{
    csv, dispatch, find_mark, forwarded, is_unknown_tool, name_of, parameters_arg,
    parse_group_about, plan_tool, plan_tools, refuse_output, rendered_inner, Annotations, Brackets,
    CliAttr, Input, InputFault, Mark, Method, Output, RouterFault, RouterNames, Setting, ToolAttr,
    ToolFault, ToolPlan, TypeShape, NO_TOOLS,
};
use vibrev::schema::normalize_tool;
use vibrev::tool::{CliHints, Tool, ToolAnnotations, ToolDef};
use vibrev::toy::{
    DecompileArgs, Dialect, FunctionsArgs, RenameArgs, ReportArgs, ReportSection, Toy, MANIFEST_URI,
};

fn json(source: &str) -> JsonValue {
    parse_json(source).expect("a JSON document")
}

fn fields(source: &str) -> Fields {
    match json(source) {
        JsonValue::Object(fields) => fields,
        other => panic!("not an object: {other:?}"),
    }
}

// ---------------------------------------------------------------------------
// The router
// ---------------------------------------------------------------------------

fn owned(text: &str) -> Option<String> {
    Some(text.to_owned())
}

fn assign(name: &str, value: &str) -> Setting {
    Setting::Assign {
        name: owned(name),
        value: owned(value),
    }
}

fn about(items: Vec<Setting>) -> Setting {
    Setting::Group {
        name: owned("group_about"),
        items: Some(items),
    }
}

fn plain(last: &str) -> TypeShape {
    TypeShape {
        last: owned(last),
        brackets: Brackets::Absent,
    }
}

fn of(last: &str, inner: TypeShape) -> TypeShape {
    TypeShape {
        last: owned(last),
        brackets: Brackets::Of(Box::new(inner)),
    }
}

fn parameters(payload: &str) -> Vec<Input> {
    vec![
        Input::Receiver,
        Input::Typed(of("Parameters", plain(payload))),
    ]
}

fn answering(payload: &str) -> TypeShape {
    of("Result", of("Rendered", plain(payload)))
}

fn attr() -> ToolAttr {
    ToolAttr {
        group: None,
        verb: None,
        name: None,
        title: None,
        description: None,
        output: None,
        ext: None,
        annotations: None,
        cli: None,
    }
}

const READS: Annotations = Annotations {
    read_only: Some(true),
    destructive: None,
    idempotent: Some(true),
    open_world: None,
};

fn titled(group: Option<&str>, verb: &str, title: &str) -> ToolAttr {
    ToolAttr {
        group: group.map(str::to_owned),
        verb: owned(verb),
        title: owned(title),
        annotations: Some(READS),
        ..attr()
    }
}

#[test]
fn a_router_is_named_by_its_attribute() {
    let names = RouterNames::parse(&[]);
    assert_eq!(names.defs_name, "vibrev_tool_defs");
    assert_eq!(names.cli_name, "vibrev_cli");
    assert_eq!(names.call_name, "vibrev_call");
    assert_eq!(names.try_call_name(), "try_vibrev_call");

    let settings = [
        assign("defs", "one"),
        assign("router", "tools"),
        assign("defs", "two"),
        Setting::Literal,
        Setting::Assign {
            name: owned("call"),
            value: None,
        },
    ];
    let names = RouterNames::parse(&settings);
    assert_eq!(names.defs_name, "two", "the last one counts");
    assert_eq!(names.call_name, "vibrev_call", "only a string literal names");
    assert_eq!(forwarded(&settings), [1, 3], "the rest is handed on");
}

#[test]
fn a_group_is_told_what_it_is_about() {
    let settings = [
        about(vec![assign("binary", "Inspect"), assign("r#type", "Types")]),
        about(vec![assign("report", "Reports")]),
    ];
    assert_eq!(
        parse_group_about(&settings).expect("all is well"),
        [
            ("binary".to_owned(), "Inspect".to_owned()),
            ("type".to_owned(), "Types".to_owned()),
            ("report".to_owned(), "Reports".to_owned()),
        ]
    );
    assert!(forwarded(&settings).is_empty());
}

#[test]
fn a_group_about_that_says_nothing_is_refused() {
    let refused = |settings: &[Setting]| {
        parse_group_about(settings)
            .expect_err("it is refused")
            .message()
    };
    assert_eq!(
        refused(&[assign("group_about", "x")]).as_deref(),
        Some("group_about takes nested assignments: group_about(binary = \"...\", annotation = \"...\")")
    );
    assert_eq!(
        refused(&[Setting::Flag { name: owned("group_about") }]).as_deref(),
        Some("group_about takes nested assignments: group_about(binary = \"...\")")
    );
    assert_eq!(
        refused(&[Setting::Group { name: owned("group_about"), items: None }]),
        None
    );
    assert_eq!(
        refused(&[about(vec![Setting::Literal])]).as_deref(),
        Some("group_about entries must be `name = \"...\"`")
    );
    assert_eq!(
        refused(&[about(vec![Setting::Assign { name: None, value: owned("x") }])]).as_deref(),
        Some("group_about keys must be identifiers (use `r#type` for the `type` group)")
    );
    assert_eq!(
        refused(&[about(vec![Setting::Assign { name: owned("a"), value: None }])]).as_deref(),
        Some("group_about values must be string literals")
    );
    assert_eq!(
        refused(&[about(vec![assign("a", "1")]), about(vec![assign("r#a", "2")])]).as_deref(),
        Some("group_about: `a` specified twice")
    );
}

#[test]
fn the_payload_of_an_answer_is_found() {
    assert_eq!(rendered_inner(Some(&of("Rendered", plain("T")))), Some(1));
    assert_eq!(rendered_inner(Some(&answering("T"))), Some(2));
    assert_eq!(rendered_inner(Some(&of("Result", plain("T")))), None);
    assert_eq!(rendered_inner(None), None);
}

#[test]
fn a_tool_takes_its_parameters_and_nothing_else() {
    assert_eq!(parameters_arg(&parameters("T")), Ok(Some(1)));
    assert_eq!(parameters_arg(&[Input::Receiver]), Ok(None));
    let twice = [
        Input::Typed(of("Parameters", plain("A"))),
        Input::Typed(of("Parameters", plain("B"))),
    ];
    assert_eq!(parameters_arg(&twice), Err((1, InputFault::Second)));
    assert_eq!(
        parameters_arg(&[Input::Typed(plain("Parameters"))]),
        Err((0, InputFault::Unspelled))
    );
    let untyped = TypeShape {
        last: owned("Parameters"),
        brackets: Brackets::NoType,
    };
    assert_eq!(
        parameters_arg(&[Input::Typed(untyped)]),
        Err((0, InputFault::Untyped))
    );
    let foreign = parameters_arg(&[Input::Receiver, Input::Typed(plain("RequestContext"))]);
    assert_eq!(foreign, Err((1, InputFault::Foreign)));
    let message = InputFault::Foreign.message("open");
    assert!(message.starts_with("`open` takes an argument the CLI front end cannot supply"));
    assert!(!InputFault::Second.message("open").is_empty());
}

#[test]
fn a_tool_is_named_by_what_is_said_of_it() {
    let mut attr = titled(Some("binary"), "functions", "List");
    assert_eq!(name_of(&attr, "f"), "binary.functions");
    attr.name = owned("own");
    assert_eq!(name_of(&attr, "f"), "own");
    let attr = titled(None, "ping", "Ping");
    assert_eq!(name_of(&attr, "f"), "ping");
    assert_eq!(name_of(&self::attr(), "f"), "f");
}

#[test]
fn a_list_of_names_is_read() {
    assert_eq!(csv(&owned(" a, b ,,c ")), ["a", "b", "c"]);
    assert!(csv(&None).is_empty());
    assert!(csv(&owned(" , ")).is_empty());
}

#[test]
fn metadata_is_demanded_in_order() {
    let mut bare = attr();
    let fault = |attr: &ToolAttr| plan_tool(attr, "f", &[], None).expect_err("refused");
    assert_eq!(fault(&bare), ToolFault::NoTitle);
    assert_eq!(
        ToolFault::NoTitle.message("f", "f").as_deref(),
        Some("tool `f` is missing `title = \"...\"`")
    );
    bare.title = owned("T");
    assert_eq!(fault(&bare), ToolFault::NoAnnotations);
    bare.annotations = Some(Annotations {
        read_only: None,
        ..READS
    });
    assert_eq!(fault(&bare), ToolFault::NoReadOnly);
    bare.annotations = Some(READS);
    let plan = plan_tool(&bare, "f", &parameters("T"), Some(&answering("R"))).expect("a plan");
    assert_eq!(plan.params, Some(1));
    assert!(matches!(plan.output, Output::Rendered(2)));
    assert!(plan.enabled);
    assert!(plan.needs_session);
    assert_eq!(
        plan.hints(),
        [("read_only_hint", true), ("idempotent_hint", true)]
    );
    bare.output = owned("Own");
    bare.cli = Some(CliAttr {
        positional: owned("a,b"),
        int_args: None,
        none: true,
        no_session: true,
    });
    let plan = plan_tool(&bare, "f", &[], Some(&answering("R"))).expect("a plan");
    assert!(matches!(&plan.output, Output::Explicit(path) if path == "Own"));
    assert_eq!(plan.positional, ["a", "b"]);
    assert!(!plan.enabled);
    assert!(!plan.needs_session);
    assert_eq!(
        refuse_output("f", "a b", "unexpected token"),
        "tool `f`: `output = \"a b\"` is not a type path: unexpected token"
    );
}

fn method(function: &str, mark: Mark) -> Method {
    Method {
        function: function.to_owned(),
        mark,
        inputs: vec![Input::Receiver],
        ret: None,
    }
}

#[test]
fn a_router_plans_its_tools_or_says_which_is_wrong() {
    let plans = plan_tools(&[
        method("helper", Mark::Plain),
        method("ping", Mark::Tool(titled(None, "ping", "Beat"))),
    ])
    .expect("one tool");
    assert_eq!(plans.len(), 1);
    assert_eq!(plans[0].0, 1);

    assert!(matches!(
        plan_tools(&[method("a", Mark::Plain)]),
        Err(RouterFault::NoTools)
    ));
    assert!(NO_TOOLS.contains("found no #[vibrev_tool] functions"));
    assert!(matches!(
        plan_tools(&[method("a", Mark::Tool(attr())), method("b", Mark::Unreadable)]),
        Err(RouterFault::Tool { method: 0, fault: ToolFault::NoTitle })
    ));
    assert!(matches!(
        plan_tools(&[method("a", Mark::Unreadable)]),
        Err(RouterFault::Tool { method: 0, fault: ToolFault::Unreadable })
    ));
    assert_eq!(
        find_mark(&[owned("instrument"), None, owned("vibrev_tool")]),
        Some(2)
    );
    assert_eq!(find_mark(&[]), None);
}

#[test]
fn a_call_reaches_its_tool_or_is_passed_over() {
    let names = ["ping".to_owned(), "binary.functions".to_owned()];
    assert_eq!(dispatch(&names, "binary.functions").ok(), Some(1));
    let error = dispatch(&names, "pong").expect_err("no such tool");
    assert_eq!(error.message, "unknown tool: pong");
    assert!(is_unknown_tool(&error));
    assert!(!is_unknown_tool(&ErrorData::invalid_params(
        "bad arguments".to_owned(),
        None
    )));
}

// ---------------------------------------------------------------------------
// The engine
// ---------------------------------------------------------------------------

const FUNC: &[&str] = &["func"];
const ADDR: &[&str] = &["addr"];
const NONE: &[&str] = &[];

fn tool_of(plan: ToolPlan, description: &str, input: &str, output: &str) -> ToolDef {
    let positional = match plan.positional.as_slice() {
        [one] if one == "func" => FUNC,
        _ => NONE,
    };
    let int_args = match plan.int_args.as_slice() {
        [one] if one == "addr" => ADDR,
        _ => NONE,
    };
    let mut tool = Tool {
        name: plan.name,
        title: Some(plan.title),
        description: Some(description.to_owned()),
        annotations: Some(ToolAnnotations {
            read_only_hint: Some(plan.read_only),
            destructive_hint: plan.destructive,
            idempotent_hint: plan.idempotent,
            open_world_hint: plan.open_world,
        }),
        input_schema: fields(input),
        output_schema: Some(fields(output)),
    };
    normalize_tool(&mut tool);
    ToolDef {
        tool,
        cli: CliHints {
            positional,
            int_args,
            enabled: plan.enabled,
            needs_session: plan.needs_session,
        },
        ext: None,
    }
}

fn cli(positional: Option<&str>, int_args: Option<&str>) -> Option<CliAttr> {
    Some(CliAttr {
        positional: positional.map(str::to_owned),
        int_args: int_args.map(str::to_owned),
        none: false,
        no_session: false,
    })
}

/// The catalog of the engine, with the schemas its types are derived to.
fn tool_defs() -> Vec<ToolDef> {
    let plan = |attr: ToolAttr, function: &str, inputs: Vec<Input>, payload: &str| {
        plan_tool(&attr, function, &inputs, Some(&answering(payload))).expect("a plan")
    };
    let mut decompile = titled(None, "decompile", "Decompile function");
    decompile.cli = cli(Some("func"), None);
    let mut rename = titled(Some("annotation"), "rename", "Rename function");
    rename.annotations = Some(Annotations {
        read_only: Some(false),
        destructive: Some(false),
        idempotent: Some(true),
        open_world: None,
    });
    rename.cli = cli(None, Some("addr"));
    vec![
        tool_of(
            plan(
                titled(None, "ping", "Engine heartbeat"),
                "ping",
                vec![Input::Receiver],
                "Pong",
            ),
            "Liveness probe; returns the engine identity.",
            r#"{"type": "object", "properties": {}}"#,
            r#"{
                "type": "object",
                "properties": {"engine": {"type": "string"}, "ok": {"type": "boolean"}},
                "required": ["engine", "ok"]
            }"#,
        ),
        tool_of(
            plan(decompile, "decompile", parameters("DecompileArgs"), "Decompiled"),
            "Decompile a function; returns pseudocode.",
            r##"{
                "$schema": "https://json-schema.org/draft/2020-12/schema",
                "type": "object",
                "properties": {
                    "func": {"type": "string"},
                    "limit": {
                        "type": ["integer", "null"], "format": "int64",
                        "minimum": 1, "maximum": 10000
                    },
                    "with_body": {"type": ["boolean", "null"]},
                    "dialect": {"anyOf": [{"$ref": "#/$defs/Dialect"}, {"type": "null"}]}
                },
                "required": ["func"],
                "$defs": {"Dialect": {"type": "string", "enum": ["c", "rust", "objc"]}}
            }"##,
            r#"{
                "type": "object",
                "properties": {"c_code": {"type": "string"}, "truncated": {"type": "boolean"}},
                "required": ["c_code", "truncated"]
            }"#,
        ),
        tool_of(
            plan(
                titled(Some("binary"), "functions", "List functions"),
                "list_functions",
                parameters("FunctionsArgs"),
                "FunctionPage",
            ),
            "List functions in the current binary.",
            r#"{
                "type": "object",
                "properties": {
                    "filter": {"type": ["array", "null"], "items": {"type": "string"}},
                    "offset": {"type": ["integer", "null"], "format": "int64", "minimum": 0},
                    "limit": {"type": ["integer", "null"], "format": "int64", "minimum": 1}
                }
            }"#,
            r#"{
                "type": "object",
                "properties": {
                    "functions": {"type": "array", "items": {"type": "object"}},
                    "total": {"type": "integer"},
                    "next_offset": {"type": ["integer", "null"]}
                },
                "required": ["functions", "total", "next_offset"]
            }"#,
        ),
        tool_of(
            plan(rename, "rename", parameters("RenameArgs"), "Renamed"),
            "Rename a function. Not read-only.",
            r#"{
                "type": "object",
                "properties": {
                    "addr": {"type": "integer", "format": "int64"},
                    "new_name": {"type": "string"}
                },
                "required": ["addr", "new_name"]
            }"#,
            r#"{
                "type": "object",
                "properties": {
                    "addr": {"type": "string"},
                    "new_name": {"type": "string"},
                    "ok": {"type": "boolean"}
                },
                "required": ["addr", "new_name", "ok"]
            }"#,
        ),
        tool_of(
            plan(
                titled(Some("report"), "build", "Build report"),
                "build_report",
                parameters("ReportArgs"),
                "Report",
            ),
            "Build a report from a nested section object.",
            r##"{
                "type": "object",
                "properties": {
                    "title": {"type": "string"},
                    "section": {"$ref": "#/$defs/ReportSection"}
                },
                "required": ["title", "section"],
                "$defs": {
                    "ReportSection": {
                        "type": "object",
                        "properties": {"heading": {"type": "string"}, "body": {"type": "string"}},
                        "required": ["heading", "body"]
                    }
                }
            }"##,
            r#"{
                "type": "object",
                "properties": {"content": {"type": "string"}},
                "required": ["content"]
            }"#,
        ),
    ]
}

/// The contract scan, run against the whole catalog. The counts are the fuse:
/// the failure a contract test cannot afford is "0 findings over 0 tools".
#[test]
fn the_shared_contract_holds() {
    let report = Audit::new("toy").run_repeated(&[tool_defs(), tool_defs(), tool_defs()]);

    assert_eq!(report.checked().tools, 5);
    assert_eq!(
        report.checked().output_schemas,
        5,
        "every tool publishes one"
    );
    assert_eq!(report.assert_clean(), Ok(()));
}

#[test]
fn group_about_from_the_router_attr_shows_in_help() {
    let settings = [about(vec![assign("binary", "Inspect mapped functions")])];
    let abouts = parse_group_about(&settings).expect("all is well");
    let pairs: Vec<(&str, &str)> = abouts
        .iter()
        .map(|(group, text)| (group.as_str(), text.as_str()))
        .collect();
    let cmd = EngineCli::new("toy", tool_defs())
        .with_group_about(&pairs)
        .with_management(&["mcp", "skills"])
        .command()
        .expect("the tree builds");
    let tools = cmd.find_subcommand(TOOL_COMMAND).expect("tool");
    assert_eq!(
        tools.find_subcommand("binary").expect("binary").about.as_deref(),
        Some("Inspect mapped functions")
    );
    for silent in ["annotation", "report"] {
        assert!(
            tools.find_subcommand(silent).expect("a group").about.is_none(),
            "a group without group_about must stay empty"
        );
    }
}

fn report(body: &str) -> CallToolResult {
    let args = ReportArgs {
        title: "coverage".to_owned(),
        section: ReportSection {
            heading: "findings".to_owned(),
            body: body.to_owned(),
        },
    };
    let content = Toy.build_report(args).expect("a report").0.content;
    let mut payload = Fields::new();
    payload.insert("content".to_owned(), JsonValue::Text(content));
    match Rendered(JsonValue::Object(payload)).into_call_tool_result() {
        CallToolResponse::Complete(result) => result,
        other => panic!("not complete: {other:?}"),
    }
}

/// An ordinary answer goes out untouched: a net that trims everything is no net.
#[test]
fn an_answer_within_the_limit_arrives_whole() {
    let mut capped = Capped::new(Toy, OutputCache::truncating());
    let body = "a finding".repeat(10);

    let reply = capped.call_tool(CallToolResponse::Complete(report(&body)), None);
    let Reply::Done(CallToolResponse::Complete(result)) = reply else {
        panic!("not done");
    };
    assert!(
        result.content[0].as_text().expect("text").contains(&body),
        "the body was altered"
    );
    assert_eq!(result.content.len(), 1);
    assert!(result.meta.is_none());
}

/// An oversized answer is trimmed, and what it says about itself is true.
#[test]
fn an_oversized_answer_is_trimmed_and_still_reachable() {
    let mut capped = Capped::new(Toy, OutputCache::spilling_to_files(b"/tmp/toy".to_vec()));
    let body = "S".repeat(120_000);

    let reply = capped.call_tool(CallToolResponse::Complete(report(&body)), None);
    let Reply::Save { result, caught } = reply else {
        panic!("not caught");
    };
    let path = capped.cache().file_for(&caught).expect("a file");
    let spilled = json(caught.contents());
    let result = capped.finish(result, caught, None);

    let meta = result.meta.as_ref().and_then(|m| m.get("vibrev")).expect("meta");
    assert_eq!(meta.get("output_truncated").and_then(|b| b.as_bool()), Some(true));
    assert!(meta.get("total_chars").and_then(|n| n.as_i64()).expect("total_chars") > 120_000);

    let text = result.content[0].as_text().expect("text");
    assert!(text.len() < 60_000, "preview was {} bytes", text.len());
    assert!(text.starts_with("# coverage"));
    assert_eq!(result.content.len(), 2, "the hint rides as its own block");
    assert!(
        result.content[1]
            .as_text()
            .expect("hint")
            .starts_with("Output truncated.")
    );

    // The structured payload still has every key its schema declares.
    let structured = result.structured_content.as_ref().and_then(|s| s.as_object()).expect("object");
    assert_eq!(structured.len(), 1);
    assert_eq!(structured.key(0), "content");

    let url = meta.get("download_url").and_then(|u| u.as_str()).expect("download_url");
    assert_eq!(url.strip_prefix("file://").map(str::as_bytes), Some(path.as_slice()));
    assert!(
        spilled
            .get("content")
            .and_then(|c| c.as_str())
            .expect("content")
            .contains(&body),
        "the spill did not hold the whole answer"
    );
}

#[test]
fn the_manifest_lists_the_tools_and_nothing_else_is_served() {
    let names: Vec<String> = tool_defs().into_iter().map(|def| def.tool.name).collect();
    let text = Toy.read_resource(MANIFEST_URI, &names).expect("the manifest");
    assert_eq!(
        text,
        r#"{"tools":["ping","decompile","binary.functions","annotation.rename","report.build"]}"#
    );
    let error = Toy.read_resource("toy://other", &names).expect_err("not served");
    assert_eq!(error.message, "no such resource: toy://other");
}

fn decompiled(limit: Option<i64>, with_body: Option<bool>, dialect: Option<Dialect>) -> (String, bool) {
    let args = DecompileArgs {
        func: "main".to_owned(),
        limit,
        with_body,
        dialect,
    };
    let out = Toy.decompile(args).expect("pseudocode").0;
    (out.c_code, out.truncated)
}

#[test]
fn pseudocode_says_when_it_was_cut() {
    let whole = "// c\nint main(void) {\n    return 0;\n}";
    assert_eq!(decompiled(None, None, None), (whole.to_owned(), false));
    assert_eq!(decompiled(Some(4), None, None), (whole.to_owned(), false));
    assert_eq!(
        decompiled(Some(2), None, Some(Dialect::Rust)),
        ("// rust\nint main(void) {".to_owned(), true)
    );
    assert_eq!(
        decompiled(None, Some(false), Some(Dialect::Objc)),
        ("// objc\nint main(void);".to_owned(), false)
    );
}

#[test]
fn a_filter_counts_what_matched() {
    let ask = |filter: &[&str], offset: Option<i64>, limit: Option<i64>| {
        Toy.list_functions(FunctionsArgs {
            filter: if filter.is_empty() {
                None
            } else {
                Some(filter.iter().map(|f| (*f).to_owned()).collect())
            },
            offset,
            limit,
        })
    };
    let all = ask(&[], None, None).expect("a page").0;
    assert_eq!(all.total, 3);
    assert_eq!(all.next_offset, None);
    let ini = ask(&["ini"], None, None).expect("a page").0;
    let names: Vec<&str> = ini.functions.iter().map(|f| f.name.as_str()).collect();
    assert_eq!(names, ["init", "fini"]);
    let first = ask(&[], None, Some(1)).expect("a page").0;
    assert_eq!(first.functions[0].addr, "0x1000");
    assert_eq!(first.functions[0].size, 120);
    assert_eq!(first.next_offset, Some(1));
    let error = ask(&[], Some(-1), None).expect_err("a negative offset");
    assert_eq!(error.message, "offset (-1) is out of range for usize");
}

#[test]
fn addresses_are_told_in_hexadecimal() {
    let renamed = |addr: i64| {
        Toy.rename(RenameArgs {
            addr,
            new_name: "f".to_owned(),
        })
        .expect("renamed")
        .0
        .addr
    };
    for addr in [0, 184, 0xdead_beef, -1, i64::MIN, i64::MAX] {
        assert_eq!(renamed(addr), format!("{addr:#x}"));
    }
    let pong = Toy.ping().expect("a beat").0;
    assert_eq!(pong.engine, "toy");
    assert!(pong.ok);
}
