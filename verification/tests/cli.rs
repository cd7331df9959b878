use vibrev::cli::{
    assert_management_matches_command, build, resolve, root_management_names, to_arguments,
    EngineCli, TOOL_COMMAND,
};
use vibrev::command::{Action, ArgSpec, CommandSpec, Kind, Matches, Need};
use vibrev::json::{parse_json, to_compact, Fields, JsonValue};
use vibrev::session::{ReadySpec, SessionSpec};
use vibrev::shape::{classify, is_nested_within, range_note, Known, Shape};
use vibrev::tool::{CliHints, Tool, ToolDef};

fn leaked(text: &str) -> &'static str {
    Box::leak(text.to_owned().into_boxed_str())
}

fn clap_arg(spec: &ArgSpec) -> clap::Arg {
    let mut arg = clap::Arg::new(leaked(&spec.id)).hide(spec.hidden).global(spec.global);
    if let Some(long) = &spec.long {
        arg = arg.long(leaked(long));
    }
    if let Some(value_name) = &spec.value_name {
        arg = arg.value_name(leaked(value_name));
    }
    if let Some(help) = &spec.help {
        arg = arg.help(help.clone());
    }
    if let Some(default) = &spec.default {
        arg = arg.default_value(leaked(default));
    }
    if let Some(delimiter) = spec.delimiter {
        arg = arg.value_delimiter(delimiter);
    }
    if let Some(other) = &spec.overrides {
        arg = arg.overrides_with(leaked(other));
    }
    arg = match spec.need {
        Need::Optional => arg,
        Need::Required => arg.required(true),
        Need::UnlessJsonInput => arg.required_unless_present("__json_input"),
    };
    arg = match spec.action {
        Action::TakeOne => arg.action(clap::ArgAction::Set),
        Action::Switch => arg.action(clap::ArgAction::SetTrue),
        Action::Append => arg.action(clap::ArgAction::Append),
        Action::AppendMany => arg.action(clap::ArgAction::Append).num_args(1..),
    };
    if !spec.values.is_empty() {
        let values: Vec<&'static str> = spec.values.iter().map(|v| leaked(v)).collect();
        arg = arg
            .value_parser(clap::builder::PossibleValuesParser::new(values))
            .ignore_case(true);
    }
    match spec.kind {
        Kind::Unsigned => arg.value_parser(|s: &str| s.parse::<u64>().map(|_| s.to_owned())),
        Kind::UnsignedIn { low, high } => arg.value_parser(move |s: &str| {
            match s.parse::<u64>() {
                Ok(n) if low <= n && n <= high => Ok(s.to_owned()),
                _ => Err(format!("{s} is not in {low}..={high}")),
            }
        }),
        Kind::Path => arg.value_parser(clap::builder::PathBufValueParser::new()),
        Kind::Text | Kind::Address => arg,
    }
}

fn clap_command(spec: &CommandSpec) -> clap::Command {
    let mut command = clap::Command::new(leaked(&spec.name));
    if let Some(about) = &spec.about {
        command = command.about(about.clone());
    }
    if let Some(long_about) = &spec.long_about {
        command = command.long_about(long_about.clone());
    }
    if let Some(after_help) = &spec.after_help {
        command = command.after_help(after_help.clone());
    }
    if spec.needs_subcommand {
        command = command.subcommand_required(true).arg_required_else_help(true);
    }
    for arg in &spec.args {
        command = command.arg(clap_arg(arg));
    }
    for sub in &spec.subcommands {
        command = command.subcommand(clap_command(sub));
    }
    command
}

/// What clap parsed, level by level. A flag or a value is there where clap has
/// one for the id, which for a global argument is at every level.
fn matches_of(found: &clap::ArgMatches) -> Matches {
    let mut flags = Vec::new();
    let mut values = Vec::new();
    let mut paths = Vec::new();
    for id in found.ids() {
        let id = id.as_str();
        if let Ok(Some(set)) = found.try_get_one::<bool>(id) {
            if *set {
                flags.push(id.to_owned());
            }
        } else if let Ok(Some(list)) = found.try_get_many::<String>(id) {
            values.push((id.to_owned(), list.cloned().collect()));
        } else if let Ok(Some(path)) = found.try_get_one::<std::path::PathBuf>(id) {
            paths.push((id.to_owned(), path.as_os_str().as_encoded_bytes().to_vec()));
        }
    }
    let subcommand = found
        .subcommand()
        .map(|(name, sub)| Box::new((name.to_owned(), matches_of(sub))));
    Matches { flags, values, paths, subcommand }
}

fn json(source: &str) -> JsonValue {
    parse_json(source).expect("a JSON document")
}

fn fields(source: &str) -> Fields {
    match json(source) {
        JsonValue::Object(fields) => fields,
        other => panic!("not an object: {other:?}"),
    }
}

fn tool_with_hints(
    name: &str,
    schema: &str,
    positional: &'static [&'static str],
    int_args: &'static [&'static str],
) -> ToolDef {
    ToolDef {
        tool: Tool {
            name: name.to_owned(),
            title: None,
            description: Some("test tool".to_owned()),
            annotations: None,
            input_schema: fields(schema),
            output_schema: None,
        },
        cli: CliHints {
            positional,
            int_args,
            enabled: true,
            needs_session: true,
        },
        ext: None,
    }
}

fn tool(name: &str, schema: &str) -> ToolDef {
    tool_with_hints(name, schema, &[], &[])
}

fn def(name: &str) -> ToolDef {
    tool(
        name,
        r#"{"type": "object", "properties": { "limit": { "type": "integer" } }}"#,
    )
}

fn bare(name: &str) -> CommandSpec {
    CommandSpec {
        name: name.to_owned(),
        about: None,
        long_about: None,
        after_help: None,
        needs_subcommand: false,
        args: Vec::new(),
        subcommands: Vec::new(),
    }
}

/// The engine's own commands: declared to the kit, and registered on the root
/// it hands back.
fn engine(defs: Vec<ToolDef>) -> CommandSpec {
    let mut root = EngineCli::new("eng", defs)
        .with_management(&["mcp", "status"])
        .command()
        .expect("the tree builds");
    root.subcommands.push(bare("mcp"));
    root.subcommands.push(bare("status"));
    root
}

fn parsed(spec: &CommandSpec, line: &[&str]) -> Matches {
    matches_of(&clap_command(spec).get_matches_from(line))
}

fn names(spec: &CommandSpec) -> Vec<&str> {
    spec.subcommands.iter().map(|c| c.name.as_str()).collect()
}

fn refusal(built: Result<CommandSpec, String>) -> String {
    built.expect_err("the tree is refused")
}

#[test]
fn tools_hang_off_tool_and_leave_the_root_to_management_commands() {
    let cmd = engine(vec![def("decompile"), def("binary.functions")]);
    assert_eq!(names(&cmd), [TOOL_COMMAND, "mcp", "status"]);

    let tools = cmd
        .find_subcommand(TOOL_COMMAND)
        .expect("the tool subcommand exists");
    assert_eq!(names(tools), ["decompile", "binary"]);
}

#[test]
fn resolve_strips_the_tool_level_and_still_follows_group_verb() {
    let defs = || vec![def("decompile"), def("binary.functions")];

    let m = parsed(&engine(defs()), &["eng", "tool", "decompile", "--limit", "20"]);
    let (name, leaf) = resolve(&m).expect("a tool path resolves");
    assert_eq!(name, "decompile");
    assert_eq!(leaf.one("limit"), Some("20"));

    let m = parsed(&engine(defs()), &["eng", "tool", "binary", "functions"]);
    assert_eq!(
        resolve(&m).expect("a group path resolves").0,
        "binary.functions"
    );
}

/// The whole point of the `tool` level: a management command still reaches the
/// engine even when a tool would otherwise have been named the same thing.
#[test]
fn a_management_command_resolves_to_no_tool_at_all() {
    let m = parsed(&engine(vec![def("decompile")]), &["eng", "mcp"]);
    assert_eq!(
        m.subcommand.as_ref().map(|s| s.0.as_str()),
        Some("mcp")
    );
    assert!(resolve(&m).is_none());
}

/// An engine that declares nothing is checked against the assumed names.
#[test]
fn an_undeclared_engine_still_falls_back_to_the_reserved_list() {
    let message = refusal(build("eng", vec![def("status")]));
    assert!(message.contains("管理命令名 `status`"), "{message}");
}

/// …and the message says the list was a default, so the fix is visible.
#[test]
fn the_fallback_says_it_is_a_fallback() {
    let message = refusal(build("eng", vec![def("serve")]));
    assert!(message.contains("未调用 with_management"), "{message}");
}

#[test]
fn a_tool_may_not_claim_a_name_the_engine_declared() {
    let message = refusal(
        EngineCli::new("eng", vec![def("decompile")])
            .with_management(&["mcp", "decompile"])
            .command(),
    );
    assert!(message.contains("管理命令名 `decompile`"), "{message}");
}

/// A group prefix claims the same slot under `tool` that a flat tool does.
#[test]
fn a_group_prefix_may_not_claim_a_declared_name_either() {
    let message = refusal(
        EngineCli::new("eng", vec![def("decompile.java")])
            .with_management(&["decompile"])
            .command(),
    );
    assert!(message.contains("管理命令名 `decompile`"), "{message}");
}

/// The declaration replaces the guess.
#[test]
fn a_declaration_frees_the_names_the_guess_had_reserved() {
    let cmd = EngineCli::new("eng", vec![def("status"), def("serve")])
        .with_management(&["mcp"])
        .command()
        .expect("the tree builds");
    let tools = cmd
        .find_subcommand(TOOL_COMMAND)
        .expect("the tool subcommand exists");
    assert_eq!(names(tools), ["status", "serve"]);
}

/// `help` is clap's, at every level with children.
#[test]
fn help_is_refused_whatever_the_engine_declares() {
    let message = refusal(
        EngineCli::new("eng", vec![def("help")])
            .with_management(&["mcp"])
            .command(),
    );
    assert!(message.contains("自动生成的 `help` 子命令"), "{message}");
}

/// A management command that would sit on top of the tool tree itself.
#[test]
fn an_engine_may_not_declare_a_management_command_called_tool() {
    let message = refusal(
        EngineCli::new("eng", vec![def("decompile")])
            .with_management(&["mcp", "tool"])
            .command(),
    );
    assert!(message.contains("`tool` 是派生工具子树的根"), "{message}");
}

fn finished_root(names: &[&str]) -> CommandSpec {
    let mut cmd = bare("eng");
    cmd.subcommands.push(bare(TOOL_COMMAND));
    for name in names {
        cmd.subcommands.push(bare(name));
    }
    cmd
}

#[test]
fn a_matching_management_declaration_passes() {
    assert_eq!(
        assert_management_matches_command(&finished_root(&["status", "mcp"]), &["mcp", "status"]),
        Ok(())
    );
}

#[test]
fn an_extra_clap_subcommand_is_drift() {
    let message =
        assert_management_matches_command(&finished_root(&["mcp", "probe"]), &["mcp"]).unwrap_err();
    assert!(message.contains("clap 有而声明没有: [\"probe\"]"), "{message}");
}

#[test]
fn an_extra_declared_name_is_drift() {
    let message =
        assert_management_matches_command(&finished_root(&["mcp"]), &["mcp", "status"]).unwrap_err();
    assert!(message.contains("声明有而 clap 没有: [\"status\"]"), "{message}");
}

#[test]
fn help_and_tool_on_the_clap_tree_are_not_management_commands() {
    let mut cmd = bare("eng");
    cmd.subcommands.push(bare("mcp"));
    cmd.subcommands.push(bare(TOOL_COMMAND));
    cmd.subcommands.push(bare("help"));
    assert_eq!(assert_management_matches_command(&cmd, &["mcp"]), Ok(()));
    assert_eq!(root_management_names(&cmd), ["mcp"]);
}

#[test]
fn a_group_about_shows_in_help_and_an_unmentioned_group_stays_empty() {
    let cmd = EngineCli::new(
        "eng",
        vec![def("binary.functions"), def("annotation.rename")],
    )
    .with_management(&["mcp"])
    .with_group_about(&[("binary", "Inspect the mapped image")])
    .command()
    .expect("the tree builds");
    let tools = cmd
        .find_subcommand(TOOL_COMMAND)
        .expect("the tool subcommand exists");
    let help = clap_command(tools).render_help().to_string();
    assert!(
        help.contains("Inspect the mapped image"),
        "group_about must appear in `tool --help`: {help}"
    );
    assert_eq!(
        tools
            .find_subcommand("binary")
            .expect("binary")
            .about
            .as_deref(),
        Some("Inspect the mapped image")
    );
    assert!(
        tools
            .find_subcommand("annotation")
            .expect("annotation")
            .about
            .is_none(),
        "a group without group_about must stay empty"
    );
}

#[test]
fn a_flat_tool_may_not_shadow_a_group_of_the_same_name() {
    let message = refusal(build("eng", vec![def("binary"), def("binary.functions")]));
    assert!(message.contains("都要占用 `tool binary`"), "{message}");
}

fn two_positionals(positional: &'static [&'static str]) -> ToolDef {
    tool_with_hints(
        "find_paths",
        r#"{
            "type": "object",
            "properties": { "start": { "type": "string" }, "end": { "type": "string" } },
            "required": ["start", "end"]
        }"#,
        positional,
        &[],
    )
}

fn positionals_of(cmd: &CommandSpec) -> Vec<&str> {
    leaf(cmd, "find_paths")
        .args
        .iter()
        .filter(|a| a.long.is_none())
        .map(|a| a.id.as_str())
        .collect()
}

fn with_mcp(defs: Vec<ToolDef>) -> CommandSpec {
    EngineCli::new("eng", defs)
        .with_management(&["mcp"])
        .command()
        .expect("the tree builds")
}

/// The order of the properties is the alphabet's, and positionals are ordered by
/// registration.
#[test]
fn positionals_follow_the_hint_not_the_alphabet() {
    let cmd = with_mcp(vec![two_positionals(&["start", "end"])]);
    assert_eq!(positionals_of(&cmd), ["start", "end"]);
}

/// …and the hint really is what decides.
#[test]
fn reversing_the_hint_reverses_the_positionals() {
    let cmd = with_mcp(vec![two_positionals(&["end", "start"])]);
    assert_eq!(positionals_of(&cmd), ["end", "start"]);
}

/// End to end: the swap showed up in the *arguments*.
#[test]
fn a_two_address_query_keeps_its_direction() {
    let d = two_positionals(&["start", "end"]);
    let cmd = with_mcp(vec![two_positionals(&["start", "end"])]);
    let m = parsed(&cmd, &["eng", "tool", "find_paths", "0x1000", "0x2000"]);
    let (_, leaf) = resolve(&m).expect("a tool path resolves");
    let args = to_arguments(&d, leaf).expect("both positionals map");
    assert_eq!(args, json(r#"{"start": "0x1000", "end": "0x2000"}"#));
}

/// A hint that names nothing is a typo, and fails at tree-build time.
#[test]
fn a_positional_hint_must_name_a_real_parameter() {
    let message = refusal(
        EngineCli::new("eng", vec![two_positionals(&["strat"])])
            .with_management(&["mcp"])
            .command(),
    );
    assert!(message.contains("cli(positional) 里写了 `strat`"), "{message}");
}

// ---------------------------------------------------------------------------
// The whitelist
// ---------------------------------------------------------------------------

fn shape_of(schema: &str) -> Shape {
    let root = fields(
        r##"{
            "type": "object",
            "$defs": {
                "Scope": { "enum": ["auto", "func", "line"] },
                "ScopeAlias": { "$ref": "#/$defs/Scope" },
                "Deep": { "$ref": "#/$defs/ScopeAlias" },
                "DocumentedScope": { "oneOf": [
                    {"const": "auto", "description": "…", "type": "string"},
                    {"const": "func", "description": "…", "type": "string"},
                    {"const": "line", "description": "…", "type": "string"}
                ]},
                "MixedKind": { "oneOf": [
                    {"enum": ["text", "imm"], "type": "string"},
                    {"const": "auto", "description": "…", "type": "string"}
                ]}
            }
        }"##,
    );
    let node = json(schema);
    assert!(is_nested_within(&root, &node, 16));
    classify(&root, &node)
}

/// The measured cases, which would otherwise be indistinguishable from a real
/// `type: "string"` parameter.
#[test]
fn a_schema_that_declares_no_type_is_not_understood() {
    assert_eq!(
        shape_of(r#"{"description": "Address(es) (string/number or array)"}"#),
        Shape::Unknown
    );
    // The boolean schema `true`.
    assert_eq!(shape_of("true"), Shape::Unknown);
    // A union says how to spell neither branch.
    assert_eq!(
        shape_of(r#"{"type": ["string", "integer"]}"#),
        Shape::Unknown
    );
    assert_eq!(
        shape_of(r#"{"anyOf": [{"type": "integer"}, {"type": "string"}]}"#),
        Shape::Unknown
    );
    assert_eq!(
        shape_of(r#"{"oneOf": [{"type": "integer"}, {"type": "null"}, {"minimum": 1}]}"#),
        Shape::Unknown
    );
    // A type nobody here has implemented is *not* silently a string.
    assert_eq!(shape_of(r#"{"type": "geometry"}"#), Shape::Unknown);
}

#[test]
fn the_understood_constructs_are_recognised_as_themselves() {
    assert_eq!(
        shape_of(r#"{"type": "string"}"#),
        Shape::Known(Known::Str)
    );
    assert_eq!(
        shape_of(r#"{"type": "boolean"}"#),
        Shape::Known(Known::Bool)
    );
    assert_eq!(
        shape_of(r#"{"type": ["string", "null"]}"#),
        Shape::Known(Known::Str)
    );
    assert_eq!(
        shape_of(r#"{"type": "integer", "minimum": 1, "maximum": 1024}"#),
        Shape::Known(Known::Integer {
            min: Some(1),
            max: Some(1024)
        })
    );
    assert_eq!(
        shape_of(r#"{"type": "array", "items": {"type": "string"}}"#),
        Shape::Known(Known::Array(Box::new(Shape::Known(Known::Str))))
    );
    // `items: true` is "any value", so the array maps but its elements are not
    // understood — which is what makes the parameter degraded.
    let items_any = shape_of(r#"{"type": "array", "items": true}"#);
    assert_eq!(
        items_any,
        Shape::Known(Known::Array(Box::new(Shape::Unknown)))
    );
    assert!(items_any.is_degraded());
}

#[test]
fn an_object_is_uncarryable_rather_than_merely_unknown() {
    assert_eq!(
        shape_of(r#"{"type": "object", "properties": {}}"#),
        Shape::Opaque
    );
    // …and so is an array of them: `--x '{"a":1}'` is not a spelling.
    assert_eq!(
        shape_of(r#"{"type": "array", "items": {"type": "object"}}"#),
        Shape::Opaque
    );
}

fn enumerated(values: &[&str]) -> Shape {
    Shape::Known(Known::Enum(
        values.iter().map(|v| (*v).to_owned()).collect(),
    ))
}

#[test]
fn a_ref_into_defs_resolves_to_what_it_names() {
    assert_eq!(
        shape_of(r##"{"$ref": "#/$defs/Scope"}"##),
        enumerated(&["auto", "func", "line"])
    );
}

/// A `$defs` entry that is itself a `$ref`.
#[test]
fn a_chain_of_refs_is_followed_to_the_end() {
    assert_eq!(
        shape_of(r##"{"$ref": "#/$defs/Deep"}"##),
        enumerated(&["auto", "func", "line"])
    );
}

/// A dangling `$ref` is not understood — not silently a string.
#[test]
fn a_ref_that_names_nothing_is_unknown() {
    assert_eq!(
        shape_of(r##"{"$ref": "#/$defs/Missing"}"##),
        Shape::Unknown
    );
}

#[test]
fn an_any_of_with_a_null_branch_collapses_to_the_value_branch() {
    assert_eq!(
        shape_of(r#"{"anyOf": [{"type": "null"}, {"type": "integer", "maximum": 10}]}"#),
        Shape::Known(Known::Integer {
            min: None,
            max: Some(10)
        })
    );
}

/// The shape of an optional enum that is documented variant by variant.
#[test]
fn an_optional_enum_behind_a_ref_keeps_all_its_variants() {
    let shape = shape_of(
        r##"{
            "anyOf": [{"$ref": "#/$defs/DocumentedScope"}, {"type": "null"}],
            "description": "Comment scope: auto (default), func, or line"
        }"##,
    );
    assert_eq!(shape, enumerated(&["auto", "func", "line"]));
}

/// An enum where only some variants carry a doc comment is neither shape.
#[test]
fn a_one_of_that_mixes_enum_and_const_branches_is_still_an_enum() {
    let shape = shape_of(r##"{"$ref": "#/$defs/MixedKind"}"##);
    assert_eq!(shape, enumerated(&["text", "imm", "auto"]));
}

/// A branch nobody understood must not shorten the list.
#[test]
fn an_unreadable_branch_disqualifies_the_whole_value_set() {
    assert_eq!(
        shape_of(r#"{"oneOf": [{"const": "text"}, {"type": "string", "pattern": "^x"}]}"#),
        Shape::Unknown
    );
}

#[test]
fn a_one_of_of_consts_is_an_enum() {
    let cmd = with_mcp(vec![tool(
        "search",
        r#"{
            "type": "object",
            "properties": {
                "kind": {"oneOf": [{"const": "text"}, {"const": "imm"}]}
            }
        }"#,
    )]);
    assert_eq!(argument(leaf(&cmd, "search"), "kind").values, ["text", "imm"]);
}

// ---------------------------------------------------------------------------
// Visible degradation
// ---------------------------------------------------------------------------

fn leaf<'a>(cmd: &'a CommandSpec, name: &str) -> &'a CommandSpec {
    cmd.find_subcommand(TOOL_COMMAND)
        .expect("the tool subtree exists")
        .find_subcommand(name)
        .expect("the tool is registered")
}

fn argument<'a>(cmd: &'a CommandSpec, id: &str) -> &'a ArgSpec {
    cmd.args
        .iter()
        .find(|a| a.id == id)
        .expect("the argument is registered")
}

fn untyped_tool() -> ToolDef {
    tool(
        "decompile",
        r#"{
            "type": "object",
            "properties": {
                "address": {"description": "Address(es) (string/number or array)"}
            },
            "required": ["address"]
        }"#,
    )
}

/// The flag survives, but it says what it lost, on its own help line.
#[test]
fn an_untyped_parameter_keeps_its_flag_and_admits_what_it_cannot_do() {
    let cmd = with_mcp(vec![untyped_tool()]);
    let sub = leaf(&cmd, "decompile");

    let help = argument(sub, "address").help.clone().expect("the flag has help");
    assert!(help.contains("Address(es)"), "{help}");
    assert!(help.contains("未校验"), "{help}");
    assert!(help.contains("--json-input"), "{help}");

    // And the escape hatch really is there, so the note is actionable.
    assert!(sub.args.iter().any(|a| a.id == "__json_input"));
    let after = sub.after_help.clone().unwrap_or_default();
    assert!(after.contains("address"), "{after}");
}

/// A tool whose parameters are all understood grows no hatch and no note.
#[test]
fn a_fully_understood_tool_says_nothing_extra() {
    let cmd = with_mcp(vec![def("list_functions")]);
    let sub = leaf(&cmd, "list_functions");
    assert!(!sub.args.iter().any(|a| a.id == "__json_input"));
    assert_eq!(sub.after_help, None);
}

// ---------------------------------------------------------------------------
// minimum / maximum
// ---------------------------------------------------------------------------

fn bounded() -> ToolDef {
    tool(
        "find_paths",
        r#"{
            "type": "object",
            "properties": {
                "max_paths": {
                    "type": "integer", "minimum": 1, "maximum": 1024,
                    "description": "Maximum paths to return (default: 8)"
                }
            }
        }"#,
    )
}

#[test]
fn declared_bounds_reach_both_the_help_and_the_check() {
    let d = bounded();
    let cmd = with_mcp(vec![bounded()]);
    let help = argument(leaf(&cmd, "find_paths"), "max_paths")
        .help
        .clone()
        .expect("the flag has help");
    assert!(help.contains("1..=1024"), "{help}");

    let ok = parsed(&cmd, &["eng", "tool", "find_paths", "--max-paths", "0x20"]);
    let (_, m) = resolve(&ok).expect("a tool path resolves");
    assert_eq!(
        to_arguments(&d, m).expect("in range"),
        json(r#"{"max_paths": 32}"#)
    );

    let over = parsed(&cmd, &["eng", "tool", "find_paths", "--max-paths", "9999"]);
    let (_, m) = resolve(&over).expect("a tool path resolves");
    let error = to_arguments(&d, m).expect_err("9999 is past the declared ceiling");
    assert!(error.contains("9999"), "{error}");
    assert!(error.contains("1024"), "{error}");
}

// ---------------------------------------------------------------------------
// The session slot
// ---------------------------------------------------------------------------

const IDB: &SessionSpec = &SessionSpec {
    selector: Some("database"),
    flag: "idb",
    value_name: "PATH",
    help: "要打开的数据库",
    missing: "工具都读当前打开的数据库",
    ready: Some(ReadySpec {
        skip_flag: "no-wait-analysis",
        skip_help: "跳过等待",
        timeout_ms: 1_000,
        poll_ms: 10,
        timed_out: "超时",
        unknown: "说不准",
    }),
};

fn selector_tool() -> ToolDef {
    tool(
        "segments",
        r#"{
            "type": "object",
            "properties": {
                "database": {"type": "string", "description": "Session ID"},
                "limit": {"type": "integer"}
            },
            "required": ["database"]
        }"#,
    )
}

/// The selector is filled by the CLI's own flag, so publishing a `--database`
/// beside `--idb` would be two spellings of one value.
#[test]
fn the_session_selector_becomes_no_flag_and_is_never_sent() {
    let d = selector_tool();
    let cmd = EngineCli::new("eng", vec![selector_tool()])
        .with_management(&["mcp"])
        .with_session(IDB)
        .command()
        .expect("the tree builds");

    let sub = leaf(&cmd, "segments");
    assert!(
        !sub.args.iter().any(|a| a.id == "database"),
        "the selector must not become a flag"
    );

    let m = parsed(
        &cmd,
        &["eng", "tool", "--idb", "/tmp/cat", "segments", "--limit", "5"],
    );
    let (_, leaf_m) = resolve(&m).expect("a tool path resolves");
    let args = to_arguments(&d, leaf_m).expect("the mapped parameters coerce");
    assert_eq!(args, json(r#"{"limit": 5}"#));
    assert!(
        args.get("database").is_none(),
        "the selector leaked into the tool arguments: {}",
        to_compact(&args)
    );
    assert_eq!(
        IDB.read(leaf_m).expect("--idb was given").target,
        "/tmp/cat"
    );
}

/// An engine that declares no session keeps the property as an ordinary flag.
#[test]
fn without_a_session_declaration_the_property_is_just_a_parameter() {
    let cmd = with_mcp(vec![selector_tool()]);
    assert!(leaf(&cmd, "segments").args.iter().any(|a| a.id == "database"));
}

#[test]
fn a_tool_parameter_may_not_shadow_the_session_flag() {
    let message = refusal(
        EngineCli::new(
            "eng",
            vec![tool(
                "open",
                r#"{"type": "object", "properties": { "idb": {"type": "string"} }}"#,
            )],
        )
        .with_management(&["mcp"])
        .with_session(IDB)
        .command(),
    );
    assert!(message.contains("会话标志冲突：`--idb`"), "{message}");
}

/// The hidden `--no-x` half of a boolean pair claims a long too.
#[test]
fn the_hidden_half_of_a_boolean_pair_is_checked_too() {
    let message = refusal(
        EngineCli::new(
            "eng",
            vec![tool(
                "analyze",
                r#"{"type": "object", "properties": { "wait_analysis": {"type": "boolean"} }}"#,
            )],
        )
        .with_management(&["mcp"])
        .with_session(IDB)
        .command(),
    );
    assert!(
        message.contains("会话标志冲突：`--no-wait-analysis`"),
        "{message}"
    );
}

// ---------------------------------------------------------------------------
// More of the mapping
// ---------------------------------------------------------------------------

fn varied() -> ToolDef {
    tool_with_hints(
        "scan",
        r#"{
            "type": "object",
            "properties": {
                "deep": {"type": "boolean"},
                "names": {"type": "array", "items": {"type": "string"}},
                "at": {"type": "string"},
                "ratio": {"type": "number"}
            }
        }"#,
        &[],
        &["at"],
    )
}

#[test]
fn every_kind_of_value_is_given_its_type() {
    let d = varied();
    let cmd = with_mcp(vec![varied()]);
    let m = parsed(
        &cmd,
        &[
            "eng", "tool", "scan", "--no-deep", "--names", "a", "b", "--names", "c", "--ratio", "0x10",
        ],
    );
    let (_, leaf) = resolve(&m).expect("a tool path resolves");
    assert_eq!(
        to_arguments(&d, leaf).expect("all of it maps"),
        json(r#"{"deep": false, "names": ["a", "b", "c"], "ratio": 16}"#)
    );
    let m = parsed(&cmd, &["eng", "tool", "scan", "--deep"]);
    let (_, leaf) = resolve(&m).expect("a tool path resolves");
    assert_eq!(
        to_arguments(&d, leaf).expect("all of it maps"),
        json(r#"{"deep": true}"#)
    );
}

#[test]
fn a_range_is_told_in_the_help() {
    assert_eq!(range_note(Some(1), Some(9)).as_deref(), Some("[范围 1..=9]"));
    assert_eq!(range_note(Some(1), None).as_deref(), Some("[最小 1]"));
    assert_eq!(range_note(None, Some(9)).as_deref(), Some("[最大 9]"));
    assert_eq!(range_note(None, None), None);
}
