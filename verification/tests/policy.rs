use std::sync::Arc;

use vibrev::command::{Action, ArgSpec, CommandSpec, Kind, Matches, Need};
use vibrev::json::{parse_json, Fields, JsonValue};
use vibrev::policy::{
    refusal, Governed, PolicyArgs, PolicyBuilder, PolicyError, Taxonomy, ToolPolicy,
};
use vibrev::tool::{Tool, ToolAnnotations};

fn leaked(text: &str) -> &'static str {
    Box::leak(text.to_owned().into_boxed_str())
}

fn clap_arg(spec: &ArgSpec) -> clap::Arg {
    let mut arg = clap::Arg::new(leaked(&spec.id)).hide(spec.hidden).global(spec.global);
    if let Some(long) = &spec.long {
        arg = arg.long(leaked(long));
    }
    if let Some(value_name) = &spec.value_name {
        arg = arg.value_name(leaked(value_name));
    }
    if let Some(help) = &spec.help {
        arg = arg.help(help.clone());
    }
    if let Some(default) = &spec.default {
        arg = arg.default_value(leaked(default));
    }
    if let Some(delimiter) = spec.delimiter {
        arg = arg.value_delimiter(delimiter);
    }
    if let Some(other) = &spec.overrides {
        arg = arg.overrides_with(leaked(other));
    }
    arg = match spec.need {
        Need::Optional => arg,
        Need::Required => arg.required(true),
        Need::UnlessJsonInput => arg.required_unless_present("__json_input"),
    };
    arg = match spec.action {
        Action::TakeOne => arg.action(clap::ArgAction::Set),
        Action::Switch => arg.action(clap::ArgAction::SetTrue),
        Action::Append => arg.action(clap::ArgAction::Append),
        Action::AppendMany => arg.action(clap::ArgAction::Append).num_args(1..),
    };
    if !spec.values.is_empty() {
        let values: Vec<&'static str> = spec.values.iter().map(|v| leaked(v)).collect();
        arg = arg
            .value_parser(clap::builder::PossibleValuesParser::new(values))
            .ignore_case(true);
    }
    match spec.kind {
        Kind::Unsigned => arg.value_parser(|s: &str| s.parse::<u64>().map(|_| s.to_owned())),
        Kind::UnsignedIn { low, high } => arg.value_parser(move |s: &str| {
            match s.parse::<u64>() {
                Ok(n) if low <= n && n <= high => Ok(s.to_owned()),
                _ => Err(format!("{s} is not in {low}..={high}")),
            }
        }),
        Kind::Path => arg.value_parser(clap::builder::PathBufValueParser::new()),
        Kind::Text | Kind::Address => arg,
    }
}

fn clap_command(spec: &CommandSpec) -> clap::Command {
    let mut command = clap::Command::new(leaked(&spec.name));
    if let Some(about) = &spec.about {
        command = command.about(about.clone());
    }
    if let Some(long_about) = &spec.long_about {
        command = command.long_about(long_about.clone());
    }
    if let Some(after_help) = &spec.after_help {
        command = command.after_help(after_help.clone());
    }
    if spec.needs_subcommand {
        command = command.subcommand_required(true).arg_required_else_help(true);
    }
    for arg in &spec.args {
        command = command.arg(clap_arg(arg));
    }
    for sub in &spec.subcommands {
        command = command.subcommand(clap_command(sub));
    }
    command
}

/// What clap parsed, level by level. A flag or a value is there where clap has
/// one for the id, which for a global argument is at every level.
fn matches_of(found: &clap::ArgMatches) -> Matches {
    let mut flags = Vec::new();
    let mut values = Vec::new();
    let mut paths = Vec::new();
    for id in found.ids() {
        let id = id.as_str();
        if let Ok(Some(set)) = found.try_get_one::<bool>(id) {
            if *set {
                flags.push(id.to_owned());
            }
        } else if let Ok(Some(list)) = found.try_get_many::<String>(id) {
            values.push((id.to_owned(), list.cloned().collect()));
        } else if let Ok(Some(path)) = found.try_get_one::<std::path::PathBuf>(id) {
            paths.push((id.to_owned(), path.as_os_str().as_encoded_bytes().to_vec()));
        }
    }
    let subcommand = found
        .subcommand()
        .map(|(name, sub)| Box::new((name.to_owned(), matches_of(sub))));
    Matches { flags, values, paths, subcommand }
}

fn object() -> Fields {
    match parse_json(r#"{"type": "object"}"#).expect("a JSON document") {
        JsonValue::Object(fields) => fields,
        other => panic!("not an object: {other:?}"),
    }
}

fn bare_tool(name: &str) -> Tool {
    Tool {
        name: name.to_owned(),
        title: None,
        description: Some("does a thing".to_owned()),
        annotations: None,
        input_schema: object(),
        output_schema: None,
    }
}

fn tool(name: &str, read_only: bool) -> Tool {
    let mut tool = bare_tool(name);
    tool.annotations = Some(ToolAnnotations {
        read_only_hint: Some(read_only),
        destructive_hint: None,
        idempotent_hint: None,
        open_world_hint: None,
    });
    tool
}

/// A catalog of `group.verb` names, a lifecycle tool that
/// writes, a patch group, and arbitrary code execution.
fn sample() -> Vec<Tool> {
    vec![
        tool("session.open", false),
        tool("session.list", true),
        tool("binary.functions", true),
        tool("binary.strings", true),
        tool("patch.nop", false),
        tool("patch.bytes", false),
        tool("script.python", false),
    ]
}

fn names(policy: &ToolPolicy, catalog: Vec<Tool>) -> Vec<String> {
    policy
        .advertise(catalog)
        .into_iter()
        .map(|tool| tool.name.to_string())
        .collect()
}

const ESSENTIAL: &[&str] = &["session.open", "session.list"];

fn builder() -> PolicyBuilder<'static> {
    let catalog = sample();
    ToolPolicy::builder(&catalog)
        .taxonomy(Taxonomy::by_dot_prefix(&catalog))
        .essential(ESSENTIAL)
}

/// The default is everything, including the tool that runs arbitrary code.
/// An engine that ships a tool ships it; withholding one until a flag is
/// found is a capability the operator discovers by asking why it is missing.
#[test]
fn no_inputs_enables_everything_and_reports_itself_inactive() {
    let policy = builder().build().expect("policy");
    assert_eq!(names(&policy, sample()).len(), 7);
    assert!(policy.allows("script.python"));
    assert!(!policy.is_active());
}

/// The first composition step: naming a category narrows, it does not add.
#[test]
fn a_category_replaces_the_implicit_everything() {
    let policy = builder()
        .include_categories(&["patch".to_string()])
        .build()
        .expect("policy");
    // Catalog order, not sorted: clients render `tools/list` in the order
    // they receive it, so filtering must not quietly reshuffle what
    // survives.
    assert_eq!(
        names(&policy, sample()),
        ["session.open", "session.list", "patch.nop", "patch.bytes"],
        "the patch group, plus the lifecycle without which none of it is callable"
    );
    assert!(policy.is_active());
}

#[test]
fn dot_prefixes_are_a_taxonomy_without_anyone_writing_one() {
    let taxonomy = Taxonomy::by_dot_prefix(&sample());
    assert_eq!(
        taxonomy.categories(),
        ["binary", "patch", "script", "session"]
    );
}

#[test]
fn individual_tools_add_to_the_named_categories() {
    let policy = builder()
        .include_categories(&["patch".to_string()])
        .include_tools(&["binary.strings".to_string()])
        .build()
        .expect("policy");
    assert_eq!(
        names(&policy, sample()),
        [
            "session.open",
            "session.list",
            "binary.strings",
            "patch.nop",
            "patch.bytes"
        ]
    );
}

/// Step 3, and the reason the order is written down: the two flags disagree
/// on purpose and one of them has to win definitely.
#[test]
fn exclusion_wins_over_inclusion() {
    let policy = builder()
        .include_categories(&["patch".to_string()])
        .exclude_tools(&["patch.bytes".to_string()])
        .build()
        .expect("policy");
    assert_eq!(
        names(&policy, sample()),
        ["session.open", "session.list", "patch.nop"]
    );
}

/// An engine can be started read-only, and the deny list is derived rather
/// than kept.
#[test]
fn read_only_strips_every_writer_and_keeps_the_lifecycle() {
    let policy = builder().read_only(true).build().expect("policy");
    assert_eq!(
        names(&policy, sample()),
        [
            // Writes, and stays: a read-only server that cannot open a view
            // cannot read either.
            "session.open",
            "session.list",
            "binary.functions",
            "binary.strings",
        ]
    );
}

/// The other half of "no second list": a tool nobody has heard of is denied
/// the moment its annotation says it writes.
#[test]
fn a_new_writer_is_denied_without_anyone_updating_a_list() {
    let mut extended = sample();
    extended.push(tool("type.apply", false));
    
    let policy = ToolPolicy::builder(&extended)
        .essential(&["session.open"])
        .read_only(true)
        .build()
        .expect("policy");
    assert!(!policy.allows("type.apply"));
}

/// An absent hint counts as writing. The opposite default lets a mutating
/// tool survive `--read-only` by omission — the one place this module errs
/// towards offering less.
#[test]
fn a_tool_with_no_hint_is_treated_as_a_writer() {
    let bare = [bare_tool("mystery"), tool("binary.strings", true)];
    let policy = ToolPolicy::builder(&bare)
        .read_only(true)
        .build()
        .expect("policy");
    assert!(!policy.allows("mystery"));
    assert!(policy.allows("binary.strings"));
}

#[test]
fn a_misspelled_category_says_what_the_engine_actually_has() {
    let error = builder()
        .include_categories(&["patches".to_string()])
        .build()
        .unwrap_err();
    let PolicyError::UnknownCategory { name, known } = &error else {
        panic!("wrong error: {error:?}");
    };
    assert_eq!(name, "patches");
    assert!(known.contains(&"patch".to_string()));
    assert!(error.message().contains("binary, patch, script, session"));
}

#[test]
fn a_misspelled_tool_is_refused_rather_than_ignored() {
    assert_eq!(
        builder()
            .include_tools(&["patch.nope".to_string()])
            .build()
            .unwrap_err(),
        PolicyError::UnknownTool("patch.nope".to_string())
    );
}

/// IDA's case: prose and the advertised surface disagree on a name, and the
/// alias is engine data rather than something kit could guess.
#[test]
fn an_alias_reaches_the_tool_the_engine_actually_advertises() {
    let catalog = sample();
    let mut taxonomy = Taxonomy::by_dot_prefix(&catalog);
    taxonomy.alias("open_idb", "session.open");

    let policy = ToolPolicy::builder(&catalog)
        .taxonomy(taxonomy)
        .include_tools(&["open_idb".to_string()])
        .build()
        .expect("policy");
    assert_eq!(names(&policy, sample()), ["session.open"]);
}

/// Case and separator folding, so that a category is the same category
/// however a user shell-quoted it.
#[test]
fn a_category_is_recognised_however_it_was_typed() {
    let mut taxonomy = Taxonomy::new();
    taxonomy.assign("cfg.walk", "control_flow");
    taxonomy.alias("cfg", "control_flow");

    for spelling in [
        "control_flow",
        "Control-Flow",
        "  CONTROL FLOW  ",
        "cfg",
        "CFG",
    ] {
        assert!(
            taxonomy.members_of(spelling).is_some(),
            "{spelling:?} should reach control_flow"
        );
    }
    assert!(taxonomy.members_of("controlflow").is_none(), "not a guess");
}

/// One comma-separated string and repeated flags are the same request.
#[test]
fn commas_and_repeats_mean_the_same_thing() {
    let commas = builder()
        .include_categories(&["patch,binary".to_string()])
        .build()
        .expect("policy");
    let repeats = builder()
        .include_categories(&["patch".to_string(), " binary ".to_string()])
        .build()
        .expect("policy");
    assert_eq!(names(&commas, sample()), names(&repeats, sample()));
    assert_eq!(
        names(&commas, sample()).len(),
        6,
        "4 selected + 2 essential"
    );
}

/// A taxonomy built from the native catalog, applied to the narrower
/// supervisor face, must not conjure tools that face does not carry.
#[test]
fn a_category_cannot_add_a_tool_this_face_does_not_advertise() {
    let wide = sample();
    let narrow = || vec![tool("patch.nop", false), tool("binary.strings", true)];

    let policy = ToolPolicy::builder(&narrow())
        .taxonomy(Taxonomy::by_dot_prefix(&wide))
        .include_categories(&["patch".to_string()])
        .build()
        .expect("policy");
    assert_eq!(
        names(&policy, narrow()),
        ["patch.nop"],
        "patch.bytes is in the taxonomy but not on this face"
    );
}

/// "7 of 7 tools" is noise: a flag that leaves nothing out narrows nothing.
#[test]
fn a_flag_that_leaves_nothing_out_reports_itself_inactive() {
    let readers: Vec<Tool> = sample()
        .into_iter()
        .filter(|tool| tool.annotations.and_then(|hints| hints.read_only_hint) == Some(true))
        .collect();
    let policy = ToolPolicy::builder(&readers).read_only(true).build().expect("policy");
    assert_eq!(names(&policy, readers.clone()).len(), readers.len());
    assert!(!policy.is_active());
    // What was asked for still rules out what the catalog does not have.
    assert!(!policy.allows("script.python"));

    let policy = ToolPolicy::builder(&sample()).read_only(true).build().expect("policy");
    assert!(policy.is_active());
}

#[test]
fn unrestricted_admits_everything() {
    let policy = ToolPolicy::unrestricted();
    assert!(!policy.is_active());
    assert!(policy.allows("script.python"));
    assert_eq!(names(&policy, sample()).len(), 7);
}

#[test]
fn a_builder_over_an_empty_catalog_has_nothing_to_offer() {
    let empty: &[Tool] = &[];
    assert_eq!(
        ToolPolicy::builder(empty).build().unwrap_err(),
        PolicyError::Empty
    );
}

/// The defect an end-to-end run turned up, pinned.
///
/// `--toolsets patch` used to produce a server with eight patch tools and no
/// `session.open` — and every one of those tools requires a `view` handle
/// that only `session.open` hands out. Eight tools, zero of them callable.
///
/// It is the same failure as `--read-only` dropping the lifecycle, arriving
/// by an unrelated route, which is why both are one concept here.
#[test]
fn narrowing_to_a_category_still_leaves_a_usable_server() {
    for narrowing in [
        builder().include_categories(&["patch".to_string()]),
        builder().include_tools(&["patch.nop".to_string()]),
        builder().read_only(true),
    ] {
        let policy = narrowing.build().expect("policy");
        assert!(policy.allows("session.open"), "no way to obtain a view");
    }
}

/// …but naming it explicitly still removes it. Picking a category is a
/// guess about what you need; naming a tool is a statement.
#[test]
fn an_explicit_exclusion_reaches_even_an_essential_tool() {
    let policy = builder()
        .exclude_tools(&["session.open".to_string()])
        .build()
        .expect("policy");
    assert!(!policy.allows("session.open"));
    assert!(policy.allows("session.list"));
}

/// A selection that leaves only the lifecycle is empty in the sense that
/// matters: the server can open a view and then do nothing with it.
#[test]
fn a_server_with_nothing_but_lifecycle_left_is_empty() {
    assert_eq!(
        builder()
            .include_tools(&["patch.nop".to_string()])
            .exclude_tools(&["patch.nop".to_string()])
            .build()
            .unwrap_err(),
        PolicyError::Empty
    );
}

/// The behaviour every engine's wiring rests on.
///
/// A derived `tool` tree is reached through `cli::resolve`, which hands back
/// the *leaf* subcommand's matches — and that happens before the root is
/// ever parsed into a struct. So a flag written before the subcommand has to
/// arrive at the leaf, or `bn tool patch.nop --read-only` would silently
/// ignore the flag. `global(true)` is what does it, and this pins it.
#[test]
fn the_flags_reach_the_leaf_of_a_derived_tool_tree() {
    let mut command = clap::Command::new("engine").subcommand(
        clap::Command::new("tool")
            .subcommand(clap::Command::new("patch").subcommand(clap::Command::new("nop"))),
    );
    for arg in PolicyArgs::args() {
        command = command.arg(clap_arg(&arg));
    }
    let matches = command
        .try_get_matches_from([
            "engine",
            "--read-only",
            "--exclude-tools",
            "patch.bytes",
            "tool",
            "patch",
            "nop",
        ])
        .expect("parse");
    let matches = matches_of(&matches);

    let tool = &matches.subcommand.as_ref().expect("tool").1;
    let group = &tool.subcommand.as_ref().expect("patch").1;
    let leaf = &group.subcommand.as_ref().expect("nop").1;

    let args = PolicyArgs::read(leaf);
    assert!(args.read_only, "the flag has to survive three levels down");
    assert_eq!(args.exclude_tools, ["patch.bytes"]);
    assert_eq!(PolicyArgs::read(&matches), args, "root and leaf agree");
}

/// An engine that has not adopted the policy reads as "nothing selected"
/// rather than panicking on an unregistered argument id.
#[test]
fn reading_a_tree_that_never_registered_the_flags_is_not_a_panic() {
    let matches = clap::Command::new("engine")
        .try_get_matches_from(["engine"])
        .expect("parse");
    let args = PolicyArgs::read(&matches_of(&matches));
    assert_eq!(args, PolicyArgs::default());
    assert!(args.is_empty());
}

#[test]
fn apply_carries_every_flag_into_the_builder() {
    let args = PolicyArgs {
        toolsets: vec!["patch".to_string()],
        tools: vec!["binary.strings".to_string()],
        exclude_tools: vec!["patch.bytes".to_string()],
        read_only: false,
    };
    assert!(!args.is_empty());
    let policy = args.apply(builder()).build().expect("policy");
    assert_eq!(
        names(&policy, sample()),
        [
            "session.open",
            "session.list",
            "binary.strings",
            "patch.nop"
        ]
    );
}

/// `Governed` refuses through the same policy the catalog was filtered with,
/// so a tool that is not listed cannot be called by guessing its name.
#[test]
fn a_governed_server_hides_and_refuses_the_same_tools() {
    struct Fake(Vec<Tool>);
    impl Fake {
        fn get_tool(&self, name: &str) -> Option<Tool> {
            self.0.iter().find(|tool| tool.name == name).cloned()
        }
    }

    let policy = builder().read_only(true).build().expect("policy");
    let governed = Governed::new(Fake(sample()), Arc::new(policy));
    let seen = |name: &str| governed.get_tool(name, governed.inner().get_tool(name));

    assert!(seen("binary.strings").is_some());
    assert!(
        seen("patch.nop").is_none(),
        "a writer is invisible under --read-only"
    );
    assert!(
        governed.inner().get_tool("patch.nop").is_some(),
        "…and still there underneath, which is why the wrapper has to refuse \
         calls too rather than trusting the catalog"
    );
    assert_eq!(governed.call_tool("binary.strings"), Ok(()));
    assert_eq!(governed.call_tool("patch.nop"), Err(refusal("patch.nop")));
    assert_eq!(governed.list_tools(sample()).len(), 4);
    assert!(governed.policy().is_active());
}

#[test]
fn a_refusal_names_the_flags_that_could_have_caused_it() {
    let message = refusal("patch.nop");
    assert!(message.contains("patch.nop"), "{message}");
    assert!(message.contains("--read-only"), "{message}");
}

/// A category that is itself a name wins over an alias of that name.
#[test]
fn an_exact_category_wins_over_an_alias() {
    let mut taxonomy = Taxonomy::new();
    taxonomy.assign("a.one", "a");
    taxonomy.assign("b.one", "b");
    taxonomy.alias("a", "b");
    assert_eq!(taxonomy.members_of("a").expect("a category"), &["a.one"]);
}

/// However a taxonomy was put together, its categories come out sorted and once.
#[test]
fn categories_do_not_depend_on_the_order_of_the_calls() {
    let mut one = Taxonomy::new();
    one.assign("patch.nop", "patch").assign("binary.strings", "binary").alias("bin", "binary");
    one.assign("patch.bytes", "patch").assign("zed", "a");
    let mut other = Taxonomy::new();
    other.assign("x", "a").assign("y", "binary").assign("z", "patch");
    assert_eq!(one.categories(), ["a", "binary", "patch"]);
    assert_eq!(one.categories(), other.categories());
}

/// One more flag never offers a tool that was not offered without it.
#[test]
fn one_more_flag_only_subtracts() {
    let wanted = ["patch".to_owned(), "binary".to_owned()];
    let before = names(&builder().include_categories(&wanted).build().expect("policy"), sample());
    let excluded = ["patch.nop".to_owned()];
    let fewer = builder().include_categories(&wanted).exclude_tools(&excluded).build();
    let safer = builder().include_categories(&wanted).read_only(true).build();
    for narrower in [fewer, safer] {
        let left = names(&narrower.expect("policy"), sample());
        assert!(left.len() < before.len());
        assert!(left.iter().all(|name| before.contains(name)));
    }
}

#[test]
fn errors_say_what_was_wrong() {
    assert_eq!(
        PolicyError::UnknownTool("x\"y".to_owned()).message(),
        "unknown tool \"x\\\"y\""
    );
    assert_eq!(
        PolicyError::Empty.message(),
        "the tool selection is empty; an exclusion or --read-only removed everything the includes selected"
    );
}
