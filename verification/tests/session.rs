use vibrev::command::{Action, ArgSpec, CommandSpec, Kind, Matches, Need};
use vibrev::json::Fields;
use vibrev::session::{after_probe, Readiness, ReadySpec, SessionSpec, WaitStep};
use vibrev::tool::{CliHints, Tool, ToolDef};

fn leaked(text: &str) -> &'static str {
    Box::leak(text.to_owned().into_boxed_str())
}

fn clap_arg(spec: &ArgSpec) -> clap::Arg {
    let mut arg = clap::Arg::new(leaked(&spec.id)).hide(spec.hidden).global(spec.global);
    if let Some(long) = &spec.long {
        arg = arg.long(leaked(long));
    }
    if let Some(value_name) = &spec.value_name {
        arg = arg.value_name(leaked(value_name));
    }
    if let Some(help) = &spec.help {
        arg = arg.help(help.clone());
    }
    if let Some(default) = &spec.default {
        arg = arg.default_value(leaked(default));
    }
    if let Some(delimiter) = spec.delimiter {
        arg = arg.value_delimiter(delimiter);
    }
    if let Some(other) = &spec.overrides {
        arg = arg.overrides_with(leaked(other));
    }
    arg = match spec.need {
        Need::Optional => arg,
        Need::Required => arg.required(true),
        Need::UnlessJsonInput => arg.required_unless_present("__json_input"),
    };
    arg = match spec.action {
        Action::TakeOne => arg.action(clap::ArgAction::Set),
        Action::Switch => arg.action(clap::ArgAction::SetTrue),
        Action::Append => arg.action(clap::ArgAction::Append),
        Action::AppendMany => arg.action(clap::ArgAction::Append).num_args(1..),
    };
    if !spec.values.is_empty() {
        let values: Vec<&'static str> = spec.values.iter().map(|v| leaked(v)).collect();
        arg = arg
            .value_parser(clap::builder::PossibleValuesParser::new(values))
            .ignore_case(true);
    }
    match spec.kind {
        Kind::Unsigned => arg.value_parser(|s: &str| s.parse::<u64>().map(|_| s.to_owned())),
        Kind::UnsignedIn { low, high } => arg.value_parser(move |s: &str| {
            match s.parse::<u64>() {
                Ok(n) if low <= n && n <= high => Ok(s.to_owned()),
                _ => Err(format!("{s} is not in {low}..={high}")),
            }
        }),
        Kind::Path => arg.value_parser(clap::builder::PathBufValueParser::new()),
        Kind::Text | Kind::Address => arg,
    }
}

fn clap_command(spec: &CommandSpec) -> clap::Command {
    let mut command = clap::Command::new(leaked(&spec.name));
    if let Some(about) = &spec.about {
        command = command.about(about.clone());
    }
    if let Some(long_about) = &spec.long_about {
        command = command.long_about(long_about.clone());
    }
    if let Some(after_help) = &spec.after_help {
        command = command.after_help(after_help.clone());
    }
    if spec.needs_subcommand {
        command = command.subcommand_required(true).arg_required_else_help(true);
    }
    for arg in &spec.args {
        command = command.arg(clap_arg(arg));
    }
    for sub in &spec.subcommands {
        command = command.subcommand(clap_command(sub));
    }
    command
}

/// What clap parsed, level by level. A flag or a value is there where clap has
/// one for the id, which for a global argument is at every level.
fn matches_of(found: &clap::ArgMatches) -> Matches {
    let mut flags = Vec::new();
    let mut values = Vec::new();
    let mut paths = Vec::new();
    for id in found.ids() {
        let id = id.as_str();
        if let Ok(Some(set)) = found.try_get_one::<bool>(id) {
            if *set {
                flags.push(id.to_owned());
            }
        } else if let Ok(Some(list)) = found.try_get_many::<String>(id) {
            values.push((id.to_owned(), list.cloned().collect()));
        } else if let Ok(Some(path)) = found.try_get_one::<std::path::PathBuf>(id) {
            paths.push((id.to_owned(), path.as_os_str().as_encoded_bytes().to_vec()));
        }
    }
    let subcommand = found
        .subcommand()
        .map(|(name, sub)| Box::new((name.to_owned(), matches_of(sub))));
    Matches { flags, values, paths, subcommand }
}

const READY: ReadySpec = ReadySpec {
    skip_flag: "no-wait-analysis",
    skip_help: "skip",
    timeout_ms: 60,
    poll_ms: 5,
    timed_out: "等待分析收敛超时，结果可能不完整",
    unknown: "无法确认分析是否收敛",
};

const SPEC: SessionSpec = SessionSpec {
    selector: Some("database"),
    flag: "idb",
    value_name: "PATH",
    help: "the database to open",
    missing: "IDA 的工具都读当前打开的数据库",
    ready: Some(READY),
};

fn parsed(spec: &SessionSpec, argv: &[&str]) -> Matches {
    let mut cmd = clap::Command::new("eng").subcommand(clap::Command::new("tool"));
    for arg in spec.args() {
        cmd = cmd.arg(clap_arg(&arg));
    }
    matches_of(&cmd.get_matches_from(argv))
}

#[test]
fn a_missing_session_reports_the_declared_prose_not_an_invented_one() {
    let m = parsed(&SPEC, &["eng", "tool"]);
    let error = SPEC.read(&m).expect_err("no --idb was given");
    assert_eq!(error.flag, "idb");
    assert!(error.to_text().contains("--idb"), "{}", error.to_text());
    assert!(error.to_text().contains(SPEC.missing), "{}", error.to_text());
}

#[test]
fn the_session_flag_is_global_so_it_reads_from_either_side_of_the_tool() {
    for argv in [
        ["eng", "--idb", "/tmp/cat", "tool"],
        ["eng", "tool", "--idb", "/tmp/cat"],
    ] {
        let m = parsed(&SPEC, &argv);
        let args = SPEC.read(&m).expect("the flag was given");
        assert_eq!(args.target, "/tmp/cat");
        assert!(args.wait_for_ready, "waiting is the default");
    }
}

#[test]
fn the_opt_out_flag_turns_the_wait_off() {
    let m = parsed(
        &SPEC,
        &["eng", "tool", "--idb", "/tmp/cat", "--no-wait-analysis"],
    );
    assert!(!SPEC.read(&m).expect("the flag was given").wait_for_ready);
}

/// An engine with no readiness concept gets no flag and never waits, rather
/// than getting a flag that does nothing.
#[test]
fn an_engine_without_a_readiness_gate_has_no_readiness_flag() {
    const PLAIN: SessionSpec = SessionSpec {
        ready: None,
        ..SPEC
    };
    let longs: Vec<String> = PLAIN.args().into_iter().filter_map(|a| a.long).collect();
    assert_eq!(longs, ["idb"]);
    assert_eq!(PLAIN.flags(), ["idb"]);
    assert_eq!(SPEC.flags(), ["idb", "no-wait-analysis"]);

    let m = parsed(&PLAIN, &["eng", "--idb", "/tmp/cat"]);
    assert!(!PLAIN.read(&m).expect("the flag was given").wait_for_ready);
}

fn def(needs_session: bool) -> ToolDef {
    ToolDef {
        tool: Tool {
            name: "tool_help".to_owned(),
            title: None,
            description: Some("docs for one tool".to_owned()),
            annotations: None,
            input_schema: Fields::new(),
            output_schema: None,
        },
        cli: CliHints {
            positional: &[],
            int_args: &[],
            enabled: true,
            needs_session,
        },
        ext: None,
    }
}

/// "This tool asked for no session" and "the user forgot to name one" are
/// different answers.
#[test]
fn a_tool_that_needs_no_session_is_not_asked_for_one() {
    let m = parsed(&SPEC, &["eng", "tool"]);
    assert!(
        SPEC.read_for(&def(false), &m)
            .expect("no session is not an error")
            .is_none()
    );
    assert!(SPEC.read_for(&def(true), &m).is_err());
}

/// Runs the waiting loop over a clock that stands still but for the sleeps.
fn wait_until_ready(mut probe: impl FnMut() -> Result<bool, String>) -> Readiness {
    let mut now = 0;
    loop {
        match after_probe(&READY, probe(), now, READY.timeout_ms) {
            WaitStep::Done(outcome) => return outcome,
            WaitStep::SleepAndProbe => now += READY.poll_ms,
        }
    }
}

#[test]
fn a_wait_that_converges_reports_ready_and_says_nothing() {
    let mut calls = 0u32;
    let outcome = wait_until_ready(|| {
        calls += 1;
        Ok(calls >= 3)
    });
    assert_eq!(outcome, Readiness::Ready);
    assert!(outcome.is_ready());
    assert_eq!(outcome.warning(&READY), None);
}

/// The ceiling expiring must not fall through to the call with no output at all.
#[test]
fn a_wait_that_never_converges_says_so() {
    let outcome = wait_until_ready(|| Ok(false));
    assert_eq!(outcome, Readiness::TimedOut);
    assert_eq!(outcome.warning(&READY).as_deref(), Some(READY.timed_out));
}

/// A probe that fails is "I could not tell", which is not the same as "ready".
#[test]
fn a_probe_that_fails_is_reported_with_its_reason() {
    let outcome = wait_until_ready(|| Err("worker gone".to_owned()));
    assert_eq!(outcome, Readiness::Unknown("worker gone".to_owned()));
    let warning = outcome
        .warning(&READY)
        .expect("an unknown state is reported");
    assert!(warning.contains("worker gone"), "{warning}");
    assert!(warning.contains(READY.unknown), "{warning}");
}

#[test]
fn a_wait_that_was_skipped_says_nothing() {
    assert_eq!(Readiness::Skipped.warning(&READY), None);
    assert!(!Readiness::Skipped.is_ready());
}
