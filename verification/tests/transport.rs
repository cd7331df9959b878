use vibrev::access::{AccessPolicy, BindAddr, Ip};
use vibrev::command::{Action, ArgSpec, CommandSpec, Kind, Matches, Need};
use vibrev::token::{Accepted, Loaded, Origin, TokenError, Warning};
use vibrev::transport::{
    banner, local_session_manager, streamable_config, token_notes, wrap, Exposure, HttpOptions,
    TransportError, DEFAULT_BIND, DEFAULT_MAX_REQUEST_BODY_MIB,
};

fn leaked(text: &str) -> &'static str {
    Box::leak(text.to_owned().into_boxed_str())
}

fn clap_arg(spec: &ArgSpec) -> clap::Arg {
    let mut arg = clap::Arg::new(leaked(&spec.id)).hide(spec.hidden).global(spec.global);
    if let Some(long) = &spec.long {
        arg = arg.long(leaked(long));
    }
    if let Some(value_name) = &spec.value_name {
        arg = arg.value_name(leaked(value_name));
    }
    if let Some(help) = &spec.help {
        arg = arg.help(help.clone());
    }
    if let Some(default) = &spec.default {
        arg = arg.default_value(leaked(default));
    }
    if let Some(delimiter) = spec.delimiter {
        arg = arg.value_delimiter(delimiter);
    }
    if let Some(other) = &spec.overrides {
        arg = arg.overrides_with(leaked(other));
    }
    arg = match spec.need {
        Need::Optional => arg,
        Need::Required => arg.required(true),
        Need::UnlessJsonInput => arg.required_unless_present("__json_input"),
    };
    arg = match spec.action {
        Action::TakeOne => arg.action(clap::ArgAction::Set),
        Action::Switch => arg.action(clap::ArgAction::SetTrue),
        Action::Append => arg.action(clap::ArgAction::Append),
        Action::AppendMany => arg.action(clap::ArgAction::Append).num_args(1..),
    };
    if !spec.values.is_empty() {
        let values: Vec<&'static str> = spec.values.iter().map(|v| leaked(v)).collect();
        arg = arg
            .value_parser(clap::builder::PossibleValuesParser::new(values))
            .ignore_case(true);
    }
    match spec.kind {
        Kind::Unsigned => arg.value_parser(|s: &str| s.parse::<u64>().map(|_| s.to_owned())),
        Kind::UnsignedIn { low, high } => arg.value_parser(move |s: &str| {
            match s.parse::<u64>() {
                Ok(n) if low <= n && n <= high => Ok(s.to_owned()),
                _ => Err(format!("{s} is not in {low}..={high}")),
            }
        }),
        Kind::Path => arg.value_parser(clap::builder::PathBufValueParser::new()),
        Kind::Text | Kind::Address => arg,
    }
}

fn clap_command(spec: &CommandSpec) -> clap::Command {
    let mut command = clap::Command::new(leaked(&spec.name));
    if let Some(about) = &spec.about {
        command = command.about(about.clone());
    }
    if let Some(long_about) = &spec.long_about {
        command = command.long_about(long_about.clone());
    }
    if let Some(after_help) = &spec.after_help {
        command = command.after_help(after_help.clone());
    }
    if spec.needs_subcommand {
        command = command.subcommand_required(true).arg_required_else_help(true);
    }
    for arg in &spec.args {
        command = command.arg(clap_arg(arg));
    }
    for sub in &spec.subcommands {
        command = command.subcommand(clap_command(sub));
    }
    command
}

/// What clap parsed, level by level. A flag or a value is there where clap has
/// one for the id, which for a global argument is at every level.
fn matches_of(found: &clap::ArgMatches) -> Matches {
    let mut flags = Vec::new();
    let mut values = Vec::new();
    let mut paths = Vec::new();
    for id in found.ids() {
        let id = id.as_str();
        if let Ok(Some(set)) = found.try_get_one::<bool>(id) {
            if *set {
                flags.push(id.to_owned());
            }
        } else if let Ok(Some(list)) = found.try_get_many::<String>(id) {
            values.push((id.to_owned(), list.cloned().collect()));
        } else if let Ok(Some(path)) = found.try_get_one::<std::path::PathBuf>(id) {
            paths.push((id.to_owned(), path.as_os_str().as_encoded_bytes().to_vec()));
        }
    }
    let subcommand = found
        .subcommand()
        .map(|(name, sub)| Box::new((name.to_owned(), matches_of(sub))));
    Matches { flags, values, paths, subcommand }
}

fn engine() -> clap::Command {
    let mut command = clap::Command::new("engine").no_binary_name(true);
    for arg in HttpOptions::args() {
        command = command.arg(clap_arg(&arg));
    }
    command
}

fn parse(args: &[&str]) -> HttpOptions {
    HttpOptions::read(&matches_of(&engine().get_matches_from(args)))
}

fn policy_for(opts: &HttpOptions, tokens: &[&str]) -> AccessPolicy {
    let auth = Accepted::new(
        tokens.iter().map(|t| (*t).to_string()).collect(),
        Some(b"/home/tester/.vibrev/token".to_vec()),
    )
    .expect("token set");
    let (host, port) = opts.bind.rsplit_once(':').expect("a port");
    let ip = match host {
        "127.0.0.1" => Ip::V4(0x7f00_0001),
        "0.0.0.0" => Ip::V4(0),
        other => panic!("no address: {other}"),
    };
    let bind = BindAddr {
        ip,
        port: port.parse().expect("a port"),
        shown: opts.bind.clone(),
    };
    AccessPolicy::new(bind, opts.allow_host.as_deref(), auth)
}

fn exposure() -> Exposure {
    Exposure {
        engine: "test-engine",
        routes: &["/mcp"],
        reach: vec!["read any file this host can read".to_string()],
        arbitrary_code: None,
    }
}

/// The defaults are part of the contract between engines.
#[test]
fn the_defaults_are_the_ones_documented() {
    let opts = parse(&[]);
    assert_eq!(opts.bind, DEFAULT_BIND);
    assert_eq!(opts.allow_origin, ["http://localhost", "http://127.0.0.1"]);
    assert_eq!(opts.allow_host, None);
    assert_eq!(opts.sse_keep_alive_secs, 15);
    assert_eq!(opts.session_keep_alive_secs, 1800);
    assert_eq!(opts.max_request_body_mib, 16);
    assert!(!opts.stateless);
    assert!(!opts.json_response);
    assert_eq!(opts.token_file, None);
}

/// "not configured" and "configured to allow everything" are different answers.
#[test]
fn an_absent_allow_host_is_not_an_empty_one() {
    assert_eq!(parse(&[]).allow_host, None);
    assert_eq!(
        parse(&["--allow-host", ""]).allow_host,
        Some(vec![String::new()])
    );
    assert_eq!(
        parse(&["--allow-host", "a.local,b.local"]).allow_host,
        Some(vec!["a.local".to_string(), "b.local".to_string()])
    );
}

#[test]
fn every_flag_round_trips() {
    let opts = parse(&[
        "--bind",
        "0.0.0.0:9001",
        "--token-file",
        "/tmp/t",
        "--allow-origin",
        "http://a,http://b",
        "--sse-keep-alive-secs",
        "0",
        "--session-keep-alive-secs",
        "60",
        "--stateless",
        "--json-response",
        "--max-request-body-mib",
        "3",
    ]);
    assert_eq!(opts.bind, "0.0.0.0:9001");
    assert_eq!(opts.token_file.as_deref(), Some(&b"/tmp/t"[..]));
    assert_eq!(opts.allow_origin, ["http://a", "http://b"]);
    assert_eq!(opts.sse_keep_alive_secs, 0);
    assert_eq!(opts.session_keep_alive_secs, 60);
    assert!(opts.stateless);
    assert!(opts.json_response);
    assert_eq!(opts.max_request_body_mib, 3);
}

/// A command tree that never registered these flags must still yield a working
/// listener.
#[test]
fn reading_a_command_without_the_flags_gives_the_defaults() {
    let matches = clap::Command::new("bare")
        .no_binary_name(true)
        .get_matches_from(Vec::<&str>::new());
    let opts = HttpOptions::read(&matches_of(&matches));
    assert_eq!(opts.bind, DEFAULT_BIND);
    assert_eq!(opts.max_request_body_mib, DEFAULT_MAX_REQUEST_BODY_MIB);
}

#[test]
fn there_is_no_flag_that_turns_the_credential_off() {
    let rendered = engine().render_long_help().to_string();
    for absent in ["--no-auth", "--insecure", "--anonymous", "--no-token"] {
        assert!(
            !rendered.contains(absent),
            "{absent} is offered: {rendered}"
        );
    }
    let flattened = rendered.split_whitespace().collect::<Vec<_>>().join(" ");
    assert!(
        flattened.contains("no switch that turns the token off"),
        "{rendered}"
    );
}

#[test]
fn the_banner_states_the_requirement_and_where_the_file_is() {
    let opts = parse(&[]);
    let notice = banner(&policy_for(&opts, &["vbr_secret"]), &exposure(), false);
    assert!(notice.contains("requires a bearer token"));
    assert!(notice.contains("/home/tester/.vibrev/token"));
    assert!(notice.contains("http://127.0.0.1:8765/mcp"));
    // The paste-able snippet is the whole answer to "how do I configure a client".
    assert!(notice.contains("\"test-engine\": {"));
    assert!(notice.contains("\"Authorization\": \"Bearer "));
    // And it must say the default path is unaffected.
    assert!(notice.contains("stdio"));
    // The default posture must not claim more than it does.
    assert!(!notice.contains("WARNING:"));
    assert!(!notice.contains("execute arbitrary code"));
}

#[test]
fn the_banner_hides_the_token_unless_stderr_is_a_terminal() {
    let opts = parse(&[]);
    let policy = policy_for(&opts, &["vbr_secret"]);
    let piped = banner(&policy, &exposure(), false);
    assert!(
        !piped.contains("vbr_secret"),
        "a redirected stderr is a log file"
    );
    assert!(piped.contains("elided because stderr is not a terminal"));

    let interactive = banner(&policy, &exposure(), true);
    assert!(
        interactive.contains("vbr_secret"),
        "a person needs it to paste"
    );
    assert!(!interactive.contains("elided"));
}

/// An engine behind a listener that runs caller-supplied code says so.
#[test]
fn code_execution_is_named_in_the_banner_rather_than_hidden_from_the_catalog() {
    let opts = parse(&[]);
    let mut exposure = exposure();
    exposure.arbitrary_code = Some("script.python runs caller-supplied Python".to_string());
    let notice = banner(&policy_for(&opts, &["vbr_a"]), &exposure, false);
    assert!(notice.contains("can execute arbitrary code"));
    // Word by word, not phrase by phrase: the banner wraps.
    assert!(notice.contains("script.python"));
    assert!(notice.contains("caller-supplied"));
}

#[test]
fn the_banner_flags_a_widened_listener() {
    let lan = parse(&["--bind", "0.0.0.0:8765"]);
    assert!(banner(&policy_for(&lan, &["vbr_a"]), &exposure(), false).contains("is not loopback"));

    let open = parse(&["--allow-host", "*"]);
    assert!(
        banner(&policy_for(&open, &["vbr_a"]), &exposure(), false)
            .contains("Host validation is disabled")
    );
}

/// The engine writes sentences and the banner lays them out.
#[test]
fn every_banner_line_fits_in_eighty_columns() {
    let opts = parse(&["--bind", "0.0.0.0:8765"]);
    let mut exposure = exposure();
    exposure.reach = vec![
        "a caller holding the token can open any file on this host for analysis, \
         which is a sentence nobody wrapped by hand"
            .to_string(),
    ];
    exposure.arbitrary_code = Some(
        "script.python runs caller-supplied Python inside a worker; \
         --exclude-tools script.python removes it"
            .to_string(),
    );
    let notice = banner(&policy_for(&opts, &["vbr_a"]), &exposure, true);
    for line in notice.lines() {
        assert!(
            line.chars().count() <= 80,
            "{} columns: {line}",
            line.chars().count()
        );
    }
    // And wrapping must not lose the words that make it a warning.
    let flattened = notice.split_whitespace().collect::<Vec<_>>().join(" ");
    assert!(flattened.contains("--exclude-tools script.python removes it"));
    assert!(flattened.contains("a caller holding the token can open any file"));
}

#[test]
fn a_word_longer_than_the_width_overhangs_rather_than_being_cut() {
    // Better an over-long line than a path a reader cannot paste.
    assert_eq!(
        wrap("a /very/long/path/that/exceeds b", 8),
        ["a", "/very/long/path/that/exceeds", "b"]
    );
    assert_eq!(wrap("one two three", 7), ["one two", "three"]);
    assert!(wrap("", 8).is_empty());
    assert_eq!(
        wrap("aa bb cc dd ee", 8),
        ["aa bb cc", "dd ee"],
        "no line is left short while the next word fits"
    );
}

#[test]
fn the_accepted_count_is_reported_so_a_half_done_rotation_is_visible() {
    let opts = parse(&[]);
    let notice = banner(
        &policy_for(&opts, &["vbr_new", "vbr_old"]),
        &exposure(),
        false,
    );
    assert!(notice.contains("2 token(s)"));
}

#[test]
fn rmcp_host_validation_stays_off_so_there_is_only_one_allowlist() {
    let config = streamable_config(&parse(&[]));
    assert!(!config.checks_hosts);
}

#[test]
fn json_response_applies_to_all_sessionless_dispatch() {
    // The flag must not depend on --stateless.
    let stateful = streamable_config(&parse(&["--json-response"]));
    assert!(stateful.json_response);
    let stateless = streamable_config(&parse(&["--json-response", "--stateless"]));
    assert!(stateless.json_response);
}

#[test]
fn stateless_disables_legacy_sessions() {
    assert!(streamable_config(&parse(&[])).legacy_session_mode);
    assert!(!streamable_config(&parse(&["--stateless"])).legacy_session_mode);
}

#[test]
fn the_body_cap_follows_the_operator_and_saturates() {
    let config = streamable_config(&parse(&[]));
    assert_eq!(config.max_request_body_bytes, 16 * 1024 * 1024);
    assert!(config.max_request_body_bytes > 4 * 1024 * 1024);
    assert!(config.max_request_body_bytes < 64 * 1024 * 1024);

    let mut huge = parse(&[]);
    huge.max_request_body_mib = usize::MAX;
    assert_eq!(streamable_config(&huge).max_request_body_bytes, usize::MAX);
}

#[test]
fn session_keep_alive_zero_disables_the_timeout() {
    assert!(local_session_manager(0).keep_alive_secs.is_none());
    assert_eq!(
        local_session_manager(1800).keep_alive_secs,
        Some(1800),
        "an explicit value must override the default of the transport"
    );
    assert!(!local_session_manager(1800).sse_retry);
}

#[test]
fn errors_of_a_listener_are_told() {
    assert_eq!(
        TransportError::Bind {
            addr: "127.0.0.1:1".to_owned(),
            reason: "in use".to_owned()
        }
        .message(),
        "cannot bind 127.0.0.1:1: in use"
    );
    assert_eq!(
        TransportError::Token(TokenError::NoHome).message(),
        TokenError::NoHome.message()
    );
    assert_eq!(
        TransportError::LocalAddr { reason: "gone".to_owned() }.message(),
        "cannot read the listener's address: gone"
    );
    assert_eq!(
        TransportError::Serve { reason: "closed".to_owned() }.message(),
        "the HTTP listener failed: closed"
    );
}

#[test]
fn what_is_worth_telling_of_a_token_file_is_told() {
    let loaded = Loaded {
        tokens: vec!["vbr_a".to_owned()],
        origin: Origin::Generated,
        warnings: vec![Warning::WorldReadable {
            path: b"/t".to_vec(),
            mode: 0o644,
        }],
    };
    let notes = token_notes(b"/t", &loaded);
    assert!(notes[0].contains("Generated a new shared token at /t."), "{notes:?}");
    assert!(notes.iter().any(|note| note.contains("is mode 0644")), "{notes:?}");
}
