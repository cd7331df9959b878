use vibrev::archive;
use vibrev::archive::{fingerprint, lay_out, read, take_apart, Flaw};
use vibrev::command::{Action, ArgSpec, CommandSpec, Kind, Matches, Need};
use vibrev::json::{parse_json, JsonValue};
use vibrev::listing::{Listing, Skill};
use vibrev::paths::join_path;
use vibrev::skills::{safe_join, Embedded, ExportError, ExportPlan, SkillMeta};
use vibrev::skills_cli::{
    command, export_report, from_matches, human_bytes, list_skills, SkillsArgs, SkillsCommand,
    SkillsWork,
};

fn leaked(text: &str) -> &'static str {
    Box::leak(text.to_owned().into_boxed_str())
}

fn clap_arg(spec: &ArgSpec) -> clap::Arg {
    let mut arg = clap::Arg::new(leaked(&spec.id)).hide(spec.hidden).global(spec.global);
    if let Some(long) = &spec.long {
        arg = arg.long(leaked(long));
    }
    if let Some(value_name) = &spec.value_name {
        arg = arg.value_name(leaked(value_name));
    }
    if let Some(help) = &spec.help {
        arg = arg.help(help.clone());
    }
    if let Some(default) = &spec.default {
        arg = arg.default_value(leaked(default));
    }
    if let Some(delimiter) = spec.delimiter {
        arg = arg.value_delimiter(delimiter);
    }
    if let Some(other) = &spec.overrides {
        arg = arg.overrides_with(leaked(other));
    }
    arg = match spec.need {
        Need::Optional => arg,
        Need::Required => arg.required(true),
        Need::UnlessJsonInput => arg.required_unless_present("__json_input"),
    };
    arg = match spec.action {
        Action::TakeOne => arg.action(clap::ArgAction::Set),
        Action::Switch => arg.action(clap::ArgAction::SetTrue),
        Action::Append => arg.action(clap::ArgAction::Append),
        Action::AppendMany => arg.action(clap::ArgAction::Append).num_args(1..),
    };
    if !spec.values.is_empty() {
        let values: Vec<&'static str> = spec.values.iter().map(|v| leaked(v)).collect();
        arg = arg
            .value_parser(clap::builder::PossibleValuesParser::new(values))
            .ignore_case(true);
    }
    match spec.kind {
        Kind::Unsigned => arg.value_parser(|s: &str| s.parse::<u64>().map(|_| s.to_owned())),
        Kind::UnsignedIn { low, high } => arg.value_parser(move |s: &str| {
            match s.parse::<u64>() {
                Ok(n) if low <= n && n <= high => Ok(s.to_owned()),
                _ => Err(format!("{s} is not in {low}..={high}")),
            }
        }),
        Kind::Path => arg.value_parser(clap::builder::PathBufValueParser::new()),
        Kind::Text | Kind::Address => arg,
    }
}

fn clap_command(spec: &CommandSpec) -> clap::Command {
    let mut command = clap::Command::new(leaked(&spec.name));
    if let Some(about) = &spec.about {
        command = command.about(about.clone());
    }
    if let Some(long_about) = &spec.long_about {
        command = command.long_about(long_about.clone());
    }
    if let Some(after_help) = &spec.after_help {
        command = command.after_help(after_help.clone());
    }
    if spec.needs_subcommand {
        command = command.subcommand_required(true).arg_required_else_help(true);
    }
    for arg in &spec.args {
        command = command.arg(clap_arg(arg));
    }
    for sub in &spec.subcommands {
        command = command.subcommand(clap_command(sub));
    }
    command
}

/// What clap parsed, level by level. A flag or a value is there where clap has
/// one for the id, which for a global argument is at every level.
fn matches_of(found: &clap::ArgMatches) -> Matches {
    let mut flags = Vec::new();
    let mut values = Vec::new();
    let mut paths = Vec::new();
    for id in found.ids() {
        let id = id.as_str();
        if let Ok(Some(set)) = found.try_get_one::<bool>(id) {
            if *set {
                flags.push(id.to_owned());
            }
        } else if let Ok(Some(list)) = found.try_get_many::<String>(id) {
            values.push((id.to_owned(), list.cloned().collect()));
        } else if let Ok(Some(path)) = found.try_get_one::<std::path::PathBuf>(id) {
            paths.push((id.to_owned(), path.as_os_str().as_encoded_bytes().to_vec()));
        }
    }
    let subcommand = found
        .subcommand()
        .map(|(name, sub)| Box::new((name.to_owned(), matches_of(sub))));
    Matches { flags, values, paths, subcommand }
}

fn json(source: &str) -> JsonValue {
    parse_json(source).expect("a JSON document")
}

fn entries() -> Vec<(String, Vec<u8>)> {
    vec![
        ("a/SKILL.md".to_string(), b"---\nname: a\n---\n".to_vec()),
        ("a/docs/one.md".to_string(), b"body".to_vec()),
        ("b/SKILL.md".to_string(), Vec::new()),
    ]
}

#[test]
fn the_writer_and_the_reader_agree() {
    let packed = archive::write(&entries()).expect("write");
    assert_eq!(read(&packed).expect("read"), entries());
}

/// An empty archive is the shape a build with no `skills/` directory produces.
#[test]
fn an_empty_archive_round_trips() {
    let packed = archive::write(&[]).expect("write");
    assert!(read(&packed).expect("read").is_empty());
}

#[test]
fn a_truncated_archive_is_an_error_not_a_panic() {
    let packed = archive::write(&entries()).expect("write");
    assert!(read(&packed[..packed.len() / 2]).is_err());
    assert!(read(b"not zlib at all").is_err());
}

#[test]
fn the_fingerprint_follows_content_and_order() {
    let base = fingerprint(&entries());
    assert_eq!(base, fingerprint(&entries()), "must be deterministic");

    let mut renamed = entries();
    renamed[1].0 = "a/docs/two.md".to_string();
    assert_ne!(base, fingerprint(&renamed), "a path is part of the skill");

    let mut edited = entries();
    edited[1].1 = b"other".to_vec();
    assert_ne!(base, fingerprint(&edited));

    let mut reordered = entries();
    reordered.swap(0, 2);
    assert_ne!(
        base,
        fingerprint(&reordered),
        "order matters, which is why the packer sorts"
    );
}

#[test]
fn an_archive_is_packed_and_its_flaws_are_told() {
    let raw = lay_out(&entries()).expect("it fits");
    assert_eq!(take_apart(&raw).expect("it reads"), entries());
    let packed = archive::write(&entries()).expect("write");
    assert_ne!(packed, raw, "the archive is compressed");
    assert_eq!(raw[..4], [3, 0, 0, 0]);

    for end in 0..raw.len() {
        assert!(take_apart(&raw[..end]).is_err(), "cut at {end}");
    }
    // A path that is no text.
    let odd = [1, 0, 0, 0, 1, 0, 0, 0, 0xff, 0, 0, 0, 0];
    assert_eq!(take_apart(&odd).expect_err("not UTF-8").0, Flaw::Path);
    assert_eq!(take_apart(&[1, 0]).expect_err("cut").0, Flaw::Header);
    let short = [1, 0, 0, 0, 9, 0, 0, 0, b'a'];
    assert_eq!(take_apart(&short).expect_err("cut").0, Flaw::Chunk);
    let corrupt = read(b"not zlib at all").expect_err("not zlib");
    assert_eq!(corrupt.0, Flaw::Corrupt);
    assert_eq!(corrupt.message(), "the embedded skill archive is corrupt");
}

/// The fingerprint of nothing is where the hash starts.
#[test]
fn the_fingerprint_of_nothing_is_the_offset() {
    assert_eq!(fingerprint(&[]), 0xcbf2_9ce4_8422_2325);
    let one = vec![("a".to_string(), b"b".to_vec())];
    let mut hash: u64 = 0xcbf2_9ce4_8422_2325;
    for byte in *b"ab" {
        hash = (hash ^ u64::from(byte)).wrapping_mul(0x100_0000_01b3);
    }
    assert_eq!(fingerprint(&one), hash);
}

// ---------------------------------------------------------------------------
// Exporting
// ---------------------------------------------------------------------------

fn leaked_bytes(bytes: Vec<u8>) -> &'static [u8] {
    Box::leak(bytes.into_boxed_slice())
}

fn packed(entries: &[(String, Vec<u8>)]) -> &'static [u8] {
    leaked_bytes(archive::write(entries).expect("write"))
}

#[test]
fn traversal_paths_are_refused() {
    let dir = b"/tmp/target";
    assert!(safe_join(dir, "skill/docs/x.md").is_ok());
    for bad in ["../outside", "skill/../../outside", "/etc/passwd"] {
        assert!(safe_join(dir, bad).is_err(), "{bad} must be refused");
    }
    assert_eq!(
        safe_join(dir, "skill/docs/x.md").expect("inside"),
        b"/tmp/target/skill/docs/x.md"
    );
    assert!(safe_join(dir, "skill/..not/x").is_ok(), "two dots are no step up");
    assert_eq!(
        safe_join(dir, "../outside").expect_err("outside").message(),
        "refusing to write skill path '../outside': it escapes the target directory"
    );
}

#[test]
fn a_path_from_the_root_stands_in_no_directory() {
    assert_eq!(join_path(b"/tmp/target", "x"), b"/tmp/target/x");
    assert_eq!(join_path(b"/tmp/target/", "x"), b"/tmp/target/x");
    assert_eq!(join_path(b"/tmp/target", ""), b"/tmp/target/");
    assert_eq!(join_path(b"", "x"), b"x");
    assert_eq!(join_path(b"/tmp/target", "/etc"), b"/etc");
}

/// An engine that ships nothing answers "nothing", rather than failing.
#[test]
fn an_empty_binary_lists_and_exports_nothing() {
    let embedded = Embedded::new(&[], packed(&[]));

    assert!(embedded.all().is_empty());
    assert!(embedded.by_name("anything").is_none());
    let plan = embedded.export(b"/nonexistent", None);
    assert!(plan.writes.is_empty());
    assert!(
        plan.outcome
            .expect("exporting nothing writes nothing")
            .is_empty()
    );
}

#[test]
fn an_unknown_skill_names_the_ones_that_exist() {
    const ALPHA: &[SkillMeta] = &[SkillMeta {
        name: "alpha",
        description: "a skill",
        files: 1,
        bytes: 1,
        fingerprint: "0000000000000000",
    }];
    let embedded = Embedded::new(ALPHA, packed(&[]));

    let error = embedded
        .export(b"/nonexistent", Some("nope"))
        .outcome
        .expect_err("must fail");
    assert!(error.message().contains("alpha"), "{}", error.message());
    assert_eq!(
        error.message(),
        "no skill named 'nope'; this binary ships alpha"
    );
}

/// A metadata table that disagrees with the archive means the two came from
/// different builds.
#[test]
fn a_table_that_disagrees_with_the_archive_is_refused() {
    const CLAIMS_TWO: &[SkillMeta] = &[SkillMeta {
        name: "alpha",
        description: "a skill",
        files: 2,
        bytes: 4,
        fingerprint: "0000000000000000",
    }];
    let embedded = Embedded::new(
        CLAIMS_TWO,
        packed(&[("alpha/SKILL.md".to_string(), b"body".to_vec())]),
    );

    let error = embedded
        .export(b"/tmp/mismatch", None)
        .outcome
        .expect_err("must fail");
    assert!(error.message().contains("claims 2"), "{}", error.message());
}

const TOY: &[SkillMeta] = &[
    SkillMeta {
        name: "toy-reference",
        description: "how the toy engine works",
        files: 2,
        bytes: 9,
        fingerprint: "0123456789abcdef",
    },
    SkillMeta {
        name: "toy",
        description: "a name that another begins with",
        files: 1,
        bytes: 1,
        fingerprint: "fedcba9876543210",
    },
];

fn toy() -> Embedded {
    Embedded::new(
        TOY,
        packed(&[
            ("toy-reference/SKILL.md".to_string(), b"body".to_vec()),
            ("toy-reference/docs/x.md".to_string(), b"other".to_vec()),
            ("toy/SKILL.md".to_string(), b"t".to_vec()),
        ]),
    )
}

#[test]
fn an_export_reproduces_the_repository_byte_for_byte() {
    let plan = toy().export(b"/into", None);
    let files: Vec<(&[u8], &[u8])> = plan
        .writes
        .iter()
        .map(|write| (write.path.as_slice(), write.body.as_slice()))
        .collect();
    assert_eq!(
        files,
        [
            (b"/into/toy-reference/SKILL.md".as_slice(), b"body".as_slice()),
            (b"/into/toy-reference/docs/x.md".as_slice(), b"other".as_slice()),
            (b"/into/toy/SKILL.md".as_slice(), b"t".as_slice()),
        ]
    );
    let exported = plan.outcome.expect("exported");
    assert_eq!(exported.len(), 2);
    assert_eq!(exported[0].root, b"/into/toy-reference");
    assert_eq!(exported[0].files.len(), 2);
}

#[test]
fn a_named_skill_is_exported_alone_and_an_unknown_one_fails() {
    let plan = toy().export(b"/into", Some("toy-reference"));
    assert_eq!(plan.writes.len(), 2);
    assert!(plan.outcome.is_ok());

    let refused = toy().export(b"/into", Some("nope"));
    assert!(refused.writes.is_empty());
    let message = refused.outcome.expect_err("an unknown skill").message();
    assert!(message.contains("toy-reference"), "{message}");
}

#[test]
fn an_archive_that_climbs_out_is_refused_where_it_does() {
    const EVIL: &[SkillMeta] = &[SkillMeta {
        name: "evil",
        description: "climbs",
        files: 2,
        bytes: 2,
        fingerprint: "0",
    }];
    let embedded = Embedded::new(
        EVIL,
        packed(&[
            ("evil/a".to_string(), b"a".to_vec()),
            ("evil/../../b".to_string(), b"b".to_vec()),
        ]),
    );
    let plan = embedded.export(b"/into", None);
    assert_eq!(plan.writes.len(), 1, "what came before stands");
    assert_eq!(
        plan.outcome.expect_err("refused").message(),
        "refusing to write skill path 'evil/../../b': it escapes the target directory"
    );
}

#[test]
fn the_other_refusals_of_an_export_are_told() {
    let broken = Embedded::new(TOY, b"not zlib at all");
    let plan = broken.export(b"/into", None);
    assert!(plan.writes.is_empty());
    assert!(matches!(plan.outcome, Err(ExportError::Archive(_))));
    // A skill that is not there is refused before the archive is looked at.
    let plan = broken.export(b"/into", Some("nope"));
    assert!(matches!(plan.outcome, Err(ExportError::UnknownSkill { .. })));
    let write = ExportError::Write {
        path: b"/into/x".to_vec(),
        reason: "denied".to_owned(),
    };
    assert_eq!(write.message(), "failed to write /into/x: denied");
    let given = toy().export_entries(Ok(Vec::new()), b"/into", Some("toy"));
    assert_eq!(
        given.outcome.expect_err("it holds nothing").message(),
        "skill 'toy' unpacked 0 files but its metadata claims 1"
    );
}

// ---------------------------------------------------------------------------
// The document
// ---------------------------------------------------------------------------

const ALPHA: &[SkillMeta] = &[SkillMeta {
    name: "alpha",
    description: "does a thing",
    files: 3,
    bytes: 99,
    fingerprint: "0123456789abcdef",
}];

/// The wire names are the contract.
#[test]
fn the_document_has_the_field_names_the_installer_reads() {
    let value = Listing::new("toy-engine", "0.0.1", ALPHA).to_value();
    assert_eq!(
        value,
        json(
            r#"{
                "ok": true,
                "server": "toy-engine",
                "version": "0.0.1",
                "skills": [{
                    "name": "alpha",
                    "description": "does a thing",
                    "files": 3,
                    "bytes": 99,
                    "fingerprint": "0123456789abcdef"
                }]
            }"#
        )
    );
}

/// An engine older than a field must not make the installer fail.
#[test]
fn a_sparse_document_from_an_older_engine_still_parses() {
    let listing = Listing::from_text(r#"{"ok":true}"#).expect("parse");
    assert!(listing.ok);
    assert!(listing.skills.is_empty());
    assert_eq!(listing.server, "");

    let listing =
        Listing::from_text(r#"{"ok":true,"skills":[{"name":"alpha"}]}"#).expect("parse");
    assert_eq!(listing.skills[0].name, "alpha");
    assert_eq!(listing.skills[0].fingerprint, "");

    let silent = Listing::from_text("{}").expect("an engine that says nothing ships nothing");
    assert!(silent.skills.is_empty());
}

#[test]
fn the_document_round_trips() {
    let listing = Listing::new("toy-engine", "0.0.1", ALPHA);
    let text = listing.to_text();
    assert_eq!(Listing::from_text(&text).expect("parse"), listing);
    assert_eq!(
        Listing::from_value(&listing.to_value()).expect("read"),
        listing
    );
}

#[test]
fn the_document_is_printed_in_the_order_of_its_fields() {
    assert_eq!(
        Listing::new("toy \"e\"", "", ALPHA).to_text(),
        r#"{"ok":true,"server":"toy \"e\"","skills":[{"name":"alpha","description":"does a thing","files":3,"bytes":99,"fingerprint":"0123456789abcdef"}]}"#
    );
}

#[test]
fn a_document_of_the_wrong_shape_is_not_a_listing() {
    for bad in [
        "[]",
        "nonsense",
        r#"{"ok": "yes"}"#,
        r#"{"server": 1}"#,
        r#"{"skills": {}}"#,
        r#"{"skills": [{"files": -1}]}"#,
        r#"{"skills": [1]}"#,
        r#"{"skills": [[]]}"#,
    ] {
        assert!(Listing::from_text(bad).is_none(), "{bad} was read");
    }
}

/// A list gives the fields in their order, and may stop early.
#[test]
fn a_document_may_give_its_fields_in_order() {
    let ordered =
        Listing::from_text(r#"[true,"toy","1",[["alpha","does a thing",3,99]]]"#).expect("a list");
    assert!(ordered.ok);
    assert_eq!(ordered.server, "toy");
    assert_eq!(ordered.version, "1");
    assert_eq!(ordered.skills[0].name, "alpha");
    assert_eq!(ordered.skills[0].files, 3);
    assert_eq!(ordered.skills[0].bytes, 99);
    assert_eq!(ordered.skills[0].fingerprint, "");
    assert!(Listing::from_text(r#"[true,"toy","1",[],5]"#).is_none(), "one too many");
    let short = Listing::from_text("[true]").expect("the rest is missing");
    assert!(short.ok && short.skills.is_empty());
    assert_eq!(Skill::from_value(&json("{}")).expect("a skill").name, "");
}

/// The listing an installer parses is the one an engine prints.
#[test]
fn the_listing_parses_as_the_type_the_installer_reads() {
    let lines = list_skills(&toy(), "toy-engine", "0.0.1", true);
    assert_eq!(lines.len(), 1);
    let listing = Listing::from_text(&lines[0]).expect("the document the installer parses");
    assert!(listing.ok);
    assert_eq!(listing.server, "toy-engine");
    assert!(!listing.version.is_empty());

    let skill = listing
        .skills
        .iter()
        .find(|s| s.name == "toy-reference")
        .expect("this engine ships toy-reference");
    assert_eq!(skill.files, 2);
    assert!(skill.bytes > 0);
    assert_eq!(
        skill.fingerprint.len(),
        16,
        "the installer compares this against a marker file"
    );
    assert!(!skill.description.is_empty());
}

#[test]
fn listing_needs_no_server_and_no_working_directory() {
    let lines = list_skills(&toy(), "toy-engine", "0.0.1", false);
    assert_eq!(
        lines,
        [
            "toy-reference  2 files  9 B  0123456789abcdef",
            "  how the toy engine works",
            "toy  1 files  1 B  fedcba9876543210",
            "  a name that another begins with",
        ]
    );
    let none = Embedded::new(&[], packed(&[]));
    assert_eq!(
        list_skills(&none, "e", "1", false),
        ["This build ships no skills."]
    );
}

// ---------------------------------------------------------------------------
// The command line
// ---------------------------------------------------------------------------

fn parsed(line: &[&str]) -> Option<SkillsArgs> {
    let found = clap_command(&command())
        .no_binary_name(true)
        .try_get_matches_from(line)
        .ok()?;
    from_matches(&matches_of(&found))
}

/// What the builder form parses is what the command is read back as.
#[test]
fn the_builder_form_and_the_derived_form_take_the_same_flags() {
    let args = parsed(&["export", "--dir", "/tmp/x", "--skill", "alpha", "--json"])
        .expect("every flag parses and reads back");

    let SkillsCommand::Export { dir, skill, json } = args.command else {
        panic!("expected the export verb");
    };
    assert_eq!(dir, b"/tmp/x");
    assert_eq!(skill.as_deref(), Some("alpha"));
    assert!(json);
}

#[test]
fn list_takes_only_json() {
    let args = parsed(&["list", "--json"]).expect("parse");
    assert!(matches!(args.command, SkillsCommand::List { json: true }));
    let args = parsed(&["list"]).expect("parse");
    assert!(matches!(args.command, SkillsCommand::List { json: false }));

    assert!(
        parsed(&["list", "--dir", "/tmp"]).is_none(),
        "list has no --dir"
    );
}

/// `--dir` is what the installer passes; forgetting it must be a usage error.
#[test]
fn export_without_a_destination_is_a_usage_error() {
    assert!(
        clap_command(&command())
            .no_binary_name(true)
            .try_get_matches_from(["export"])
            .is_err()
    );
    let bare = |name: &str| Matches {
        flags: Vec::new(),
        values: Vec::new(),
        paths: Vec::new(),
        subcommand: Some(Box::new((
            name.to_owned(),
            Matches {
                flags: Vec::new(),
                values: Vec::new(),
                paths: Vec::new(),
                subcommand: None,
            },
        ))),
    };
    assert!(from_matches(&bare("export")).is_none());
    assert!(from_matches(&bare("other")).is_none());
}

#[test]
fn human_bytes_switches_units_and_keeps_small_sizes_exact() {
    assert_eq!(human_bytes(0), "0 B");
    assert_eq!(human_bytes(1023), "1023 B");
    assert_eq!(human_bytes(1024), "1.0 KB");
    assert_eq!(human_bytes(2 * 1024 * 1024), "2.0 MB");
}

/// The sizes are those of floating-point arithmetic, digit for digit.
#[test]
fn human_bytes_rounds_as_floating_point_does() {
    let by_floats = |bytes: usize| {
        let mut value = bytes as f64;
        let mut unit = 0;
        while value >= 1024.0 && unit < 3 {
            value /= 1024.0;
            unit += 1;
        }
        if unit == 0 {
            format!("{bytes} B")
        } else {
            format!("{value:.1} {}", ["B", "KB", "MB", "GB"][unit])
        }
    };
    let mut sizes: Vec<usize> = (0..5000).collect();
    for shift in 10..64 {
        let base = 1usize << shift;
        for delta in [0, 1, 51, 52, 512, 513, 1023] {
            sizes.push(base.wrapping_add(delta));
            sizes.push(base.wrapping_sub(delta));
            sizes.push(base.wrapping_add(delta << (shift / 2)));
        }
    }
    for tenth in 0..200usize {
        sizes.push(1024 + tenth * 1024 / 20);
        sizes.push(1024 * 1024 + tenth * 1024 * 1024 / 20);
    }
    sizes.push(usize::MAX);
    sizes.push(usize::MAX - 1024);
    for size in sizes {
        assert_eq!(human_bytes(size), by_floats(size), "{size}");
    }
}

#[test]
fn running_a_verb_says_or_plans_what_it_does() {
    let list = SkillsArgs {
        command: SkillsCommand::List { json: false },
    };
    match list.run(&toy(), "e", "1") {
        SkillsWork::Say(lines) => assert_eq!(lines.len(), 4),
        other => panic!("not said: {other:?}"),
    }
    let export = SkillsArgs {
        command: SkillsCommand::Export {
            dir: b"/into".to_vec(),
            skill: Some("toy".to_owned()),
            json: false,
        },
    };
    match export.run(&toy(), "e", "1") {
        SkillsWork::Write(ExportPlan { writes, outcome }) => {
            assert_eq!(writes.len(), 1);
            let exported = outcome.expect("exported");
            assert_eq!(
                export_report(b"/into", &exported, false),
                ["toy  1 files  1 B  -> /into/toy"]
            );
            assert_eq!(
                export_report(b"/into", &exported, true),
                [r#"{"dir":"/into","ok":true,"skills":[{"bytes":1,"files":1,"fingerprint":"fedcba9876543210","name":"toy","root":"/into/toy"}]}"#]
            );
        }
        other => panic!("not planned: {other:?}"),
    }
}

/// A directory whose name is not UTF-8 is written to as it is named, and shown as
/// far as it can be.
#[test]
fn a_destination_need_not_be_text() {
    let dir = b"/in\xffto".to_vec();
    let matches = Matches {
        flags: Vec::new(),
        values: Vec::new(),
        paths: Vec::new(),
        subcommand: Some(Box::new((
            "export".to_owned(),
            Matches {
                flags: vec!["json".to_owned()],
                values: Vec::new(),
                paths: vec![("dir".to_owned(), dir.clone())],
                subcommand: None,
            },
        ))),
    };
    let args = from_matches(&matches).expect("an export");
    match args.run(&toy(), "e", "1") {
        SkillsWork::Write(ExportPlan { writes, .. }) => {
            assert!(!writes.is_empty());
            assert!(writes.iter().all(|file| file.path.starts_with(&dir)));
        }
        other => panic!("not planned: {other:?}"),
    }
    assert_eq!(
        export_report(&dir, &[], true),
        ["{\"dir\":\"/in\u{fffd}to\",\"ok\":true,\"skills\":[]}"]
    );
}
