//! `skills list` and `skills export`, once, for every engine.

use vstd::prelude::*;

use crate::command;
use crate::command::{Action, ArgSpec, ArgView, CommandSpec, CommandView, Kind, Matches, Need};
use crate::json;
use crate::json::{to_compact, Fields, Json, JsonValue};
use crate::listing;
use crate::listing::{number, Listing, ListingView};
use crate::paths;
use crate::paths::{copy_bytes, path_text};
use crate::skills;
use crate::skills::{Embedded, ExportPlan, Exported, ExportedView, MetaView, SkillMeta};
use crate::text;
use crate::text::{decimal_of, same};
use crate::tool;

verus! {

// ---------------------------------------------------------------------------
// Sizes
// ---------------------------------------------------------------------------

/// A quotient rounded to the nearest integer, a half to the even one.
pub open spec fn rounded(n: nat, d: nat) -> nat {
    if 2 * (n % d) > d || (2 * (n % d) == d && (n / d) % 2 == 1) {
        n / d + 1
    } else {
        n / d
    }
}

/// The distance between double-precision numbers at an integer.
pub open spec fn spacing(n: nat) -> nat
    decreases n,
{
    if n < 0x20_0000_0000_0000 {
        1
    } else {
        2 * spacing(n / 2)
    }
}

/// The double-precision number nearest to an integer.
pub open spec fn as_double(n: nat) -> nat {
    rounded(n, spacing(n)) * spacing(n)
}

/// A quotient with one decimal.
pub open spec fn one_decimal(n: nat, d: nat) -> Seq<char> {
    text::decimal(rounded(10 * n, d) / 10) + "."@ + text::decimal(rounded(10 * n, d) % 10)
}

/// A size as a reader sees it: exact below a kilobyte, and from there on with
/// one decimal in the largest unit, gigabytes at most, that it reaches.
pub open spec fn size_text(bytes: nat) -> Seq<char> {
    let size = as_double(bytes);
    if size < 0x400 {
        text::decimal(bytes) + " B"@
    } else if size < 0x10_0000 {
        one_decimal(size, 0x400) + " KB"@
    } else if size < 0x4000_0000 {
        one_decimal(size, 0x10_0000) + " MB"@
    } else {
        one_decimal(size, 0x4000_0000) + " GB"@
    }
}

fn round(n: u128, d: u128) -> (res: u128)
    requires
        0 < d < 0x1_0000_0000_0000_0000,
        n < 0x1_0000_0000_0000_0000_0000,
    ensures
        res == rounded(n as nat, d as nat),
        res <= n + 1,
{
    let q = n / d;
    let r = n % d;
    assert(n / d <= n) by (nonlinear_arith)
        requires
            d > 0,
    ;
    if 2 * r > d || (2 * r == d && q % 2 == 1) {
        q + 1
    } else {
        q
    }
}

fn step_at(n: u64) -> (res: u64)
    ensures
        res == spacing(n as nat),
        res == 1 || 0x10_0000_0000_0000 * res <= n,
        res >= 1,
    decreases n,
{
    if n < 0x20_0000_0000_0000 {
        1
    } else {
        2 * step_at(n / 2)
    }
}

fn to_double(n: u64) -> (res: u128)
    ensures
        res == as_double(n as nat),
        res <= 0x1_0000_0000_0000_0000 * 0x1000,
{
    let step = step_at(n) as u128;
    let count = round(n as u128, step);
    assert(step <= 0x1000);
    assert(count <= 0x1_0000_0000_0000_0000);
    assert(count * step <= 0x1_0000_0000_0000_0000 * 0x1000) by (nonlinear_arith)
        requires
            count <= 0x1_0000_0000_0000_0000,
            step <= 0x1000,
    ;
    count * step
}

fn with_one_decimal(n: u128, d: u128) -> (res: String)
    requires
        0x400 <= d < 0x1_0000_0000_0000_0000,
        10 * n < 0x1_0000_0000_0000_0000_0000,
        10 * (n as int) / (d as int) < u64::MAX,
    ensures
        res@ == one_decimal(n as nat, d as nat),
{
    let tenths = round(10 * n, d);
    assert(tenths <= 10 * (n as int) / (d as int) + 1);
    let mut out = decimal_of((tenths / 10) as u64);
    out.append(".");
    out.append(decimal_of((tenths % 10) as u64).as_str());
    out
}

/// A size as a reader sees it.
pub fn human_bytes(bytes: usize) -> (res: String)
    ensures
        res@ == size_text(bytes as nat),
{
    let size = to_double(bytes as u64);
    if size < 0x400 {
        let mut out = decimal_of(bytes as u64);
        out.append(" B");
        out
    } else if size < 0x10_0000 {
        let mut out = with_one_decimal(size, 0x400);
        out.append(" KB");
        out
    } else if size < 0x4000_0000 {
        let mut out = with_one_decimal(size, 0x10_0000);
        out.append(" MB");
        out
    } else {
        let mut out = with_one_decimal(size, 0x4000_0000);
        out.append(" GB");
        out
    }
}

// ---------------------------------------------------------------------------
// The command line
// ---------------------------------------------------------------------------

/// What is asked of `skills`.
#[derive(Debug)]
pub enum SkillsCommand {
    /// List the skills this binary carries.
    List { json: bool },
    /// Write the skills out, one directory per skill.
    Export { dir: Vec<u8>, skill: Option<String>, json: bool },
}

/// `skills list` / `skills export`.
#[derive(Debug)]
pub struct SkillsArgs {
    pub command: SkillsCommand,
}

/// What a [`SkillsArgs`] asks for.
pub enum SkillsAsk {
    List { json: bool },
    Export { dir: Seq<u8>, skill: Option<Seq<char>>, json: bool },
}

impl View for SkillsArgs {
    type V = SkillsAsk;

    open spec fn view(&self) -> SkillsAsk {
        match self.command {
            SkillsCommand::List { json } => SkillsAsk::List { json },
            SkillsCommand::Export { dir, skill, json } => SkillsAsk::Export {
                dir: dir@,
                skill: tool::opt_text(skill),
                json,
            },
        }
    }
}

/// `--json`.
pub open spec fn json_switch() -> ArgView {
    ArgView {
        long: Some("json"@),
        help: Some("Emit the machine-readable form on stdout"@),
        action: Action::Switch,
        ..command::plain_arg("json"@)
    }
}

/// `--dir DIR`.
pub open spec fn dir_option() -> ArgView {
    ArgView {
        long: Some("dir"@),
        value_name: Some("DIR"@),
        help: Some("Destination directory; each skill becomes `<DIR>/<name>/`"@),
        need: Need::Required,
        kind: Kind::Path,
        ..command::plain_arg("dir"@)
    }
}

/// `--skill NAME`.
pub open spec fn skill_option() -> ArgView {
    ArgView {
        long: Some("skill"@),
        value_name: Some("NAME"@),
        help: Some("Export only this skill instead of all of them"@),
        ..command::plain_arg("skill"@)
    }
}

/// A verb with its arguments.
pub open spec fn verb(name: Seq<char>, about: Seq<char>, args: Seq<ArgView>) -> CommandView {
    CommandView {
        name,
        about: Some(about),
        long_about: None,
        after_help: None,
        needs_subcommand: false,
        args,
        subcommands: Seq::empty(),
    }
}

/// The `skills` subcommand.
pub open spec fn skills_command() -> CommandView {
    CommandView {
        name: "skills"@,
        about: Some("Inspect and export the agent skills built into this binary"@),
        long_about: None,
        after_help: None,
        needs_subcommand: true,
        args: Seq::empty(),
        subcommands: seq![
            verb("list"@, "List the skills this binary carries"@, seq![json_switch()]),
            verb(
                "export"@,
                "Write the skills out, one directory per skill"@,
                seq![dir_option(), skill_option(), json_switch()],
            ),
        ],
    }
}

fn json_flag() -> (res: ArgSpec)
    ensures
        res@ == json_switch(),
{
    let mut arg = ArgSpec::new("json".to_owned());
    arg.long = Some("json".to_owned());
    arg.help = Some("Emit the machine-readable form on stdout".to_owned());
    arg.action = Action::Switch;
    arg
}

fn make_verb(name: &str, about: &str, args: Vec<ArgSpec>) -> (res: CommandSpec)
    ensures
        res.said() == verb(name@, about@, command::args_said(args@)),
{
    let res = CommandSpec {
        name: name.to_owned(),
        about: Some(about.to_owned()),
        long_about: None,
        after_help: None,
        needs_subcommand: false,
        args,
        subcommands: Vec::new(),
    };
    proof {
        res.subcommands_said();
        assert(res.said().subcommands =~= Seq::empty());
    }
    res
}

/// The `skills` subcommand.
pub fn command() -> (res: CommandSpec)
    ensures
        res.said() == skills_command(),
{
    let mut listed: Vec<ArgSpec> = Vec::new();
    listed.push(json_flag());
    assert(command::args_said(listed@) =~= seq![json_switch()]);

    let mut dir = ArgSpec::new("dir".to_owned());
    dir.long = Some("dir".to_owned());
    dir.value_name = Some("DIR".to_owned());
    dir.help = Some("Destination directory; each skill becomes `<DIR>/<name>/`".to_owned());
    dir.need = Need::Required;
    dir.kind = Kind::Path;
    let mut skill = ArgSpec::new("skill".to_owned());
    skill.long = Some("skill".to_owned());
    skill.value_name = Some("NAME".to_owned());
    skill.help = Some("Export only this skill instead of all of them".to_owned());
    let mut exported: Vec<ArgSpec> = Vec::new();
    exported.push(dir);
    exported.push(skill);
    exported.push(json_flag());
    assert(command::args_said(exported@) =~= seq![dir_option(), skill_option(), json_switch()]);

    let mut verbs: Vec<CommandSpec> = Vec::new();
    verbs.push(make_verb("list", "List the skills this binary carries", listed));
    verbs.push(make_verb("export", "Write the skills out, one directory per skill", exported));
    let res = CommandSpec {
        name: "skills".to_owned(),
        about: Some("Inspect and export the agent skills built into this binary".to_owned()),
        long_about: None,
        after_help: None,
        needs_subcommand: true,
        args: Vec::new(),
        subcommands: verbs,
    };
    proof {
        res.subcommands_said();
        assert(res.said().args =~= Seq::empty());
        assert(res.said().subcommands =~= skills_command().subcommands);
    }
    res
}

/// What some matches of `skills` ask for: nothing where no verb was given, or no
/// destination to an export.
pub open spec fn asked(matches: Matches) -> Option<SkillsAsk> {
    match matches.subcommand {
        None => None,
        Some(sub) => if sub.0@ == "list"@ {
            Some(SkillsAsk::List { json: sub.1.set("json"@) })
        } else if sub.0@ == "export"@ {
            match sub.1.placed("dir"@) {
                Some(dir) => Some(
                    SkillsAsk::Export {
                        dir,
                        skill: sub.1.first("skill"@),
                        json: sub.1.set("json"@),
                    },
                ),
                None => None,
            }
        } else {
            None
        },
    }
}

/// Reads [`SkillsArgs`] back out of the matches that [`command`] produced.
pub fn from_matches(matches: &Matches) -> (res: Option<SkillsArgs>)
    ensures
        match res {
            Some(args) => asked(*matches) == Some(args@),
            None => asked(*matches) is None,
        },
{
    match &matches.subcommand {
        None => None,
        Some(sub) => {
            let name = sub.0.as_str();
            let sub_matches = &sub.1;
            let json = sub_matches.flag("json");
            if same(name, "list") {
                return Some(SkillsArgs { command: SkillsCommand::List { json } });
            }
            if !same(name, "export") {
                return None;
            }
            match sub_matches.path("dir") {
                Some(dir) => {
                    let skill = match sub_matches.one("skill") {
                        Some(skill) => Some(skill.to_owned()),
                        None => None,
                    };
                    Some(
                        SkillsArgs {
                            command: SkillsCommand::Export {
                                dir: copy_bytes(dir.as_slice()),
                                skill,
                                json,
                            },
                        },
                    )
                },
                None => None,
            }
        },
    }
}

// ---------------------------------------------------------------------------
// What is printed
// ---------------------------------------------------------------------------

/// The two lines of a skill.
pub open spec fn skill_lines(skill: MetaView) -> Seq<Seq<char>> {
    seq![
        skill.name + "  "@ + text::decimal(skill.files as nat) + " files  "@ + size_text(
            skill.bytes as nat,
        ) + "  "@ + skill.fingerprint,
        "  "@ + skill.description,
    ]
}

/// The lines of some skills.
pub open spec fn list_lines(skills: Seq<MetaView>) -> Seq<Seq<char>>
    decreases skills.len(),
{
    if skills.len() == 0 {
        Seq::empty()
    } else {
        list_lines(skills.drop_last()) + skill_lines(skills.last())
    }
}

/// What `skills list` prints.
pub open spec fn list_output(
    skills: Seq<MetaView>,
    server: Seq<char>,
    version: Seq<char>,
    json: bool,
) -> Seq<Seq<char>> {
    if json {
        seq![listing::listing_text(ListingView { ok: true, server, version, skills })]
    } else if skills.len() == 0 {
        seq!["This build ships no skills."@]
    } else {
        list_lines(skills)
    }
}

/// What `skills list` prints.
pub fn list_skills(embedded: &Embedded, server: &str, version: &str, json: bool) -> (res: Vec<
    String,
>)
    ensures
        text::texts(res@) == list_output(embedded.listed(), server@, version@, json),
{
    let skills = embedded.all();
    let mut out: Vec<String> = Vec::new();
    if json {
        out.push(Listing::new(server, version, skills).to_text());
        assert(text::texts(out@) =~= list_output(embedded.listed(), server@, version@, json));
        return out;
    }
    let ghost all = skills::metas_said(skills@);
    if skills.len() == 0 {
        out.push("This build ships no skills.".to_owned());
        assert(text::texts(out@) =~= list_output(embedded.listed(), server@, version@, json));
        return out;
    }
    let mut i: usize = 0;
    assert(text::texts(out@) =~= list_lines(all.take(0)));
    while i < skills.len()
        invariant
            i <= skills@.len(),
            all == skills::metas_said(skills@),
            text::texts(out@) == list_lines(all.take(i as int)),
        decreases skills@.len() - i,
    {
        let ghost before = text::texts(out@);
        assert(all.take(i + 1).drop_last() =~= all.take(i as int));
        assert(all.take(i + 1).last() == skills@[i as int]@);
        let skill: SkillMeta = skills[i];
        let mut line = skill.name.to_owned();
        line.append("  ");
        line.append(decimal_of(skill.files as u64).as_str());
        line.append(" files  ");
        line.append(human_bytes(skill.bytes).as_str());
        line.append("  ");
        line.append(skill.fingerprint);
        let mut about = "  ".to_owned();
        about.append(skill.description);
        let ghost pair = seq![line@, about@];
        out.push(line);
        out.push(about);
        assert(text::texts(out@) =~= before + pair);
        assert(pair =~= skill_lines(skills@[i as int]@));
        i += 1;
    }
    assert(all.take(all.len() as int) =~= all);
    out
}

/// A skill that was exported, in the document.
pub open spec fn exported_fields(item: ExportedView) -> Seq<(Seq<char>, Json)> {
    let none = Seq::<(Seq<char>, Json)>::empty();
    let named = json::with_field(none, "name"@, Json::Text(item.skill.name));
    let rooted = json::with_field(named, "root"@, Json::Text(paths::lossy_text(item.root)));
    let counted = json::with_field(rooted, "files"@, Json::Integer(item.files.len() as int));
    let sized = json::with_field(counted, "bytes"@, Json::Integer(item.skill.bytes as int));
    json::with_field(sized, "fingerprint"@, Json::Text(item.skill.fingerprint))
}

/// The document an export prints.
pub open spec fn export_document(dir: Seq<u8>, exported: Seq<ExportedView>) -> Json {
    let none = Seq::<(Seq<char>, Json)>::empty();
    let ok = json::with_field(none, "ok"@, Json::Bool(true));
    let placed = json::with_field(ok, "dir"@, Json::Text(paths::lossy_text(dir)));
    Json::Object(
        json::with_field(
            placed,
            "skills"@,
            Json::List(
                exported.map_values(|item: ExportedView| Json::Object(exported_fields(item))),
            ),
        ),
    )
}

/// The line of a skill that was exported.
pub open spec fn exported_line(item: ExportedView) -> Seq<char> {
    item.skill.name + "  "@ + text::decimal(item.files.len()) + " files  "@ + size_text(
        item.skill.bytes as nat,
    ) + "  -> "@ + paths::lossy_text(item.root)
}

/// What `skills export` prints.
pub open spec fn export_output(
    dir: Seq<u8>,
    exported: Seq<ExportedView>,
    json: bool,
) -> Seq<Seq<char>> {
    if json {
        seq![json::compact_text(export_document(dir, exported))]
    } else {
        exported.map_values(|item: ExportedView| exported_line(item))
    }
}

fn exported_value(item: &Exported) -> (res: JsonValue)
    ensures
        res.json() == Json::Object(exported_fields(item@)),
{
    let mut map = Fields::new();
    map.insert("name".to_owned(), JsonValue::Text(item.skill.name.to_owned()));
    map.insert("root".to_owned(), JsonValue::Text(path_text(item.root.as_slice())));
    map.insert("files".to_owned(), number(item.files.len()));
    map.insert("bytes".to_owned(), number(item.skill.bytes));
    map.insert("fingerprint".to_owned(), JsonValue::Text(item.skill.fingerprint.to_owned()));
    JsonValue::Object(map)
}

/// What `skills export` prints once the files are written.
pub fn export_report(dir: &[u8], exported: &[Exported], json: bool) -> (res: Vec<String>)
    ensures
        text::texts(res@) == export_output(dir@, skills::exported_said(exported@), json),
{
    let ghost all = skills::exported_said(exported@);
    let mut out: Vec<String> = Vec::new();
    if json {
        let mut list: Vec<JsonValue> = Vec::new();
        let mut i: usize = 0;
        while i < exported.len()
            invariant
                i <= exported@.len(),
                list@.len() == i,
                forall|j: int|
                    0 <= j < i ==> (#[trigger] list@[j]).json() == Json::Object(
                        exported_fields(exported@[j]@),
                    ),
            decreases exported@.len() - i,
        {
            list.push(exported_value(&exported[i]));
            i += 1;
        }
        proof {
            JsonValue::list_json(list);
            assert(json::jsons(list@) =~= all.map_values(
                |item: ExportedView| Json::Object(exported_fields(item)),
            ));
        }
        let mut map = Fields::new();
        map.insert("ok".to_owned(), JsonValue::Bool(true));
        map.insert("dir".to_owned(), JsonValue::Text(path_text(dir)));
        map.insert("skills".to_owned(), JsonValue::List(list));
        out.push(to_compact(&JsonValue::Object(map)));
        assert(text::texts(out@) =~= export_output(dir@, all, json));
        return out;
    }
    let mut i: usize = 0;
    while i < exported.len()
        invariant
            i <= exported@.len(),
            out@.len() == i,
            forall|j: int|
                0 <= j < i ==> (#[trigger] out@[j])@ == exported_line(exported@[j]@),
        decreases exported@.len() - i,
    {
        let item = &exported[i];
        let mut line = item.skill.name.to_owned();
        line.append("  ");
        line.append(decimal_of(item.files.len() as u64).as_str());
        line.append(" files  ");
        line.append(human_bytes(item.skill.bytes).as_str());
        line.append("  -> ");
        line.append(path_text(item.root.as_slice()).as_str());
        out.push(line);
        i += 1;
    }
    assert(text::texts(out@) =~= export_output(dir@, all, json));
    out
}

/// What running `skills` takes.
#[derive(Debug)]
pub enum SkillsWork {
    /// These lines are printed.
    Say(Vec<String>),
    /// This plan is carried out, and its outcome reported.
    Write(ExportPlan),
}

impl SkillsArgs {
    /// What running the verb takes. `server` and `version` are the engine's own.
    pub fn run(&self, embedded: &Embedded, server: &str, version: &str) -> (res: SkillsWork)
        ensures
            match (self@, res) {
                (SkillsAsk::List { json }, SkillsWork::Say(lines)) => text::texts(lines@)
                    == list_output(embedded.listed(), server@, version@, json),
                (SkillsAsk::Export { dir, skill, json }, SkillsWork::Write(plan)) => plan@
                    == skills::export_plan(
                    embedded.listed(),
                    crate::archive::contents(embedded.packed()),
                    dir,
                    skill,
                ),
                _ => false,
            },
    {
        match &self.command {
            SkillsCommand::List { json } => SkillsWork::Say(
                list_skills(embedded, server, version, *json),
            ),
            SkillsCommand::Export { dir, skill, json: _ } => {
                let only = match skill {
                    Some(name) => Some(name.as_str()),
                    None => None,
                };
                SkillsWork::Write(embedded.export(dir.as_slice(), only))
            },
        }
    }
}

// ---------------------------------------------------------------------------
// Laws
// ---------------------------------------------------------------------------

/// An export without a destination is refused, and so is a verb that is not one.
pub proof fn export_needs_a_destination(matches: Matches)
    ensures
        matches.subcommand matches Some(sub) ==> sub.0@ == "export"@ ==> (asked(matches) is Some
            <==> sub.1.placed("dir"@) is Some),
        asked(matches) matches Some(SkillsAsk::Export { dir, .. }) ==> matches.subcommand matches Some(
            sub,
        ) && sub.1.placed("dir"@) == Some(dir),
{
    reveal_strlit("list");
    reveal_strlit("export");
    assert("list"@.len() != "export"@.len());
}

/// A size below a kilobyte is told exactly.
pub proof fn small_sizes_are_exact(bytes: nat)
    requires
        bytes < 0x400,
    ensures
        size_text(bytes) == text::decimal(bytes) + " B"@,
{
    assert(spacing(bytes) == 1);
    assert(bytes / 1 == bytes && bytes % 1 == 0);
    assert(rounded(bytes, 1) == bytes);
    assert(as_double(bytes) == bytes) by (nonlinear_arith)
        requires
            as_double(bytes) == bytes * 1,
    ;
}

} // verus!
