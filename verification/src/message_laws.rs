//! What every message says to the one who reads it: a refusal names what it refuses.

use vstd::prelude::*;

use crate::access;
use crate::access::{AllowView, BindView, HostView};
use crate::args;
use crate::args::WireUnsigned;
use crate::bearer::Fault;
use crate::cli;
use crate::contract;
use crate::contract::{Checked, FindingView, Rule, WalkView};
use crate::json;
use crate::json::Json;
use crate::listing;
use crate::listing::ListingView;
use crate::outcome;
use crate::outcome::{CallToolResponse, ErrorData, ToolOutcome};
use crate::output;
use crate::paths;
use crate::policy;
use crate::router;
use crate::router::{EntryTrouble, InputFault, ToolFault};
use crate::schema;
use crate::shape;
use crate::shape::ShapeView;
use crate::skills;
use crate::skills::{ExportTrouble, MetaView};
use crate::tasks;
use crate::tasks::EntryView;
use crate::text;
use crate::token;
use crate::token::Trouble;
use crate::tool;
use crate::tool::Advertised;

verus! {

/// A message says something at `at`.
pub open spec fn says_at(told: Seq<char>, part: Seq<char>, at: int) -> bool {
    0 <= at && at + part.len() <= told.len() && told.subrange(at, at + part.len()) == part
}

/// A message says something somewhere.
pub open spec fn says(told: Seq<char>, part: Seq<char>) -> bool {
    exists|at: int| #[trigger] says_at(told, part, at)
}

proof fn said_between(before: Seq<char>, part: Seq<char>, after: Seq<char>, told: Seq<char>)
    requires
        told =~= before + part + after,
    ensures
        says(told, part),
{
    let at = before.len() as int;
    assert(told.subrange(at, at + part.len()) =~= part);
    assert(says_at(told, part, at));
}

proof fn said_within(inner: Seq<char>, part: Seq<char>, told: Seq<char>)
    requires
        says(inner, part),
        says(told, inner),
    ensures
        says(told, part),
{
    let i = choose|at: int| #[trigger] says_at(inner, part, at);
    let j = choose|at: int| #[trigger] says_at(told, inner, at);
    assert(told.subrange(i + j, i + j + part.len()) =~= inner.subrange(i, i + part.len()));
    assert(says_at(told, part, i + j));
}

proof fn joined_says_each(parts: Seq<Seq<char>>, separator: Seq<char>, at: int)
    requires
        0 <= at < parts.len(),
    ensures
        says(text::joined(parts, separator), parts[at]),
    decreases parts.len(),
{
    let whole = text::joined(parts, separator);
    let less = parts.drop_last();
    if parts.len() == 1 {
        said_between(Seq::empty(), parts[0], Seq::empty(), whole);
    } else if at < less.len() {
        joined_says_each(less, separator, at);
        said_between(
            Seq::empty(),
            text::joined(less, separator),
            separator + parts.last(),
            whole,
        );
        said_within(text::joined(less, separator), parts[at], whole);
    } else {
        said_between(
            text::joined(less, separator) + separator,
            parts.last(),
            Seq::empty(),
            whole,
        );
    }
}

// ---------------------------------------------------------------------------
// Requests
// ---------------------------------------------------------------------------

/// A request without a host, or with one that is no authority, is a bad one; any other
/// host is taken with its port.
pub proof fn hosts_are_read_or_refused(
    entry: Option<Option<Seq<char>>>,
    parts: Option<(Seq<char>, Option<u16>)>,
)
    ensures
        access::requested(entry, parts) is Ok <==> entry is Some && entry->0 is Some
            && parts is Some,
        access::requested(entry, parts) matches Ok(host) ==> (parts matches Some(both)
            && host.host == access::plain_host(both.0) && host.port == both.1),
        access::requested(entry, parts) matches Err(refusal) ==> refusal.status == 400
            && refusal.challenge is None,
        entry is None ==> (access::requested(entry, parts) matches Err(refusal)
            && refusal.message == "Bad Request: missing Host header"@),
{
}

/// A fault in the credential is answered with the status that asks for one, and with a
/// challenge that tells a missing credential from one that was not accepted.
pub proof fn faults_are_challenged(fault: Fault)
    ensures
        access::bearer_refusal(fault).status == 401,
        access::bearer_refusal(fault).challenge is Some,
        fault is Missing ==> access::bearer_refusal(fault).challenge == Some("Bearer"@),
        fault is Malformed ==> says(
            access::bearer_refusal(fault).challenge->0,
            "invalid_request"@,
        ),
        fault is Invalid ==> says(access::bearer_refusal(fault).challenge->0, "invalid_token"@),
        says(access::bearer_refusal(fault).challenge->0, "Bearer"@),
        says(access::bearer_refusal(fault).message, "Unauthorized"@),
{
    reveal_strlit("Bearer");
    reveal_strlit("Bearer error=\"invalid_request\"");
    reveal_strlit("Bearer error=\"invalid_token\"");
    reveal_strlit("invalid_request");
    reveal_strlit("invalid_token");
    reveal_strlit("Unauthorized");
    reveal_strlit(
        "Unauthorized: this endpoint requires an Authorization: Bearer credential",
    );
    reveal_strlit(
        "Unauthorized: the Authorization header is not a well-formed Bearer credential",
    );
    reveal_strlit("Unauthorized: invalid bearer token");
    let challenge = access::bearer_refusal(fault).challenge->0;
    let message = access::bearer_refusal(fault).message;
    assert(challenge.subrange(0, 6) =~= "Bearer"@);
    assert(says_at(challenge, "Bearer"@, 0));
    assert(message.subrange(0, 12) =~= "Unauthorized"@);
    assert(says_at(message, "Unauthorized"@, 0));
    if fault is Malformed {
        assert(challenge.subrange(14, 29) =~= "invalid_request"@);
        assert(says_at(challenge, "invalid_request"@, 14));
    }
    if fault is Invalid {
        assert(challenge.subrange(14, 27) =~= "invalid_token"@);
        assert(says_at(challenge, "invalid_token"@, 14));
    }
}

/// An operator is told that every host is let in where it is, and otherwise the bind and
/// every host of the allowlist, with its port where it has one.
pub proof fn summaries_name_the_hosts(bind: BindView, hosts: Seq<HostView>, at: int)
    requires
        0 <= at < hosts.len(),
    ensures
        access::host_summary(bind, AllowView::Any) == "disabled; all Host values are allowed"@,
        says(access::host_summary(bind, AllowView::Restricted(hosts)), bind.shown),
        says(access::host_summary(bind, AllowView::Restricted(Seq::empty())), bind.shown),
        says(access::host_summary(bind, AllowView::Restricted(hosts)), hosts[at].host),
        hosts[at].port is Some ==> says(
            access::host_summary(bind, AllowView::Restricted(hosts)),
            hosts[at].host + ":"@ + text::decimal(hosts[at].port->0 as nat),
        ),
{
    let lead = "bind-derived IP hosts for "@;
    let shown = hosts.map_values(|host: HostView| access::shown_host(host));
    let list = access::hosts_text(hosts);
    let told = access::host_summary(bind, AllowView::Restricted(hosts));
    let bare = access::host_summary(bind, AllowView::Restricted(Seq::empty()));
    assert(told =~= lead + bind.shown + ("; extra allowlist: "@ + list));
    said_between(lead, bind.shown, "; extra allowlist: "@ + list, told);
    assert(bare =~= lead + bind.shown + Seq::empty());
    said_between(lead, bind.shown, Seq::empty(), bare);
    assert(told =~= lead + bind.shown + "; extra allowlist: "@ + list + Seq::empty());
    said_between(lead + bind.shown + "; extra allowlist: "@, list, Seq::empty(), told);
    joined_says_each(shown, ","@, at);
    assert(shown[at] == access::shown_host(hosts[at]));
    said_within(list, shown[at], told);
    if let Some(port) = hosts[at].port {
        said_between(
            Seq::empty(),
            hosts[at].host,
            ":"@ + text::decimal(port as nat),
            shown[at],
        );
        said_within(shown[at], hosts[at].host, told);
    }
}

// ---------------------------------------------------------------------------
// Numbers
// ---------------------------------------------------------------------------

/// A number that does not fit is told with its field, itself and the type it had to
/// fit; a text that is no integer is shown.
pub proof fn numbers_are_refused_by_name(field: Seq<char>, value: int, expected: Seq<char>)
    ensures
        says(args::out_of_range_text(field, value, expected), field),
        says(args::out_of_range_text(field, value, expected), text::signed_decimal(value)),
        says(args::out_of_range_text(field, value, expected), expected),
        says(args::not_an_integer(field), text::debug_text(field)),
        says(shape::int_refusal(field, expected), shape::kebab_case(field)),
        says(shape::int_refusal(field, expected), text::debug_text(expected)),
{
    let told = args::out_of_range_text(field, value, expected);
    let n = text::signed_decimal(value);
    assert(told =~= Seq::empty() + field + (" ("@ + n + ") is out of range for "@ + expected));
    said_between(Seq::empty(), field, " ("@ + n + ") is out of range for "@ + expected, told);
    assert(told =~= (field + " ("@) + n + (") is out of range for "@ + expected));
    said_between(field + " ("@, n, ") is out of range for "@ + expected, told);
    assert(told =~= (field + " ("@ + n + ") is out of range for "@) + expected + Seq::empty());
    said_between(
        field + " ("@ + n + ") is out of range for "@,
        expected,
        Seq::empty(),
        told,
    );
    let hint = " is not a valid integer (use 184 or 0xb8)"@;
    assert(args::not_an_integer(field) =~= Seq::empty() + text::debug_text(field) + hint);
    said_between(Seq::empty(), text::debug_text(field), hint, args::not_an_integer(field));
    let refusal = shape::int_refusal(field, expected);
    let flag = shape::kebab_case(field);
    assert(refusal =~= "--"@ + flag + (": "@ + args::not_an_integer(expected)));
    said_between("--"@, flag, ": "@ + args::not_an_integer(expected), refusal);
    assert(refusal =~= ("--"@ + flag + ": "@) + text::debug_text(expected) + hint);
    said_between("--"@ + flag + ": "@, text::debug_text(expected), hint, refusal);
}

/// A count fits its type exactly where it lies between zero and the greatest number
/// that the type has.
pub proof fn types_end_where_they_do()
    ensures
        <u8 as WireUnsigned>::greatest() == 255,
        <u16 as WireUnsigned>::greatest() == 65_535,
        <u32 as WireUnsigned>::greatest() == 4_294_967_295,
        <u64 as WireUnsigned>::greatest() == 18_446_744_073_709_551_615,
        <usize as WireUnsigned>::greatest() == usize::MAX,
{
}

/// A number is outside a range exactly where it is below the least or above the
/// greatest, and a range is told by the bounds that it has.
pub proof fn ranges_are_kept_and_told(n: int, min: Option<i64>, max: Option<i64>)
    ensures
        shape::out_of(n, min, max) <==> !((min is None || min->0 <= n) && (max is None || n
            <= max->0)),
        shape::range_words(min, max) is None <==> min is None && max is None,
        min is Some ==> says(shape::range_words(min, max)->0, text::signed_decimal(min->0 as int)),
        max is Some ==> says(shape::range_words(min, max)->0, text::signed_decimal(max->0 as int)),
{
    let told = shape::range_words(min, max)->0;
    if let Some(lo) = min {
        let low = text::signed_decimal(lo as int);
        if let Some(hi) = max {
            let high = text::signed_decimal(hi as int);
            assert(told =~= "[范围 "@ + low + ("..="@ + high + "]"@));
            said_between("[范围 "@, low, "..="@ + high + "]"@, told);
            assert(told =~= ("[范围 "@ + low + "..="@) + high + "]"@);
            said_between("[范围 "@ + low + "..="@, high, "]"@, told);
        } else {
            said_between("[最小 "@, low, "]"@, told);
        }
    } else if let Some(hi) = max {
        said_between("[最大 "@, text::signed_decimal(hi as int), "]"@, told);
    }
}

// ---------------------------------------------------------------------------
// Command lines
// ---------------------------------------------------------------------------

/// The help of a parameter says its description, and the range that an integer has to
/// be in.
pub proof fn help_says_what_is_known(
    root: Seq<(Seq<char>, Json)>,
    node: Json,
    kind: ShapeView,
)
    ensures
        node.get("description"@) matches Some(Json::Text(about)) ==> says(
            cli::help_line(root, node, kind),
            about,
        ),
        kind matches ShapeView::Integer { min, max } ==> (shape::range_words(min, max) matches Some(
            words,
        ) ==> says(cli::help_line(root, node, kind), words)),
        !(kind is Integer) && kind.degraded() ==> says(
            cli::help_line(root, node, kind),
            cli::DEGRADED_NOTE@,
        ),
        !(kind is Integer) && !kind.degraded() ==> cli::help_line(root, node, kind)
            == cli::described(node, schema::value_schema(root, node)),
{
    let told = cli::help_line(root, node, kind);
    let about = cli::described(node, schema::value_schema(root, node));
    let note = match kind {
        ShapeView::Integer { min, max } => match shape::range_words(min, max) {
            Some(words) => Some(words),
            None => None,
        },
        _ => if kind.degraded() {
            Some(cli::DEGRADED_NOTE@)
        } else {
            None
        },
    };
    if let Some(words) = note {
        if about.len() > 0 {
            assert(told =~= Seq::empty() + about + (seq![' '] + words));
            said_between(Seq::empty(), about, seq![' '] + words, told);
            assert(told =~= about.push(' ') + words + Seq::empty());
            said_between(about.push(' '), words, Seq::empty(), told);
        } else {
            assert(told =~= Seq::empty() + about + words);
            said_between(Seq::empty(), about, words, told);
            assert(told =~= about + words + Seq::empty());
            said_between(about, words, Seq::empty(), told);
        }
    } else {
        assert(told =~= Seq::empty() + about + Seq::empty());
        said_between(Seq::empty(), about, Seq::empty(), told);
    }
}

/// A tool whose command line falls short says so, naming every parameter that it cannot
/// carry or cannot judge; one that does not says nothing.
pub proof fn shortfalls_name_their_parameters(
    opaque: Seq<Seq<char>>,
    degraded: Seq<Seq<char>>,
    at: int,
)
    ensures
        cli::shortfall(opaque, degraded) is None <==> opaque.len() == 0 && degraded.len() == 0,
        0 <= at < opaque.len() ==> says(cli::shortfall(opaque, degraded)->0, opaque[at]),
        0 <= at < degraded.len() ==> says(cli::shortfall(opaque, degraded)->0, degraded[at]),
{
    let told = cli::shortfall(opaque, degraded)->0;
    let one = text::joined(opaque, ", "@);
    let two = text::joined(degraded, ", "@);
    let end = " 结构过于复杂，无法映射为命令行选项，请改用 --json-input"@;
    let last =
        " 的 schema 没有声明类型：命令行只能按单个字符串原样传递，不做任何校验；若该参数在 MCP 面接受数组，命令行给不了，请改用 --json-input"@;
    let first = "参数 "@ + one + end;
    let second = "参数 "@ + two + last;
    if 0 <= at < opaque.len() {
        joined_says_each(opaque, ", "@, at);
        said_between("参数 "@, one, end, first);
        if degraded.len() > 0 {
            assert(told =~= "注意："@ + first + ("\n      "@ + second));
            said_between("注意："@, first, "\n      "@ + second, told);
        } else {
            assert(told =~= "注意："@ + first + Seq::empty());
            said_between("注意："@, first, Seq::empty(), told);
        }
        said_within(one, opaque[at], first);
        said_within(first, opaque[at], told);
    }
    if 0 <= at < degraded.len() {
        joined_says_each(degraded, ", "@, at);
        said_between("参数 "@, two, last, second);
        if opaque.len() > 0 {
            assert(told =~= ("注意："@ + first + "\n      "@) + second + Seq::empty());
            said_between("注意："@ + first + "\n      "@, second, Seq::empty(), told);
        } else {
            assert(told =~= "注意："@ + second + Seq::empty());
            said_between("注意："@, second, Seq::empty(), told);
        }
        said_within(two, degraded[at], second);
        said_within(second, degraded[at], told);
    }
}

/// A hint that names no parameter is told the tool, the name and every parameter that
/// there is.
pub proof fn bad_hints_are_shown(
    name: Seq<char>,
    want: Seq<char>,
    properties: Seq<(Seq<char>, Json)>,
    at: int,
)
    ensures
        says(cli::bad_hint(name, want, properties), name),
        says(cli::bad_hint(name, want, properties), want),
        0 <= at < properties.len() ==> says(
            cli::bad_hint(name, want, properties),
            properties[at].0,
        ),
{
    let told = cli::bad_hint(name, want, properties);
    let a = "CLI 提示有误：工具 `"@;
    let b = "` 的 cli(positional) 里写了 `"@;
    let c = "`，但它的 inputSchema 没有这个参数；已有参数："@;
    let keys = cli::keys_of(properties);
    let list = text::joined(keys, ", "@);
    assert(told =~= a + name + (b + want + c + list));
    said_between(a, name, b + want + c + list, told);
    assert(told =~= (a + name + b) + want + (c + list));
    said_between(a + name + b, want, c + list, told);
    if 0 <= at < properties.len() {
        joined_says_each(keys, ", "@, at);
        assert(told =~= (a + name + b + want + c) + list + Seq::empty());
        said_between(a + name + b + want + c, list, Seq::empty(), told);
        assert(keys[at] == properties[at].0);
        said_within(list, keys[at], told);
    }
}

/// A name under the tool command is taken exactly where it is not `help`, no management
/// command and nobody else's; a refusal names the tool, and whoever has the name.
pub proof fn names_are_taken_once(
    claims: Seq<(Seq<char>, Seq<char>)>,
    head: Seq<char>,
    owner: Seq<char>,
    management: Seq<Seq<char>>,
    declared: bool,
)
    ensures
        cli::claim(claims, head, owner, management, declared) is Ok <==> head != "help"@
            && !management.contains(head) && (forall|i: int|
            0 <= i < claims.len() ==> (#[trigger] claims[i]).0 != head),
        cli::claim(claims, head, owner, management, declared) matches Ok(after) ==> after
            == claims.push((head, owner)),
        cli::claim(claims, head, owner, management, declared) matches Err(told) ==> says(
            told,
            owner,
        ),
{
    held_names_are_found(claims, head, 0);
    if let Err(told) = cli::claim(claims, head, owner, management, declared) {
        if head == "help"@ {
            said_between(
                "工具名冲突：`"@,
                owner,
                "` 会占用 clap 在 `tool` 下自动生成的 `help` 子命令"@,
                told,
            );
        } else if management.contains(head) {
            let rest = "` 会占用管理命令名 `"@ + head
                + "`，而该名字留给引擎的管理命令（<engine> "@ + head
                + "）。请改 group/verb，或给该工具标 cli(none)。"@ + cli::management_source(
                declared,
            ) + ": "@ + text::joined(management, " / "@);
            assert(told =~= "工具名冲突：工具 `"@ + owner + rest);
            said_between("工具名冲突：工具 `"@, owner, rest, told);
        } else {
            let former = cli::holder(claims, head, 0)->0;
            let lead = "工具名冲突：`"@ + former + "` 与 `"@;
            let rest = "` 都要占用 `tool "@ + head + "`；clap 会静默丢掉其中一个"@;
            assert(told =~= lead + owner + rest);
            said_between(lead, owner, rest, told);
        }
    }
}

proof fn held_names_are_found(claims: Seq<(Seq<char>, Seq<char>)>, head: Seq<char>, from: int)
    requires
        0 <= from,
    ensures
        cli::holder(claims, head, from) is None <==> (forall|i: int|
            from <= i < claims.len() ==> (#[trigger] claims[i]).0 != head),
    decreases claims.len() - from,
{
    if from < claims.len() {
        let seen = claims[from];
        held_names_are_found(claims, head, from + 1);
    }
}

/// A parameter whose flag the session has is told the flag, the tool and the parameter;
/// a tool that the policy refuses is named.
pub proof fn refused_flags_and_tools_are_named(
    flag: Seq<char>,
    name: Seq<char>,
    parameter: Seq<char>,
)
    ensures
        says(cli::flag_refusal(flag, name, parameter), flag),
        says(cli::flag_refusal(flag, name, parameter), name),
        says(cli::flag_refusal(flag, name, parameter), parameter),
        says(policy::refusal_text(name), name),
{
    let told = cli::flag_refusal(flag, name, parameter);
    let a = "会话标志冲突：`--"@;
    let b = "` 由 SessionSpec 声明，但工具 `"@;
    let c = "` 的参数 `"@;
    let d =
        "` 也会派生出这个长选项；clap 会静默丢掉其中一个。请改 SessionSpec 的 flag 名。"@;
    assert(told =~= a + flag + (b + name + c + parameter + d));
    said_between(a, flag, b + name + c + parameter + d, told);
    assert(told =~= (a + flag + b) + name + (c + parameter + d));
    said_between(a + flag + b, name, c + parameter + d, told);
    assert(told =~= (a + flag + b + name + c) + parameter + d);
    said_between(a + flag + b + name + c, parameter, d, told);
    said_between(
        "tool '"@,
        name,
        "' is not enabled on this server (--toolsets/--tools/--exclude-tools/--read-only)"@,
        policy::refusal_text(name),
    );
}

// ---------------------------------------------------------------------------
// Files and exports
// ---------------------------------------------------------------------------

/// What is wrong with a token file is told with its path, and with the reason where the
/// system gave one.
pub proof fn token_troubles_name_their_file(path: Seq<u8>, reason: Seq<char>)
    ensures
        says(token::trouble_text(Trouble::Empty { path }), paths::lossy_text(path)),
        says(token::trouble_text(Trouble::Read { path, reason }), paths::lossy_text(path)),
        says(token::trouble_text(Trouble::Read { path, reason }), reason),
        says(token::trouble_text(Trouble::Create { path, reason }), paths::lossy_text(path)),
        says(token::trouble_text(Trouble::Create { path, reason }), reason),
        says(token::trouble_text(Trouble::CreateDir { path, reason }), paths::lossy_text(path)),
        says(token::trouble_text(Trouble::CreateDir { path, reason }), reason),
        says(token::trouble_text(Trouble::Write { path, reason }), paths::lossy_text(path)),
        says(token::trouble_text(Trouble::Write { path, reason }), reason),
{
    let shown = paths::lossy_text(path);
    said_between(
        "token file "@,
        shown,
        " is empty; it must hold at least one token, one per line"@,
        token::trouble_text(Trouble::Empty { path }),
    );
    path_and_reason(
        "failed to read token file "@,
        shown,
        reason,
        token::trouble_text(Trouble::Read { path, reason }),
    );
    path_and_reason(
        "failed to create token file "@,
        shown,
        reason,
        token::trouble_text(Trouble::Create { path, reason }),
    );
    path_and_reason(
        "failed to create token directory "@,
        shown,
        reason,
        token::trouble_text(Trouble::CreateDir { path, reason }),
    );
    path_and_reason(
        "failed to write token file "@,
        shown,
        reason,
        token::trouble_text(Trouble::Write { path, reason }),
    );
}

proof fn path_and_reason(
    lead: Seq<char>,
    shown: Seq<char>,
    reason: Seq<char>,
    told: Seq<char>,
)
    requires
        told == lead + shown + ": "@ + reason,
    ensures
        says(told, shown),
        says(told, reason),
{
    assert(told =~= lead + shown + (": "@ + reason));
    said_between(lead, shown, ": "@ + reason, told);
    assert(told =~= (lead + shown + ": "@) + reason + Seq::empty());
    said_between(lead + shown + ": "@, reason, Seq::empty(), told);
}

/// An export that did not happen is told with the skill, the path or the counts that it
/// failed on.
pub proof fn export_troubles_say_on_what(
    asked: Seq<char>,
    available: Seq<char>,
    unpacked: nat,
    claimed: nat,
    path: Seq<u8>,
)
    ensures
        says(
            skills::export_trouble_text(ExportTrouble::UnknownSkill { asked, available }),
            asked,
        ),
        says(
            skills::export_trouble_text(ExportTrouble::UnknownSkill { asked, available }),
            available,
        ),
        says(skills::export_trouble_text(ExportTrouble::Traversal(asked)), asked),
        says(
            skills::export_trouble_text(
                ExportTrouble::CountMismatch {
                    skill: asked,
                    unpacked: unpacked as int,
                    claimed: claimed as int,
                },
            ),
            asked,
        ),
        says(
            skills::export_trouble_text(
                ExportTrouble::CountMismatch {
                    skill: asked,
                    unpacked: unpacked as int,
                    claimed: claimed as int,
                },
            ),
            "unpacked "@ + text::decimal(unpacked) + " files but its metadata claims "@
                + text::decimal(claimed),
        ),
        says(
            skills::export_trouble_text(ExportTrouble::Write { path, reason: asked }),
            paths::lossy_text(path),
        ),
        says(skills::export_trouble_text(ExportTrouble::Write { path, reason: asked }), asked),
{
    let unknown = skills::export_trouble_text(ExportTrouble::UnknownSkill { asked, available });
    let ships = "'; this binary ships "@;
    assert(unknown =~= "no skill named '"@ + asked + (ships + available));
    said_between("no skill named '"@, asked, ships + available, unknown);
    assert(unknown =~= ("no skill named '"@ + asked + ships) + available + Seq::empty());
    said_between("no skill named '"@ + asked + ships, available, Seq::empty(), unknown);
    said_between(
        "refusing to write skill path '"@,
        asked,
        "': it escapes the target directory"@,
        skills::export_trouble_text(ExportTrouble::Traversal(asked)),
    );
    let counts = skills::export_trouble_text(
        ExportTrouble::CountMismatch {
            skill: asked,
            unpacked: unpacked as int,
            claimed: claimed as int,
        },
    );
    let mid = text::decimal(unpacked) + " files but its metadata claims "@ + text::decimal(
        claimed,
    );
    reveal_strlit("' unpacked ");
    reveal_strlit("' ");
    reveal_strlit("unpacked ");
    assert("' unpacked "@ =~= "' "@ + "unpacked "@);
    assert(counts =~= "skill '"@ + asked + ("' unpacked "@ + mid));
    said_between("skill '"@, asked, "' unpacked "@ + mid, counts);
    let both = "unpacked "@ + text::decimal(unpacked) + " files but its metadata claims "@
        + text::decimal(claimed);
    assert(both =~= "unpacked "@ + mid);
    assert(counts =~= ("skill '"@ + asked + "' "@) + both + Seq::empty());
    said_between("skill '"@ + asked + "' "@, both, Seq::empty(), counts);
    path_and_reason(
        "failed to write "@,
        paths::lossy_text(path),
        asked,
        skills::export_trouble_text(ExportTrouble::Write { path, reason: asked }),
    );
}

/// The author of a tool is told its name, and the author of a group the key that stands
/// there twice.
pub proof fn authors_are_told_which(name: Seq<char>, path: Seq<char>, error: Seq<char>)
    ensures
        says(router::tool_fault_text(ToolFault::NoTitle, name, path)->0, name),
        says(router::tool_fault_text(ToolFault::NoAnnotations, name, path)->0, name),
        says(router::tool_fault_text(ToolFault::NoReadOnly, name, path)->0, name),
        says(router::input_fault_text(InputFault::Foreign, name), name),
        says(router::entry_trouble_text(EntryTrouble::Twice(name)), name),
        says(router::output_refusal(name, path, error), name),
        says(router::output_refusal(name, path, error), path),
        says(router::output_refusal(name, path, error), error),
{
    said_between(
        "tool `"@,
        name,
        "` is missing `title = \"...\"`"@,
        router::tool_fault_text(ToolFault::NoTitle, name, path)->0,
    );
    said_between(
        "tool `"@,
        name,
        "` is missing `annotations(read_only = ...)`"@,
        router::tool_fault_text(ToolFault::NoAnnotations, name, path)->0,
    );
    said_between(
        "tool `"@,
        name,
        "` must state `annotations(read_only = true|false)`"@,
        router::tool_fault_text(ToolFault::NoReadOnly, name, path)->0,
    );
    said_between(
        "`"@,
        name,
        "` takes an argument the CLI front end cannot supply — only `&self` and one `Parameters<T>` are dispatchable. Extractors such as `RequestContext`, `RequestState` or `InputResponses` exist on the MCP request and have no command-line equivalent; leave this tool on plain `#[rmcp::tool]` instead of `#[vibrev_tool]`."@,
        router::input_fault_text(InputFault::Foreign, name),
    );
    said_between(
        "group_about: `"@,
        name,
        "` specified twice"@,
        router::entry_trouble_text(EntryTrouble::Twice(name)),
    );
    let told = router::output_refusal(name, path, error);
    let b = "`: `output = \""@;
    let c = "\"` is not a type path: "@;
    assert(told =~= "tool `"@ + name + (b + path + c + error));
    said_between("tool `"@, name, b + path + c + error, told);
    assert(told =~= ("tool `"@ + name + b) + path + (c + error));
    said_between("tool `"@ + name + b, path, c + error, told);
    assert(told =~= ("tool `"@ + name + b + path + c) + error + Seq::empty());
    said_between("tool `"@ + name + b + path + c, error, Seq::empty(), told);
}

// ---------------------------------------------------------------------------
// Addresses and turns
// ---------------------------------------------------------------------------

/// What a digit of a percent escape counts.
pub open spec fn escape_digit(c: char) -> int {
    if '0' <= c <= '9' {
        c as u32 - '0' as u32
    } else {
        c as u32 - 'A' as u32 + 10
    }
}

/// A letter, a digit, a slash and `-`, `.`, `_`, `~` stand for themselves in a URL;
/// every other byte is a percent sign and the two capital digits that spell it.
pub proof fn bytes_are_escaped_by_value(b: u8)
    ensures
        ({
            let plain = 'A' as u32 <= b <= 'Z' as u32 || 'a' as u32 <= b <= 'z' as u32 || '0' as u32
                <= b <= '9' as u32 || b == '-' as u32 || b == '.' as u32 || b == '_' as u32 || b
                == '~' as u32 || b == '/' as u32;
            let told = output::escaped(b);
            &&& plain ==> told.len() == 1 && told[0] as u32 == b
            &&& !plain ==> told.len() == 3 && told[0] == '%' && b == 16 * escape_digit(told[1])
                + escape_digit(told[2])
            &&& !plain ==> forall|i: int|
                1 <= i < 3 ==> ('0' <= #[trigger] told[i] <= '9' || 'A' <= told[i] <= 'F')
        }),
{
}

/// Of two tasks the one that changed longer ago gives way, and of two that changed at
/// the same moment the one of the lesser id; never both.
pub proof fn the_older_task_gives_way(a: EntryView, b: EntryView)
    ensures
        a.state.updated_at < b.state.updated_at ==> tasks::gives_way(a, b) && !tasks::gives_way(
            b,
            a,
        ),
        a.state.updated_at == b.state.updated_at && a.state.id != b.state.id ==> (tasks::gives_way(
            a,
            b,
        ) <==> !tasks::gives_way(b, a)),
        a.state.updated_at == b.state.updated_at && text::text_before(a.state.id, b.state.id)
            ==> tasks::gives_way(a, b),
        !tasks::gives_way(a, a),
{
    text::text_order(a.state.id, b.state.id, a.state.id);
    text::text_order(b.state.id, a.state.id, b.state.id);
    text::text_order(a.state.id, a.state.id, a.state.id);
}

// ---------------------------------------------------------------------------
// Rules, lists and documents
// ---------------------------------------------------------------------------

/// No two rules go by the same slug.
pub proof fn rules_are_told_apart(a: Rule, b: Rule)
    ensures
        a.slug_text() == b.slug_text() <==> a == b,
{
    reveal_strlit("empty-surface");
    reveal_strlit("duplicate-name");
    reveal_strlit("unstable-order");
    reveal_strlit("missing-title");
    reveal_strlit("blank-title");
    reveal_strlit("title-restates-name");
    reveal_strlit("title-restates-description");
    reveal_strlit("duplicate-title");
    reveal_strlit("missing-annotations");
    reveal_strlit("missing-read-only-hint");
    reveal_strlit("missing-output-schema");
    reveal_strlit("empty-output-schema");
    reveal_strlit("schema-dialect-leak");
    reveal_strlit("dangling-ref");
    reveal_strlit("non-local-ref");
    reveal_strlit("nullable-input-branch");
    reveal_strlit("unportable-format");
    reveal_strlit("silent-truncation");
    reveal_strlit("missing-required-property");
    reveal_strlit("property-not-required");
    reveal_strlit("stale-ratchet-entry");
    reveal_strlit("unsorted-ratchet");
    assert("empty-surface"@.len() == 13);
    assert("duplicate-name"@.len() == 14);
    assert("unstable-order"@.len() == 14);
    assert("missing-title"@.len() == 13);
    assert("blank-title"@.len() == 11);
    assert("title-restates-name"@.len() == 19);
    assert("title-restates-description"@.len() == 26);
    assert("duplicate-title"@.len() == 15);
    assert("missing-annotations"@.len() == 19);
    assert("missing-read-only-hint"@.len() == 22);
    assert("missing-output-schema"@.len() == 21);
    assert("empty-output-schema"@.len() == 19);
    assert("schema-dialect-leak"@.len() == 19);
    assert("dangling-ref"@.len() == 12);
    assert("non-local-ref"@.len() == 13);
    assert("nullable-input-branch"@.len() == 21);
    assert("unportable-format"@.len() == 17);
    assert("silent-truncation"@.len() == 17);
    assert("missing-required-property"@.len() == 25);
    assert("property-not-required"@.len() == 21);
    assert("stale-ratchet-entry"@.len() == 19);
    assert("unsorted-ratchet"@.len() == 16);
    assert("empty-surface"@[0] == 'e');
    assert("missing-title"@[0] == 'm');
    assert("non-local-ref"@[0] == 'n');
    assert("duplicate-name"@[0] == 'd');
    assert("unstable-order"@[0] == 'u');
    assert("title-restates-name"@[0] == 't');
    assert("missing-annotations"@[0] == 'm');
    assert("empty-output-schema"@[0] == 'e');
    assert("schema-dialect-leak"@[0] == 's');
    assert("stale-ratchet-entry"@[0] == 's');
    assert("missing-output-schema"@[0] == 'm');
    assert("nullable-input-branch"@[0] == 'n');
    assert("property-not-required"@[0] == 'p');
    assert("schema-dialect-leak"@[1] == 'c');
    assert("stale-ratchet-entry"@[1] == 't');
    assert("unportable-format"@[0] == 'u');
    assert("silent-truncation"@[0] == 's');
}

/// A quoted list is in brackets and shows every text of it.
pub proof fn quoted_lists_show_each(list: Seq<Seq<char>>, at: int)
    requires
        0 <= at < list.len(),
    ensures
        says(text::quoted_list(list), text::debug_text(list[at])),
        text::quoted_list(list)[0] == '[',
        text::quoted_list(list).last() == ']',
{
    reveal_strlit("[");
    reveal_strlit("]");
    let quotes = text::quotes(list);
    joined_says_each(quotes, ", "@, at);
    let inner = text::joined(quotes, ", "@);
    said_between("["@, inner, "]"@, text::quoted_list(list));
    assert(quotes[at] == text::debug_text(list[at]));
    said_within(inner, quotes[at], text::quoted_list(list));
}

/// A type is a list with null exactly where its list has two names or more, one of them
/// `null`.
pub proof fn nullable_lists_hold_null(schema: Json)
    ensures
        schema::nullable_type_list(schema) <==> (schema.get("type"@) matches Some(Json::List(items))
            && items.len() >= 2 && exists|i: int|
            0 <= i < items.len() && #[trigger] items[i] == Json::Text("null"@)),
{
}

/// The task that a document tells of is the text under `task_id`; any other document
/// tells of none.
pub proof fn documents_carry_their_task(doc: Json)
    ensures
        doc.get("task_id"@) matches Some(Json::Text(id)) ==> tasks::carried_id(Some(doc)) == Some(id),
        !(doc.get("task_id"@) matches Some(Json::Text(_))) ==> tasks::carried_id(Some(doc)) is None,
        tasks::carried_id(None) is None,
{
}

// ---------------------------------------------------------------------------
// Findings
// ---------------------------------------------------------------------------

/// A finding is told by its rule, its face, its tool and its detail, in this order; one
/// about no tool is about the surface.
pub proof fn findings_are_told_whole(finding: FindingView)
    ensures
        finding.tool matches Some(name) ==> finding.line() == "["@ + finding.rule.slug_text()
            + "] "@ + finding.face + "/"@ + name + ": "@ + finding.detail,
        finding.tool is None ==> finding.line() == "["@ + finding.rule.slug_text() + "] "@
            + finding.face + "/"@ + "<surface>"@ + ": "@ + finding.detail,
{
}

/// What was looked at adds up count by count, and every count is told.
pub proof fn counts_add_up(one: Checked, other: Checked)
    requires
        one.addable(other),
    ensures
        one.plus(other).tools == one.tools + other.tools,
        one.plus(other).input_schemas == one.input_schemas + other.input_schemas,
        one.plus(other).output_schemas == one.output_schemas + other.output_schemas,
        one.plus(other).refs == one.refs + other.refs,
        one.words() == text::decimal(one.tools as nat) + " tools, "@ + text::decimal(
            one.input_schemas as nat,
        ) + " input schemas, "@ + text::decimal(one.output_schemas as nat)
            + " output schemas, "@ + text::decimal(one.refs as nat) + " $refs"@,
{
}

/// A key is a step of a path with its tildes and slashes escaped: the step has no slash,
/// and every character stands for itself or for its escape.
pub proof fn steps_escape_what_they_must(key: Seq<char>, c: char)
    ensures
        !contract::pointer_step(key).contains('/'),
        c == '~' ==> contract::pointer_step(key.push(c)) == contract::pointer_step(key) + seq!['~', '0'],
        c == '/' ==> contract::pointer_step(key.push(c)) == contract::pointer_step(key) + seq!['~', '1'],
        c != '~' && c != '/' ==> contract::pointer_step(key.push(c)) == contract::pointer_step(
            key,
        ).push(c),
        contract::pointer_step(Seq::empty()).len() == 0,
    decreases key.len(),
{
    reveal_strlit("~0");
    reveal_strlit("~1");
    assert("~0"@ =~= seq!['~', '0']);
    assert("~1"@ =~= seq!['~', '1']);
    assert(key.push(c).drop_last() =~= key);
    if key.len() > 0 {
        steps_escape_what_they_must(key.drop_last(), c);
        let before = contract::pointer_step(key.drop_last());
        let all = contract::pointer_step(key);
        if all.contains('/') {
            let i = choose|i: int| 0 <= i < all.len() && all[i] == '/';
            if i < before.len() {
                assert(before[i] == '/');
                assert(before.contains('/'));
            }
            assert(false);
        }
    }
    if c != '~' && c != '/' {
        assert(contract::pointer_step(key.push(c)) =~= contract::pointer_step(key).push(c));
    }
}

/// The place of a finding is its path, and the root has a name of its own.
pub proof fn places_are_paths(path: Seq<char>)
    ensures
        path.len() > 0 ==> contract::place(path) == path,
        path.len() == 0 ==> contract::place(path) == "the root"@,
{
}

/// What is found at a node is told with the face and the place; a reference with its
/// target, a format with its name, and a null branch with its number.
pub proof fn findings_name_their_place(
    w: WalkView,
    fields: Seq<(Seq<char>, Json)>,
    path: Seq<char>,
    i: int,
)
    requires
        0 <= i < contract::node_findings(w, fields, path).len(),
    ensures
        ({
            let (rule, detail) = contract::node_findings(w, fields, path)[i];
            &&& text::begins(detail, w.label)
            &&& says(detail, contract::place(path))
            &&& rule is DanglingRef || rule is NonLocalRef ==> (json::field(fields, "$ref"@) matches Some(
                Json::Text(target),
            ) && says(detail, text::debug_text(target)))
            &&& rule is UnportableFormat ==> (json::field(fields, "format"@) matches Some(
                Json::Text(format),
            ) && says(detail, text::debug_text(format)))
        }),
{
    let spot = contract::place(path);
    let one = contract::dialect_leak(w, fields, path);
    let two = contract::broken_ref(w, fields, path);
    let three = contract::strange_format(w, fields, path);
    let four = contract::null_in_type(w, fields, path);
    let five = contract::null_in_branches(w, fields, path);
    let (rule, detail) = contract::node_findings(w, fields, path)[i];
    if i < one.len() {
        let lead = w.label + " schema leaks $schema at "@;
        assert(detail =~= lead + spot + Seq::empty());
        said_between(lead, spot, Seq::empty(), detail);
        assert(detail.take(w.label.len() as int) =~= w.label);
    } else if i < one.len() + two.len() {
        let target = json::field(fields, "$ref"@)->0->Text_0;
        let shown = text::debug_text(target);
        if rule is NonLocalRef {
            let lead = w.label + " schema has a non-local $ref "@;
            assert(detail =~= lead + shown + (" at "@ + spot));
            said_between(lead, shown, " at "@ + spot, detail);
            assert(detail =~= (lead + shown + " at "@) + spot + Seq::empty());
            said_between(lead + shown + " at "@, spot, Seq::empty(), detail);
        } else {
            let lead = w.label + " schema $ref "@;
            let end =
                " does not resolve; a wrapper probably swallowed the $defs it points at"@;
            assert(detail =~= lead + shown + (" at "@ + spot + end));
            said_between(lead, shown, " at "@ + spot + end, detail);
            assert(detail =~= (lead + shown + " at "@) + spot + end);
            said_between(lead + shown + " at "@, spot, end, detail);
        }
        assert(detail.take(w.label.len() as int) =~= w.label);
    } else if i < one.len() + two.len() + three.len() {
        let format = json::field(fields, "format"@)->0->Text_0;
        let shown = text::debug_text(format);
        let lead = w.label + " schema publishes format "@;
        let end = detail.skip((lead.len() + shown.len() + " at "@.len() + spot.len()) as int);
        assert(detail =~= lead + shown + (" at "@ + spot + end));
        said_between(lead, shown, " at "@ + spot + end, detail);
        assert(detail =~= (lead + shown + " at "@) + spot + end);
        said_between(lead + shown + " at "@, spot, end, detail);
        assert(detail.take(w.label.len() as int) =~= w.label);
    } else if i < one.len() + two.len() + three.len() + four.len() {
        let lead = w.label + " schema spells optionality as type: "@ + json::compact_text(
            json::field(fields, "type"@)->0,
        ) + " at "@;
        let end =
            "; an absent argument belongs out of `required`, not in a null branch"@;
        assert(detail =~= lead + spot + end);
        said_between(lead, spot, end, detail);
        assert(detail.take(w.label.len() as int) =~= w.label);
    } else {
        let arm = schema::null_position(w.root, Json::Object(fields))->0;
        let lead = w.label + " schema carries a null branch at "@;
        let end = ", arm "@ + text::decimal(arm as nat)
            + "; an absent argument belongs out of `required`"@;
        assert(detail =~= lead + spot + end);
        said_between(lead, spot, end, detail);
        assert(detail.take(w.label.len() as int) =~= w.label);
    }
}

/// A null branch is told with the number that it has among the branches.
pub proof fn null_branches_are_numbered(
    w: WalkView,
    fields: Seq<(Seq<char>, Json)>,
    path: Seq<char>,
    arm: int,
)
    requires
        w.flags_null,
        schema::null_position(w.root, Json::Object(fields)) == Some(arm),
    ensures
        contract::null_in_branches(w, fields, path).len() == 1,
        says(
            contract::null_in_branches(w, fields, path)[0].1,
            ", arm "@ + text::decimal(arm as nat),
        ),
{
    let detail = contract::null_in_branches(w, fields, path)[0].1;
    let lead = w.label + " schema carries a null branch at "@ + contract::place(path);
    let part = ", arm "@ + text::decimal(arm as nat);
    let end = "; an absent argument belongs out of `required`"@;
    assert(detail =~= lead + part + end);
    said_between(lead, part, end, detail);
}

/// As many builds are compared as were asked for, or as there are, each by the names of
/// its tools in order.
pub proof fn builds_are_compared_by_name<T: Advertised>(
    builds: Seq<Vec<T>>,
    repeats: nat,
    at: int,
)
    ensures
        repeats <= builds.len() ==> contract::build_names(builds, repeats).len() == repeats,
        repeats > builds.len() ==> contract::build_names(builds, repeats).len() == builds.len(),
        0 <= at < contract::build_names(builds, repeats).len() ==> contract::build_names(
            builds,
            repeats,
        )[at] == tool::names(tool::catalog(builds[at]@)),
{
}

/// Only an answer that is complete can be shown; any other is refused with a reason, and
/// one that is not known is shown in it.
pub proof fn only_complete_answers_are_shown(
    response: CallToolResponse,
    read: Result<ToolOutcome, ErrorData>,
)
    requires
        call_ensures(ToolOutcome::from_response, (response,), read),
    ensures
        read is Ok <==> response is Complete,
        read matches Ok(shown) ==> (response matches CallToolResponse::Complete(result)
            && shown.is_error == (result@.is_error == Some(true)) && shown.text@ == text::joined(
            outcome::block_texts(result@.content),
            "\n"@,
        ) && outcome::opt_json(shown.structured) == result@.structured_content),
        read matches Err(error) ==> error@.code == -32603 && error@.data is None
            && error@.message.len() > 0,
        response matches CallToolResponse::Unknown(shown) ==> (read matches Err(error) && says(
            error@.message,
            shown@,
        )),
{
    reveal_strlit(
        "this tool requires interactive input (elicitation), which the CLI cannot answer; call it from an MCP client",
    );
    reveal_strlit(
        "this tool returned a background task handle, which the CLI cannot poll; call it from an MCP client",
    );
    reveal_strlit("the CLI cannot render this tool response: ");
    if let CallToolResponse::Unknown(shown) = response {
        if let Err(error) = read {
            assert(error@.message =~= "the CLI cannot render this tool response: "@ + shown@
                + Seq::empty());
            said_between(
                "the CLI cannot render this tool response: "@,
                shown@,
                Seq::empty(),
                error@.message,
            );
        }
    }
}

// ---------------------------------------------------------------------------
// Listings
// ---------------------------------------------------------------------------

/// The text of a listing says whether all went well, the server and the version where
/// they are known, and every skill with all its fields.
pub proof fn listings_spell_every_field(all: ListingView, at: int)
    requires
        0 <= at < all.skills.len(),
    ensures
        ({
            let told = listing::listing_text(all);
            let skill = all.skills[at];
            &&& all.ok ==> text::begins(told, "{\"ok\":true"@)
            &&& !all.ok ==> text::begins(told, "{\"ok\":false"@)
            &&& all.server.len() > 0 ==> says(
                told,
                ",\"server\":"@ + json::compact_text(Json::Text(all.server)),
            )
            &&& all.version.len() > 0 ==> says(
                told,
                ",\"version\":"@ + json::compact_text(Json::Text(all.version)),
            )
            &&& says(
                told,
                "{\"name\":"@ + json::compact_text(Json::Text(skill.name)) + ",\"description\":"@
                    + json::compact_text(Json::Text(skill.description)) + ",\"files\":"@
                    + text::decimal(skill.files as nat) + ",\"bytes\":"@ + text::decimal(
                    skill.bytes as nat,
                ) + ",\"fingerprint\":"@ + json::compact_text(Json::Text(skill.fingerprint))
                    + "}"@,
            )
            &&& text::ends(told, "]}"@)
        }),
{
    let told = listing::listing_text(all);
    let start = if all.ok {
        "{\"ok\":true"@
    } else {
        "{\"ok\":false"@
    };
    let server = listing::text_field(",\"server\":"@, all.server);
    let version = listing::text_field(",\"version\":"@, all.version);
    let lead = ",\"skills\":["@;
    let each = all.skills.map_values(|skill: MetaView| listing::skill_text(skill));
    let list = text::joined(each, ","@);
    assert(told =~= start + server + (version + lead + list + "]}"@));
    assert(told.take(start.len() as int) =~= start);
    said_between(start, server, version + lead + list + "]}"@, told);
    assert(told =~= (start + server) + version + (lead + list + "]}"@));
    said_between(start + server, version, lead + list + "]}"@, told);
    assert(told =~= (start + server + version + lead) + list + "]}"@);
    said_between(start + server + version + lead, list, "]}"@, told);
    joined_says_each(each, ","@, at);
    said_within(list, each[at], told);
    assert(each[at] == listing::skill_text(all.skills[at]));
    assert(told.skip(told.len() - "]}"@.len()) =~= "]}"@);
}

} // verus!
