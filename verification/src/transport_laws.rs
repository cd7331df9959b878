//! What holds of every choice of a listener's flags, and of what a listener says
//! when it starts.

use vstd::prelude::*;

use crate::access;
use crate::access_laws;
use crate::args;
use crate::command;
use crate::command::{Kind, Matches};
use crate::paths;
use crate::text;
use crate::token;
use crate::token::{Loaded, Warning};
use crate::transport;
use crate::transport::{BannerView, HttpOptions, SessionSettings, StreamableSettings};

verus! {

/// The values under an id first stand at `at`.
pub open spec fn first_valued(m: Matches, id: Seq<char>, at: int) -> bool {
    &&& 0 <= at < m.values@.len()
    &&& m.values@[at].0@ == id
    &&& forall|j: int| 0 <= j < at ==> (#[trigger] m.values@[j]).0@ != id
}

/// No values stand under an id.
pub open spec fn never_valued(m: Matches, id: Seq<char>) -> bool {
    forall|j: int| 0 <= j < m.values@.len() ==> (#[trigger] m.values@[j]).0@ != id
}

/// The path under an id first stands at `at`.
pub open spec fn first_placed(m: Matches, id: Seq<char>, at: int) -> bool {
    &&& 0 <= at < m.paths@.len()
    &&& m.paths@[at].0@ == id
    &&& forall|j: int| 0 <= j < at ==> (#[trigger] m.paths@[j]).0@ != id
}

/// No path stands under an id.
pub open spec fn never_placed(m: Matches, id: Seq<char>) -> bool {
    forall|j: int| 0 <= j < m.paths@.len() ==> (#[trigger] m.paths@[j]).0@ != id
}

/// What was given for an argument is what stands first under its id, whole; where
/// nothing stands there, nothing was given.
pub proof fn what_was_given_is_found(m: Matches, id: Seq<char>, at: int)
    ensures
        first_valued(m, id, at) ==> m.given(id) == Some(text::texts(m.values@[at].1@)),
        first_valued(m, id, at) && m.values@[at].1@.len() > 0 ==> m.first(id) == Some(
            m.values@[at].1@[0]@,
        ),
        never_valued(m, id) ==> m.given(id) is None && m.first(id) is None,
        first_placed(m, id, at) ==> m.placed(id) == Some(m.paths@[at].1@),
        never_placed(m, id) ==> m.placed(id) is None,
        m.set(id) <==> exists|i: int| 0 <= i < m.flags@.len() && (#[trigger] m.flags@[i])@ == id,
{
    values_are_found(m, id, 0, at);
    paths_are_found(m, id, 0, at);
    let flags = text::texts(m.flags@);
    if m.set(id) {
        let i = choose|i: int| 0 <= i < flags.len() && flags[i] == id;
        assert(m.flags@[i]@ == id);
    }
    if exists|i: int| 0 <= i < m.flags@.len() && (#[trigger] m.flags@[i])@ == id {
        let i = choose|i: int| 0 <= i < m.flags@.len() && (#[trigger] m.flags@[i])@ == id;
        assert(flags[i] == id);
    }
}

proof fn values_are_found(m: Matches, id: Seq<char>, from: int, at: int)
    requires
        0 <= from,
    ensures
        first_valued(m, id, at) && from <= at ==> command::values_from(m.values@, id, from)
            == Some(text::texts(m.values@[at].1@)),
        never_valued(m, id) ==> command::values_from(m.values@, id, from) is None,
    decreases m.values@.len() - from,
{
    if from < m.values@.len() {
        let seen = m.values@[from];
        values_are_found(m, id, from + 1, at);
    }
}

proof fn paths_are_found(m: Matches, id: Seq<char>, from: int, at: int)
    requires
        0 <= from,
    ensures
        first_placed(m, id, at) && from <= at ==> command::path_from(m.paths@, id, from)
            == Some(m.paths@[at].1@),
        never_placed(m, id) ==> command::path_from(m.paths@, id, from) is None,
    decreases m.paths@.len() - from,
{
    if from < m.paths@.len() {
        let seen = m.paths@[from];
        paths_are_found(m, id, from + 1, at);
    }
}

/// The value given for a flag, or else what holds without it.
pub open spec fn said_or(m: Matches, id: Seq<char>, otherwise: Seq<char>) -> Seq<char> {
    if m.first(id) is Some {
        m.first(id)->0
    } else {
        otherwise
    }
}

/// Each choice is what was given under the flag of its name; one that was not given
/// is the default that the flag shows.
pub proof fn flags_choose_what_they_name(m: Matches)
    ensures
        ({
            let flags = transport::http_flags();
            let chosen = transport::chosen(m);
            &&& flags.len() == 9
            &&& flags[0].long == Some("bind"@)
            &&& flags[0].default == Some("127.0.0.1:8765"@)
            &&& chosen.bind == said_or(m, flags[0].id, "127.0.0.1:8765"@)
            &&& flags[1].long == Some("token-file"@)
            &&& flags[1].default is None
            &&& chosen.token_file == m.placed(flags[1].id)
            &&& flags[2].long == Some("allow-origin"@)
            &&& m.given(flags[2].id) is Some ==> chosen.allow_origin == m.given(flags[2].id)->0
            &&& m.given(flags[2].id) is None ==> chosen.allow_origin == text::pieces(
                flags[2].default->0,
                ',',
            )
            &&& flags[3].long == Some("allow-host"@)
            &&& flags[3].default is None
            &&& chosen.allow_host == m.given(flags[3].id)
            &&& flags[4].long == Some("sse-keep-alive-secs"@)
            &&& flags[4].default == Some(text::decimal(15))
            &&& m.first(flags[4].id) is Some && args::unsigned_value(m.first(flags[4].id)->0) is Some
                ==> Some(chosen.sse_keep_alive_secs) == args::unsigned_value(
                m.first(flags[4].id)->0,
            )
            &&& m.first(flags[4].id) is None ==> chosen.sse_keep_alive_secs == 15
            &&& flags[5].long == Some("session-keep-alive-secs"@)
            &&& flags[5].default == Some(text::decimal(1800))
            &&& m.first(flags[5].id) is Some && args::unsigned_value(m.first(flags[5].id)->0) is Some
                ==> Some(chosen.session_keep_alive_secs) == args::unsigned_value(
                m.first(flags[5].id)->0,
            )
            &&& m.first(flags[5].id) is None ==> chosen.session_keep_alive_secs == 1800
            &&& flags[6].long == Some("stateless"@)
            &&& chosen.stateless == m.set(flags[6].id)
            &&& flags[7].long == Some("json-response"@)
            &&& chosen.json_response == m.set(flags[7].id)
            &&& flags[8].long == Some("max-request-body-mib"@)
            &&& flags[8].default == Some(text::decimal(16))
            &&& flags[8].kind == (Kind::UnsignedIn { low: 1, high: 1024 })
            &&& m.first(flags[8].id) is Some && args::unsigned_value(m.first(flags[8].id)->0) is Some
                && args::unsigned_value(m.first(flags[8].id)->0)->0 <= 1024 ==> Some(
                chosen.max_request_body_mib as u64,
            ) == args::unsigned_value(m.first(flags[8].id)->0)
            &&& m.first(flags[8].id) is None ==> chosen.max_request_body_mib == 16
        }),
{
}

/// The flags are told apart by their names and by their ids, and switches take no
/// value where the others do.
pub proof fn flags_are_told_apart()
    ensures
        forall|i: int, j: int|
            0 <= i < j < 9 ==> (#[trigger] transport::http_flags()[i]).id != (
            #[trigger] transport::http_flags()[j]).id,
        forall|i: int|
            0 <= i < 9 ==> ((#[trigger] transport::http_flags()[i]).action is Switch <==> i == 6
                || i == 7),
        forall|i: int|
            0 <= i < 9 ==> ((#[trigger] transport::http_flags()[i]).delimiter == Some(',') <==> i
                == 2 || i == 3),
{
    reveal_strlit("__vibrev_bind");
    reveal_strlit("__vibrev_token_file");
    reveal_strlit("__vibrev_allow_origin");
    reveal_strlit("__vibrev_allow_host");
    reveal_strlit("__vibrev_sse_keep_alive_secs");
    reveal_strlit("__vibrev_session_keep_alive_secs");
    reveal_strlit("__vibrev_stateless");
    reveal_strlit("__vibrev_json_response");
    reveal_strlit("__vibrev_max_request_body_mib");
    assert("__vibrev_token_file"@.len() == 19);
    assert("__vibrev_allow_host"@.len() == 19);
    assert("__vibrev_token_file"@[9] == 't');
    assert("__vibrev_allow_host"@[9] == 'a');
    assert("__vibrev_allow_origin"@.len() == 21);
    assert("__vibrev_json_response"@.len() == 22);
    assert("__vibrev_stateless"@.len() == 18);
    assert("__vibrev_bind"@.len() == 13);
    assert("__vibrev_sse_keep_alive_secs"@.len() == 28);
    assert("__vibrev_session_keep_alive_secs"@.len() == 32);
    assert("__vibrev_max_request_body_mib"@.len() == 29);
}

/// A time of zero switches a keep-alive off, and any other is kept as it is; sessions
/// are kept unless none were asked for, and the body cap is so many times two to the
/// twentieth bytes.
pub proof fn zero_switches_off(
    opts: &HttpOptions,
    served: StreamableSettings,
    kept: SessionSettings,
)
    requires
        call_ensures(transport::streamable_config, (opts,), served),
        call_ensures(
            transport::local_session_manager,
            (opts.session_keep_alive_secs,),
            kept,
        ),
    ensures
        opts.sse_keep_alive_secs == 0 <==> served.sse_keep_alive_secs is None,
        opts.sse_keep_alive_secs > 0 ==> served.sse_keep_alive_secs == Some(
            opts.sse_keep_alive_secs,
        ),
        opts.session_keep_alive_secs == 0 <==> kept.keep_alive_secs is None,
        opts.session_keep_alive_secs > 0 ==> kept.keep_alive_secs == Some(
            opts.session_keep_alive_secs,
        ),
        served.legacy_session_mode != opts.stateless,
        served.json_response == opts.json_response,
        opts.max_request_body_mib <= 1024 ==> served.max_request_body_bytes
            == opts.max_request_body_mib * 1_048_576,
        !served.checks_hosts,
{
}

/// An operator is told that a token was made where one was, and of every warning, once
/// and in order; nothing else is said.
pub proof fn every_warning_is_told(notes: Seq<Seq<char>>, path: Seq<u8>, loaded: Loaded)
    requires
        transport::is_note_list(notes, path, loaded),
    ensures
        notes.len() == loaded.warnings@.len() + (if loaded.origin is Generated {
            1int
        } else {
            0int
        }),
        loaded.origin is Generated ==> notes[0] == "Generated a new shared token at "@
            + paths::lossy_text(path) + "."@,
        forall|i: int|
            0 <= i < loaded.warnings@.len() ==> notes[notes.len() - loaded.warnings@.len() + i]
                == "WARNING: "@ + transport::warning_text(#[trigger] loaded.warnings@[i]),
{
}

/// A warning names the file and its mode, and how to mend it.
pub proof fn a_warning_names_the_file(warning: Warning)
    ensures
        match warning {
            Warning::WorldReadable { path, mode } => transport::warning_text(warning)
                == "token file "@ + paths::lossy_text(path@) + " is mode "@ + token::mode_text(
                mode as nat,
            ) + "; other users on this host can read it. Fix with: chmod 600 "@
                + paths::lossy_text(path@),
        },
{
}

/// A banner warns of a bind that other hosts can reach, and of no other; of hosts that
/// are not checked, and of none that are; and it says how to read the token exactly
/// where it does not show it.
pub proof fn warnings_fit_the_listener(banner: BannerView)
    ensures
        banner.bind_warning().len() > 0 <==> !access_laws::stays_here(banner.addr.ip),
        banner.host_warning().len() > 0 <==> banner.any_host,
        banner.elision().len() > 0 <==> banner.token is None,
        banner.token is None ==> banner.elision().contains("   head -n1 "@ + banner.file_text()),
        banner.token is Some ==> banner.config().contains(
            "     \"headers\": { \"Authorization\": \"Bearer "@ + banner.token->0 + "\" }"@,
        ),
        banner.config().contains("     \"url\": \"http://"@ + banner.addr.shown + "/mcp\","@),
        banner.config().contains("   \""@ + banner.exposure.engine + "\": {"@),
        banner.token_file is Some ==> banner.file_text() == paths::lossy_text(
            banner.token_file->0,
        ),
{
    access_laws::here_is_local(banner.addr.ip);
    if banner.token is None {
        assert(banner.elision()[1] == "   head -n1 "@ + banner.file_text());
    } else {
        assert(banner.config()[5] == "     \"headers\": { \"Authorization\": \"Bearer "@
            + banner.token->0 + "\" }"@);
    }
    assert(banner.config()[4] == "     \"url\": \"http://"@ + banner.addr.shown + "/mcp\","@);
    assert(banner.config()[2] == "   \""@ + banner.exposure.engine + "\": {"@);
}

/// A banner is of the policy that it is made for: its address, its hosts and its
/// tokens, of which the first is shown where one is.
pub proof fn a_banner_is_of_its_policy(
    policy: access::AccessPolicy,
    exposure: transport::ExposureView,
    reveal: bool,
)
    ensures
        ({
            let banner = transport::banner_of(policy, exposure, reveal);
            &&& banner.addr == policy.bound()
            &&& banner.accepted == policy.credentials().tokens().len()
            &&& banner.any_host <==> policy.listed() is Any
            &&& banner.token is Some <==> reveal
            &&& reveal ==> banner.token->0 == policy.credentials().tokens()[0]
            &&& banner.token_file == policy.credentials().file()
            &&& banner.exposure == exposure
        }),
{
}

/// Every sentence on what a port reaches stands in the banner, in order, each laid out
/// by itself, and the reason for arbitrary code last.
pub proof fn every_reach_is_told(exposure: transport::ExposureView)
    ensures
        exposure.reach.len() == 0 && exposure.arbitrary_code is None ==> transport::reach_lines(
            exposure,
        ).len() == 0,
        exposure.reach.len() > 0 ==> transport::wrapped_all(exposure.reach)
            == transport::wrapped_all(exposure.reach.drop_last()) + transport::wrapped(
            text::words(exposure.reach.last()),
            58,
        ),
        exposure.arbitrary_code is Some ==> transport::reach_lines(exposure)
            == transport::wrapped_all(exposure.reach) + transport::wrapped(
            text::words("and can execute arbitrary code — "@ + exposure.arbitrary_code->0),
            58,
        ),
        exposure.arbitrary_code is None ==> transport::reach_lines(exposure)
            == transport::wrapped_all(exposure.reach),
{
    assert(exposure.arbitrary_code is None ==> transport::reach_lines(exposure)
        =~= transport::wrapped_all(exposure.reach));
}

} // verus!
