//! What a user can choose of an HTTP listener, and what it says when it starts.
//!
//! There is no way to serve without a credential: the parameter does not exist.
//! Which tools sit behind the port is not decided here either; what is insisted
//! on is that the operator be told what the port reaches.

use vstd::prelude::*;

use crate::access;
use crate::access::AccessPolicy;
use crate::args;
use crate::args::parse_u64;
use crate::command;
use crate::command::{Action, ArgSpec, ArgView, Kind, Matches};
use crate::paths;
use crate::paths::{copy_bytes, path_text};
use crate::text;
use crate::text::{decimal_of, join, split, split_words};
use crate::token;
use crate::token::{Loaded, Origin, TokenError, Warning};
use crate::tool;

verus! {

/// Where a listener binds when nobody said otherwise.
pub const DEFAULT_BIND: &'static str = "127.0.0.1:8765";

/// Kept for compatibility. Origin is not checked.
pub const DEFAULT_ALLOW_ORIGIN: &'static str = "http://localhost,http://127.0.0.1";

/// SSE keep-alive, in seconds. Zero disables it.
pub const DEFAULT_SSE_KEEP_ALIVE_SECS: u64 = 15;

/// Session inactivity timeout, in seconds. Zero disables it.
pub const DEFAULT_SESSION_KEEP_ALIVE_SECS: u64 = 1800;

/// Request-body cap, in MiB.
pub const DEFAULT_MAX_REQUEST_BODY_MIB: usize = 16;

const BYTES_PER_MIB: usize = 1_048_576;

pub const BIND_ARG: &'static str = "__vibrev_bind";

pub const TOKEN_FILE_ARG: &'static str = "__vibrev_token_file";

pub const ALLOW_ORIGIN_ARG: &'static str = "__vibrev_allow_origin";

pub const ALLOW_HOST_ARG: &'static str = "__vibrev_allow_host";

pub const SSE_KEEP_ALIVE_ARG: &'static str = "__vibrev_sse_keep_alive_secs";

pub const SESSION_KEEP_ALIVE_ARG: &'static str = "__vibrev_session_keep_alive_secs";

pub const STATELESS_ARG: &'static str = "__vibrev_stateless";

pub const JSON_RESPONSE_ARG: &'static str = "__vibrev_json_response";

pub const MAX_REQUEST_BODY_ARG: &'static str = "__vibrev_max_request_body_mib";

// ---------------------------------------------------------------------------
// What can go wrong
// ---------------------------------------------------------------------------

/// What keeps a listener from serving. A reason is what the system gave.
#[derive(Debug)]
pub enum TransportError {
    Token(TokenError),
    Bind { addr: String, reason: String },
    LocalAddr { reason: String },
    Serve { reason: String },
}

impl TransportError {
    /// What a reader is told.
    pub open spec fn told(&self) -> Seq<char> {
        match self {
            TransportError::Token(error) => token::trouble_text(error.said()),
            TransportError::Bind { addr, reason } => "cannot bind "@ + addr@ + ": "@ + reason@,
            TransportError::LocalAddr { reason } => "cannot read the listener's address: "@
                + reason@,
            TransportError::Serve { reason } => "the HTTP listener failed: "@ + reason@,
        }
    }

    /// What a reader is told.
    pub fn message(&self) -> (res: String)
        ensures
            res@ == self.told(),
    {
        match self {
            TransportError::Token(error) => error.message(),
            TransportError::Bind { addr, reason } => {
                let mut out = "cannot bind ".to_owned();
                out.append(addr.as_str());
                out.append(": ");
                out.append(reason.as_str());
                out
            },
            TransportError::LocalAddr { reason } => {
                let mut out = "cannot read the listener's address: ".to_owned();
                out.append(reason.as_str());
                out
            },
            TransportError::Serve { reason } => {
                let mut out = "the HTTP listener failed: ".to_owned();
                out.append(reason.as_str());
                out
            },
        }
    }
}

// ---------------------------------------------------------------------------
// Options
// ---------------------------------------------------------------------------

/// Everything the listener needs that a user can choose. Whether to require a
/// credential is not among it.
#[derive(Debug)]
pub struct HttpOptions {
    /// The socket address, as it is written.
    pub bind: String,
    /// Where the token file is; nothing is the default place.
    pub token_file: Option<Vec<u8>>,
    /// Kept for compatibility. Origin is not checked.
    pub allow_origin: Vec<String>,
    /// Nothing is the bind-derived hosts only, which is not the same as an empty
    /// list.
    pub allow_host: Option<Vec<String>>,
    pub sse_keep_alive_secs: u64,
    pub session_keep_alive_secs: u64,
    pub stateless: bool,
    pub json_response: bool,
    pub max_request_body_mib: usize,
}

/// What [`HttpOptions`] say.
pub struct OptionsView {
    pub bind: Seq<char>,
    pub token_file: Option<Seq<u8>>,
    pub allow_origin: Seq<Seq<char>>,
    pub allow_host: Option<Seq<Seq<char>>>,
    pub sse_keep_alive_secs: u64,
    pub session_keep_alive_secs: u64,
    pub stateless: bool,
    pub json_response: bool,
    pub max_request_body_mib: usize,
}

impl View for HttpOptions {
    type V = OptionsView;

    open spec fn view(&self) -> OptionsView {
        OptionsView {
            bind: self.bind@,
            token_file: match self.token_file {
                Some(path) => Some(path@),
                None => None,
            },
            allow_origin: text::texts(self.allow_origin@),
            allow_host: match self.allow_host {
                Some(list) => Some(text::texts(list@)),
                None => None,
            },
            sse_keep_alive_secs: self.sse_keep_alive_secs,
            session_keep_alive_secs: self.session_keep_alive_secs,
            stateless: self.stateless,
            json_response: self.json_response,
            max_request_body_mib: self.max_request_body_mib,
        }
    }
}

/// What is chosen where nothing is.
pub open spec fn default_options() -> OptionsView {
    OptionsView {
        bind: DEFAULT_BIND@,
        token_file: None,
        allow_origin: text::pieces(DEFAULT_ALLOW_ORIGIN@, ','),
        allow_host: None,
        sse_keep_alive_secs: DEFAULT_SSE_KEEP_ALIVE_SECS,
        session_keep_alive_secs: DEFAULT_SESSION_KEEP_ALIVE_SECS,
        stateless: false,
        json_response: false,
        max_request_body_mib: DEFAULT_MAX_REQUEST_BODY_MIB,
    }
}

impl Default for HttpOptions {
    fn default() -> (res: Self)
        ensures
            res@ == default_options(),
    {
        HttpOptions {
            bind: DEFAULT_BIND.to_owned(),
            token_file: None,
            allow_origin: split(DEFAULT_ALLOW_ORIGIN, ','),
            allow_host: None,
            sse_keep_alive_secs: DEFAULT_SSE_KEEP_ALIVE_SECS,
            session_keep_alive_secs: DEFAULT_SESSION_KEEP_ALIVE_SECS,
            stateless: false,
            json_response: false,
            max_request_body_mib: DEFAULT_MAX_REQUEST_BODY_MIB,
        }
    }
}

/// The number given for an argument, or else a default.
pub open spec fn number_or(m: Matches, id: Seq<char>, default: u64) -> u64 {
    match m.first(id) {
        Some(value) => match args::unsigned_value(value) {
            Some(n) => n,
            None => default,
        },
        None => default,
    }
}

/// What is chosen on a command line. One that never had the flags reads as
/// everything default.
pub open spec fn chosen(m: Matches) -> OptionsView {
    OptionsView {
        bind: match m.first(BIND_ARG@) {
            Some(bind) => bind,
            None => DEFAULT_BIND@,
        },
        token_file: m.placed(TOKEN_FILE_ARG@),
        allow_origin: match m.given(ALLOW_ORIGIN_ARG@) {
            Some(list) => list,
            None => text::pieces(DEFAULT_ALLOW_ORIGIN@, ','),
        },
        allow_host: m.given(ALLOW_HOST_ARG@),
        sse_keep_alive_secs: number_or(m, SSE_KEEP_ALIVE_ARG@, DEFAULT_SSE_KEEP_ALIVE_SECS),
        session_keep_alive_secs: number_or(
            m,
            SESSION_KEEP_ALIVE_ARG@,
            DEFAULT_SESSION_KEEP_ALIVE_SECS,
        ),
        stateless: m.set(STATELESS_ARG@),
        json_response: m.set(JSON_RESPONSE_ARG@),
        max_request_body_mib: {
            let n = number_or(m, MAX_REQUEST_BODY_ARG@, DEFAULT_MAX_REQUEST_BODY_MIB as u64);
            if n <= usize::MAX {
                n as usize
            } else {
                DEFAULT_MAX_REQUEST_BODY_MIB
            }
        },
    }
}

fn read_number(m: &Matches, id: &str, default: u64) -> (res: u64)
    ensures
        res == number_or(*m, id@, default),
{
    match m.one(id) {
        Some(value) => match parse_u64(value) {
            Some(n) => n,
            None => default,
        },
        None => default,
    }
}

fn read_list(m: &Matches, id: &str) -> (res: Option<Vec<String>>)
    ensures
        match res {
            Some(list) => m.given(id@) == Some(text::texts(list@)),
            None => m.given(id@) is None,
        },
{
    match m.many(id) {
        Some(list) => {
            let mut out: Vec<String> = Vec::new();
            let mut i: usize = 0;
            while i < list.len()
                invariant
                    i <= list.len(),
                    out@.len() == i,
                    forall|j: int| 0 <= j < i ==> (#[trigger] out@[j])@ == list@[j]@,
                decreases list.len() - i,
            {
                out.push(list[i].clone());
                i += 1;
            }
            assert(text::texts(out@) =~= text::texts(list@));
            Some(out)
        },
        None => None,
    }
}

/// A flag that takes one value.
pub open spec fn value_flag(
    id: Seq<char>,
    long: Seq<char>,
    value_name: Seq<char>,
    default: Option<Seq<char>>,
    kind: Kind,
    help: Seq<char>,
) -> ArgView {
    ArgView {
        long: Some(long),
        value_name: Some(value_name),
        help: Some(help),
        default,
        kind,
        ..command::plain_arg(id)
    }
}

/// A flag that takes values, several of them in one where commas separate them.
pub open spec fn several_flag(
    id: Seq<char>,
    long: Seq<char>,
    value_name: Seq<char>,
    default: Option<Seq<char>>,
    help: Seq<char>,
) -> ArgView {
    ArgView {
        action: Action::Append,
        delimiter: Some(','),
        ..value_flag(id, long, value_name, default, Kind::Text, help)
    }
}

/// A flag that says yes.
pub open spec fn switch_flag(id: Seq<char>, long: Seq<char>, help: Seq<char>) -> ArgView {
    ArgView {
        long: Some(long),
        help: Some(help),
        action: Action::Switch,
        ..command::plain_arg(id)
    }
}

/// The flags of the command that listens.
pub open spec fn http_flags() -> Seq<ArgView> {
    seq![
        value_flag(
            BIND_ARG@,
            "bind"@,
            "ADDR"@,
            Some(DEFAULT_BIND@),
            Kind::Address,
            "Listen address. Loopback by default; a non-loopback bind exposes this port to the local network"@,
        ),
        value_flag(
            TOKEN_FILE_ARG@,
            "token-file"@,
            "PATH"@,
            None,
            Kind::Path,
            "Shared bearer token file. Defaults to $VIBREV_HOME/token, otherwise ~/.vibrev/token; created at mode 0600 on first use and reused thereafter. There is no switch that turns the token off"@,
        ),
        several_flag(
            ALLOW_ORIGIN_ARG@,
            "allow-origin"@,
            "ORIGIN"@,
            Some(DEFAULT_ALLOW_ORIGIN@),
            "Legacy compatibility option; Origin headers are not validated"@,
        ),
        several_flag(
            ALLOW_HOST_ARG@,
            "allow-host"@,
            "HOST"@,
            None,
            "Additional allowed Host headers (comma-separated). IP literals that --bind can reach are allowed automatically; put DNS names here. '*' or an empty string disables the Host check, and with it DNS-rebinding protection"@,
        ),
        value_flag(
            SSE_KEEP_ALIVE_ARG@,
            "sse-keep-alive-secs"@,
            "SECS"@,
            Some(text::decimal(DEFAULT_SSE_KEEP_ALIVE_SECS as nat)),
            Kind::Unsigned,
            "SSE keep-alive interval in seconds; 0 disables it"@,
        ),
        value_flag(
            SESSION_KEEP_ALIVE_ARG@,
            "session-keep-alive-secs"@,
            "SECS"@,
            Some(text::decimal(DEFAULT_SESSION_KEEP_ALIVE_SECS as nat)),
            Kind::Unsigned,
            "HTTP session idle timeout in seconds. 0 disables it, but a silently dropped connection then leaves a zombie session; a generous positive value is safer"@,
        ),
        switch_flag(
            STATELESS_ARG@,
            "stateless"@,
            "Stateless mode (POST only, no sessions)"@,
        ),
        switch_flag(
            JSON_RESPONSE_ARG@,
            "json-response"@,
            "Return application/json instead of SSE frames when dispatching without a session"@,
        ),
        value_flag(
            MAX_REQUEST_BODY_ARG@,
            "max-request-body-mib"@,
            "MIB"@,
            Some(text::decimal(DEFAULT_MAX_REQUEST_BODY_MIB as nat)),
            Kind::UnsignedIn { low: 1, high: 1024 },
            "Request body cap in MiB. This buffer is allocated before auth, so an unauthenticated caller can fill it; raise it on purpose"@,
        ),
    ]
}

fn value_arg(
    id: &str,
    long: &str,
    value_name: &str,
    default: Option<String>,
    kind: Kind,
    help: &str,
) -> (res: ArgSpec)
    ensures
        res@ == value_flag(id@, long@, value_name@, tool::opt_text(default), kind, help@),
{
    let mut a = ArgSpec::new(id.to_owned());
    a.long = Some(long.to_owned());
    a.value_name = Some(value_name.to_owned());
    a.help = Some(help.to_owned());
    a.default = default;
    a.kind = kind;
    a
}

fn several_arg(
    id: &str,
    long: &str,
    value_name: &str,
    default: Option<String>,
    help: &str,
) -> (res: ArgSpec)
    ensures
        res@ == several_flag(id@, long@, value_name@, tool::opt_text(default), help@),
{
    let mut a = value_arg(id, long, value_name, default, Kind::Text, help);
    a.action = Action::Append;
    a.delimiter = Some(',');
    a
}

fn switch_arg(id: &str, long: &str, help: &str) -> (res: ArgSpec)
    ensures
        res@ == switch_flag(id@, long@, help@),
{
    let mut a = ArgSpec::new(id.to_owned());
    a.long = Some(long.to_owned());
    a.help = Some(help.to_owned());
    a.action = Action::Switch;
    a
}

impl HttpOptions {
    /// The flags, ready to hang on whichever command opens the listener.
    pub fn args() -> (res: Vec<ArgSpec>)
        ensures
            command::args_said(res@) == http_flags(),
    {
        let mut out: Vec<ArgSpec> = Vec::new();
        out.push(
            value_arg(
                BIND_ARG,
                "bind",
                "ADDR",
                Some(DEFAULT_BIND.to_owned()),
                Kind::Address,
                "Listen address. Loopback by default; a non-loopback bind exposes this port to the local network",
            ),
        );
        out.push(
            value_arg(
                TOKEN_FILE_ARG,
                "token-file",
                "PATH",
                None,
                Kind::Path,
                "Shared bearer token file. Defaults to $VIBREV_HOME/token, otherwise ~/.vibrev/token; created at mode 0600 on first use and reused thereafter. There is no switch that turns the token off",
            ),
        );
        out.push(
            several_arg(
                ALLOW_ORIGIN_ARG,
                "allow-origin",
                "ORIGIN",
                Some(DEFAULT_ALLOW_ORIGIN.to_owned()),
                "Legacy compatibility option; Origin headers are not validated",
            ),
        );
        out.push(
            several_arg(
                ALLOW_HOST_ARG,
                "allow-host",
                "HOST",
                None,
                "Additional allowed Host headers (comma-separated). IP literals that --bind can reach are allowed automatically; put DNS names here. '*' or an empty string disables the Host check, and with it DNS-rebinding protection",
            ),
        );
        out.push(
            value_arg(
                SSE_KEEP_ALIVE_ARG,
                "sse-keep-alive-secs",
                "SECS",
                Some(decimal_of(DEFAULT_SSE_KEEP_ALIVE_SECS)),
                Kind::Unsigned,
                "SSE keep-alive interval in seconds; 0 disables it",
            ),
        );
        out.push(
            value_arg(
                SESSION_KEEP_ALIVE_ARG,
                "session-keep-alive-secs",
                "SECS",
                Some(decimal_of(DEFAULT_SESSION_KEEP_ALIVE_SECS)),
                Kind::Unsigned,
                "HTTP session idle timeout in seconds. 0 disables it, but a silently dropped connection then leaves a zombie session; a generous positive value is safer",
            ),
        );
        out.push(
            switch_arg(STATELESS_ARG, "stateless", "Stateless mode (POST only, no sessions)"),
        );
        out.push(
            switch_arg(
                JSON_RESPONSE_ARG,
                "json-response",
                "Return application/json instead of SSE frames when dispatching without a session",
            ),
        );
        out.push(
            value_arg(
                MAX_REQUEST_BODY_ARG,
                "max-request-body-mib",
                "MIB",
                Some(decimal_of(DEFAULT_MAX_REQUEST_BODY_MIB as u64)),
                Kind::UnsignedIn { low: 1, high: 1024 },
                "Request body cap in MiB. This buffer is allocated before auth, so an unauthenticated caller can fill it; raise it on purpose",
            ),
        );
        assert(command::args_said(out@) =~= http_flags());
        out
    }

    /// Reads the flags back out.
    pub fn read(m: &Matches) -> (res: Self)
        ensures
            res@ == chosen(*m),
    {
        let cap = read_number(m, MAX_REQUEST_BODY_ARG, DEFAULT_MAX_REQUEST_BODY_MIB as u64);
        HttpOptions {
            bind: match m.one(BIND_ARG) {
                Some(bind) => bind.to_owned(),
                None => DEFAULT_BIND.to_owned(),
            },
            token_file: match m.path(TOKEN_FILE_ARG) {
                Some(path) => Some(copy_bytes(path.as_slice())),
                None => None,
            },
            allow_origin: match read_list(m, ALLOW_ORIGIN_ARG) {
                Some(list) => list,
                None => split(DEFAULT_ALLOW_ORIGIN, ','),
            },
            allow_host: read_list(m, ALLOW_HOST_ARG),
            sse_keep_alive_secs: read_number(m, SSE_KEEP_ALIVE_ARG, DEFAULT_SSE_KEEP_ALIVE_SECS),
            session_keep_alive_secs: read_number(
                m,
                SESSION_KEEP_ALIVE_ARG,
                DEFAULT_SESSION_KEEP_ALIVE_SECS,
            ),
            stateless: m.flag(STATELESS_ARG),
            json_response: m.flag(JSON_RESPONSE_ARG),
            max_request_body_mib: if cap <= usize::MAX as u64 {
                cap as usize
            } else {
                DEFAULT_MAX_REQUEST_BODY_MIB
            },
        }
    }
}

// ---------------------------------------------------------------------------
// What the options come to
// ---------------------------------------------------------------------------

/// How sessions are kept.
#[derive(Debug, Clone, Copy, PartialEq, Eq)]
pub struct SessionSettings {
    /// The inactivity timeout; none where there is none.
    pub keep_alive_secs: Option<u64>,
    /// Whether a stream starts with a hint when to come back.
    pub sse_retry: bool,
}

/// How requests are served.
#[derive(Debug, Clone, Copy, PartialEq, Eq)]
pub struct StreamableSettings {
    pub sse_keep_alive_secs: Option<u64>,
    pub sse_retry: bool,
    pub legacy_session_mode: bool,
    pub json_response: bool,
    pub max_request_body_bytes: usize,
    /// Whether hosts are checked a second time. They are not: the access policy does,
    /// and two allowlists would disagree.
    pub checks_hosts: bool,
}

/// A number of seconds, where zero is none.
pub open spec fn some_secs(secs: u64) -> Option<u64> {
    if secs == 0 {
        None
    } else {
        Some(secs)
    }
}

fn timeout(secs: u64) -> (res: Option<u64>)
    ensures
        res == some_secs(secs),
{
    if secs == 0 {
        None
    } else {
        Some(secs)
    }
}

/// How sessions are kept, with the inactivity timeout an engine actually wants.
pub fn local_session_manager(session_keep_alive_secs: u64) -> (res: SessionSettings)
    ensures
        res == (SessionSettings {
            keep_alive_secs: some_secs(session_keep_alive_secs),
            sse_retry: false,
        }),
{
    SessionSettings { keep_alive_secs: timeout(session_keep_alive_secs), sse_retry: false }
}

/// How requests are served, by what the user chose. The body cap stays at the
/// greatest number of bytes there is where it would be more.
pub fn streamable_config(opts: &HttpOptions) -> (res: StreamableSettings)
    ensures
        res.sse_keep_alive_secs == some_secs(opts.sse_keep_alive_secs),
        !res.sse_retry,
        res.legacy_session_mode == !opts.stateless,
        res.json_response == opts.json_response,
        res.max_request_body_bytes == (if opts.max_request_body_mib * 1_048_576 <= usize::MAX {
            opts.max_request_body_mib * 1_048_576
        } else {
            usize::MAX as int
        }),
        !res.checks_hosts,
{
    let mib = opts.max_request_body_mib;
    let cap = if mib <= usize::MAX / BYTES_PER_MIB {
        mib * BYTES_PER_MIB
    } else {
        usize::MAX
    };
    StreamableSettings {
        sse_keep_alive_secs: timeout(opts.sse_keep_alive_secs),
        sse_retry: false,
        legacy_session_mode: !opts.stateless,
        json_response: opts.json_response,
        max_request_body_bytes: cap,
        checks_hosts: false,
    }
}

/// What is said after the banner: that a token was just generated, and anything
/// that loading it warned about.
pub open spec fn is_note_list(notes: Seq<Seq<char>>, path: Seq<u8>, loaded: Loaded) -> bool {
    let fresh: Seq<Seq<char>> = if loaded.origin == Origin::Generated {
        seq!["Generated a new shared token at "@ + paths::lossy_text(path) + "."@]
    } else {
        Seq::empty()
    };
    notes == fresh + Seq::new(
        loaded.warnings@.len(),
        |i: int| "WARNING: "@ + warning_text(loaded.warnings@[i]),
    )
}

/// What an operator is told of a warning.
pub open spec fn warning_text(warning: Warning) -> Seq<char> {
    match warning {
        Warning::WorldReadable { path, mode } => "token file "@ + paths::lossy_text(path@)
            + " is mode "@ + token::mode_text(mode as nat)
            + "; other users on this host can read it. Fix with: chmod 600 "@ + paths::lossy_text(
            path@,
        ),
    }
}

/// What is said after the banner.
pub fn token_notes(path: &[u8], loaded: &Loaded) -> (res: Vec<String>)
    ensures
        is_note_list(text::texts(res@), path@, *loaded),
{
    let mut notes: Vec<String> = Vec::new();
    if loaded.origin == Origin::Generated {
        let mut line = "Generated a new shared token at ".to_owned();
        let shown = path_text(path);
        line.append(shown.as_str());
        line.append(".");
        notes.push(line);
    }
    let ghost fresh = text::texts(notes@);
    assert(loaded.origin == Origin::Generated ==> fresh =~= seq![
        "Generated a new shared token at "@ + paths::lossy_text(path@) + "."@,
    ]);
    assert(loaded.origin != Origin::Generated ==> fresh =~= Seq::empty());
    let ghost all = Seq::new(
        loaded.warnings@.len(),
        |i: int| "WARNING: "@ + warning_text(loaded.warnings@[i]),
    );
    let mut i: usize = 0;
    assert(text::texts(notes@) =~= fresh + all.take(0));
    while i < loaded.warnings.len()
        invariant
            i <= loaded.warnings.len(),
            all == Seq::new(
                loaded.warnings@.len(),
                |i: int| "WARNING: "@ + warning_text(loaded.warnings@[i]),
            ),
            text::texts(notes@) == fresh + all.take(i as int),
        decreases loaded.warnings.len() - i,
    {
        let ghost former = notes@;
        let mut line = "WARNING: ".to_owned();
        let said = loaded.warnings[i].message();
        line.append(said.as_str());
        assert(line@ == all[i as int]);
        notes.push(line);
        assert(text::texts(notes@) =~= text::texts(former).push(all[i as int]));
        assert(fresh + all.take(i + 1) =~= (fresh + all.take(i as int)).push(all[i as int]));
        i += 1;
    }
    assert(all.take(all.len() as int) =~= all);
    notes
}

// ---------------------------------------------------------------------------
// The banner
// ---------------------------------------------------------------------------

/// What a caller who holds the token can do to this host.
#[derive(Debug)]
pub struct Exposure {
    /// The engine's name, for the client-config block.
    pub engine: &'static str,
    /// Routes this listener answers.
    pub routes: &'static [&'static str],
    /// What the tools behind this port can do to the host, in the operator's
    /// terms. One sentence per entry.
    pub reach: Vec<String>,
    /// Why, where some advertised tool runs code that a caller supplies.
    pub arbitrary_code: Option<String>,
}

/// What an [`Exposure`] says.
pub struct ExposureView {
    pub engine: Seq<char>,
    pub routes: Seq<Seq<char>>,
    pub reach: Seq<Seq<char>>,
    pub arbitrary_code: Option<Seq<char>>,
}

impl View for Exposure {
    type V = ExposureView;

    open spec fn view(&self) -> ExposureView {
        ExposureView {
            engine: self.engine@,
            routes: text::strs(self.routes@),
            reach: text::texts(self.reach@),
            arbitrary_code: tool::opt_text(self.arbitrary_code),
        }
    }
}

/// Words laid out greedily: a word goes onto the last line where it fits there
/// behind a blank, and onto a line of its own where it does not.
pub open spec fn wrapped(words: Seq<Seq<char>>, width: int) -> Seq<Seq<char>>
    decreases words.len(),
{
    if words.len() == 0 {
        Seq::empty()
    } else {
        let before = wrapped(words.drop_last(), width);
        let word = words.last();
        if before.len() == 0 || before.last().len() + 1 + word.len() > width {
            before.push(word)
        } else {
            before.update(before.len() - 1, before.last() + " "@ + word)
        }
    }
}

/// Greedy word wrap, counting characters rather than bytes.
///
/// A word longer than `width` gets its own line rather than being cut.
pub fn wrap(sentence: &str, width: usize) -> (res: Vec<String>)
    ensures
        text::texts(res@) == wrapped(text::words(sentence@), width as int),
{
    let words = split_words(sentence);
    let ghost all = text::texts(words@);
    let mut lines: Vec<String> = Vec::new();
    let mut current = String::new();
    let mut i: usize = 0;
    assert(text::texts(lines@) =~= wrapped(all.take(0), width as int));
    while i < words.len()
        invariant
            i <= words.len(),
            all == text::texts(words@),
            i == 0 ==> text::texts(lines@) == wrapped(all.take(0), width as int),
            i > 0 ==> text::texts(lines@).push(current@) == wrapped(
                all.take(i as int),
                width as int,
            ),
        decreases words.len() - i,
    {
        let ghost former = lines@;
        let ghost line = current@;
        let ghost before = wrapped(all.take(i as int), width as int);
        assert(all.take(i + 1).drop_last() =~= all.take(i as int));
        assert(all.take(i + 1).last() == words@[i as int]@);
        let long = words[i].as_str().unicode_len();
        let taken = current.as_str().unicode_len();
        if i == 0 {
            current = words[i].clone();
            assert(text::texts(lines@).push(current@) =~= before.push(current@));
        } else if taken > width || long >= width - taken {
            lines.push(current);
            current = words[i].clone();
            assert(text::texts(lines@) =~= text::texts(former).push(line));
        } else {
            current.append(" ");
            current.append(words[i].as_str());
            assert(before.last() == line);
            assert(text::texts(lines@).push(current@) =~= before.update(
                before.len() - 1,
                current@,
            ));
        }
        i += 1;
    }
    assert(all.take(all.len() as int) =~= all);
    if words.len() > 0 {
        let ghost former = lines@;
        let ghost line = current@;
        lines.push(current);
        assert(text::texts(lines@) =~= text::texts(former).push(line));
    }
    lines
}

/// How wide what a port reaches is laid out.
pub const WIDTH: usize = 58;

const RULE: &'static str = "────────────────────────────────────────────────────────────────────────────";

const INDENT: &'static str = "                  ";

/// Sentences, each wrapped.
pub open spec fn wrapped_all(sentences: Seq<Seq<char>>) -> Seq<Seq<char>>
    decreases sentences.len(),
{
    if sentences.len() == 0 {
        Seq::empty()
    } else {
        wrapped_all(sentences.drop_last()) + wrapped(
            text::words(sentences.last()),
            WIDTH as int,
        )
    }
}

/// What a port reaches, laid out.
pub open spec fn reach_lines(exposure: ExposureView) -> Seq<Seq<char>> {
    wrapped_all(exposure.reach) + (match exposure.arbitrary_code {
        Some(why) => wrapped(
            text::words("and can execute arbitrary code — "@ + why),
            WIDTH as int,
        ),
        None => Seq::empty(),
    })
}

/// What a port reaches, as it stands in the banner.
pub closed spec fn exposed_lines(lines: Seq<Seq<char>>) -> Seq<Seq<char>> {
    Seq::new(
        lines.len(),
        |i: int|
            if i == 0 {
                "   exposure     : "@ + lines[i]
            } else {
                INDENT@ + lines[i]
            },
    )
}

/// What the banner is made of.
pub struct BannerView {
    pub addr: access::BindView,
    /// Where the tokens came from.
    pub token_file: Option<Seq<u8>>,
    /// How many tokens are accepted.
    pub accepted: nat,
    /// The current token, where it may be shown.
    pub token: Option<Seq<char>>,
    /// Whether every host is let in.
    pub any_host: bool,
    pub exposure: ExposureView,
}

impl BannerView {
    pub open spec fn file_text(self) -> Seq<char> {
        match self.token_file {
            Some(path) => paths::lossy_text(path),
            None => "<not from a file>"@,
        }
    }

    pub open spec fn shown_token(self) -> Seq<char> {
        match self.token {
            Some(token) => token,
            None => token::PREFIX@ + "…"@,
        }
    }

    pub closed spec fn head(self) -> Seq<Seq<char>> {
        seq![
            RULE@,
            " this listener requires a bearer token on every request"@,
            "   listening on : http://"@ + self.addr.shown + " ("@ + text::joined(
                self.exposure.routes,
                ", "@,
            ) + ")"@,
            "   token file   : "@ + self.file_text() + " (mode 0600)"@,
            "   accepted     : "@ + text::decimal(self.accepted)
                + " token(s); the first line is the current one"@,
        ]
    }

    pub open spec fn bind_warning(self) -> Seq<Seq<char>> {
        if self.addr.ip.is_local() {
            Seq::empty()
        } else {
            seq![
                "   WARNING: --bind "@ + self.addr.shown
                    + " is not loopback; this port is reachable"@,
                "            from other hosts on the network."@,
            ]
        }
    }

    pub open spec fn host_warning(self) -> Seq<Seq<char>> {
        if self.any_host {
            seq![
                "   WARNING: Host validation is disabled (--allow-host '*' or empty),"@,
                "            which removes the DNS-rebinding mitigation."@,
            ]
        } else {
            Seq::empty()
        }
    }

    pub open spec fn config(self) -> Seq<Seq<char>> {
        seq![
            ""@,
            " Client config (MCP Streamable HTTP):"@,
            "   \""@ + self.exposure.engine + "\": {"@,
            "     \"type\": \"http\","@,
            "     \"url\": \"http://"@ + self.addr.shown + "/mcp\","@,
            "     \"headers\": { \"Authorization\": \"Bearer "@ + self.shown_token() + "\" }"@,
            "   }"@,
        ]
    }

    pub open spec fn elision(self) -> Seq<Seq<char>> {
        if self.token is Some {
            Seq::empty()
        } else {
            seq![
                " The token is elided because stderr is not a terminal. Read it with:"@,
                "   head -n1 "@ + self.file_text(),
            ]
        }
    }

    pub closed spec fn tail(self) -> Seq<Seq<char>> {
        seq![
            ""@,
            " stdio (the default, `serve`) needs none of this: the client spawns"@,
            " it directly and there is no listener to reach."@,
            RULE@,
        ]
    }

    /// The lines of the banner.
    pub open spec fn lines(self) -> Seq<Seq<char>> {
        self.head() + exposed_lines(reach_lines(self.exposure)) + self.bind_warning()
            + self.host_warning() + self.config() + self.elision() + self.tail()
    }
}

/// What a banner is made of, for a policy.
pub open spec fn banner_of(
    access: AccessPolicy,
    exposure: ExposureView,
    reveal_token: bool,
) -> BannerView {
    BannerView {
        addr: access.bound(),
        token_file: access.credentials().file(),
        accepted: access.credentials().tokens().len(),
        token: if reveal_token {
            Some(access.credentials().tokens()[0])
        } else {
            None
        },
        any_host: access.listed() is Any,
        exposure,
    }
}

/// Lines after lines.
fn append_lines(out: &mut Vec<String>, more: Vec<String>)
    ensures
        text::texts(final(out)@) == text::texts(old(out)@) + text::texts(more@),
{
    let ghost head = text::texts(out@);
    let ghost all = text::texts(more@);
    let mut i: usize = 0;
    assert(text::texts(out@) =~= head + all.take(0));
    while i < more.len()
        invariant
            i <= more.len(),
            all == text::texts(more@),
            text::texts(out@) == head + all.take(i as int),
        decreases more.len() - i,
    {
        let ghost former = out@;
        out.push(more[i].clone());
        assert(text::texts(out@) =~= text::texts(former).push(more@[i as int]@));
        assert(head + all.take(i + 1) =~= (head + all.take(i as int)).push(more@[i as int]@));
        i += 1;
    }
    assert(all.take(all.len() as int) =~= all);
}

/// A text between two others.
fn between(before: &str, middle: &str, after: &str) -> (res: String)
    ensures
        res@ == before@ + middle@ + after@,
{
    let mut out = before.to_owned();
    out.append(middle);
    out.append(after);
    out
}

fn lay_out_reach(exposure: &Exposure) -> (res: Vec<String>)
    ensures
        text::texts(res@) == reach_lines(exposure@),
{
    let ghost all = exposure@.reach;
    let mut out: Vec<String> = Vec::new();
    let mut i: usize = 0;
    assert(text::texts(out@) =~= wrapped_all(all.take(0)));
    while i < exposure.reach.len()
        invariant
            i <= exposure.reach.len(),
            all == text::texts(exposure.reach@),
            text::texts(out@) == wrapped_all(all.take(i as int)),
        decreases exposure.reach.len() - i,
    {
        assert(all.take(i + 1).drop_last() =~= all.take(i as int));
        assert(all.take(i + 1).last() == exposure.reach@[i as int]@);
        append_lines(&mut out, wrap(exposure.reach[i].as_str(), WIDTH));
        i += 1;
    }
    assert(all.take(all.len() as int) =~= all);
    if let Some(why) = &exposure.arbitrary_code {
        let mut sentence = "and can execute arbitrary code — ".to_owned();
        sentence.append(why.as_str());
        append_lines(&mut out, wrap(sentence.as_str(), WIDTH));
    } else {
        assert(text::texts(out@) =~= text::texts(out@) + Seq::empty());
    }
    out
}

fn show_reach(lines: &Vec<String>) -> (res: Vec<String>)
    ensures
        text::texts(res@) == exposed_lines(text::texts(lines@)),
{
    let ghost all = exposed_lines(text::texts(lines@));
    let mut out: Vec<String> = Vec::new();
    let mut i: usize = 0;
    while i < lines.len()
        invariant
            i <= lines.len(),
            all == exposed_lines(text::texts(lines@)),
            text::texts(out@) == all.take(i as int),
        decreases lines.len() - i,
    {
        let ghost former = out@;
        let mut line = if i == 0 {
            "   exposure     : ".to_owned()
        } else {
            INDENT.to_owned()
        };
        line.append(lines[i].as_str());
        assert(line@ == all[i as int]);
        out.push(line);
        assert(text::texts(out@) =~= text::texts(former).push(all[i as int]));
        assert(all.take(i + 1) =~= all.take(i as int).push(all[i as int]));
        i += 1;
    }
    assert(all.take(all.len() as int) =~= all);
    out
}

fn join_routes(routes: &[&str]) -> (res: String)
    ensures
        res@ == text::joined(text::strs(routes@), ", "@),
{
    let mut list: Vec<String> = Vec::new();
    let mut i: usize = 0;
    while i < routes.len()
        invariant
            i <= routes@.len(),
            list@.len() == i,
            forall|j: int| 0 <= j < i ==> (#[trigger] list@[j])@ == routes@[j]@,
        decreases routes@.len() - i,
    {
        list.push(routes[i].to_owned());
        i += 1;
    }
    assert(text::texts(list@) =~= text::strs(routes@));
    join(list.as_slice(), ", ")
}

/// The security-posture banner a listener prints on startup.
///
/// `reveal_token` is the caller's answer to whether the output is a terminal. A
/// person who just typed the command needs the value to paste; anything else is
/// a log file.
pub fn banner(access: &AccessPolicy, exposure: &Exposure, reveal_token: bool) -> (res: String)
    ensures
        res@ == text::joined(banner_of(*access, exposure@, reveal_token).lines(), "\n"@),
{
    let ghost view = banner_of(*access, exposure@, reveal_token);
    let addr = access.bind_addr();
    let primary = access.auth().primary();
    let token_file = match access.auth().source() {
        Some(path) => path_text(path.as_slice()),
        None => "<not from a file>".to_owned(),
    };
    assert(token_file@ == view.file_text());
    let shown = if reveal_token {
        primary.to_owned()
    } else {
        let mut out = token::PREFIX.to_owned();
        out.append("…");
        out
    };
    assert(shown@ == view.shown_token());
    let mut lines: Vec<String> = Vec::new();
    lines.push(RULE.to_owned());
    lines.push(" this listener requires a bearer token on every request".to_owned());
    let routes = join_routes(exposure.routes);
    let mut listening = "   listening on : http://".to_owned();
    listening.append(addr.shown.as_str());
    listening.append(" (");
    listening.append(routes.as_str());
    listening.append(")");
    lines.push(listening);
    lines.push(between("   token file   : ", token_file.as_str(), " (mode 0600)"));
    let count = decimal_of(access.auth().count() as u64);
    lines.push(
        between(
            "   accepted     : ",
            count.as_str(),
            " token(s); the first line is the current one",
        ),
    );
    assert(text::texts(lines@) =~= view.head());
    let reach = lay_out_reach(exposure);
    append_lines(&mut lines, show_reach(&reach));
    let mut notes: Vec<String> = Vec::new();
    if !addr.ip.is_loopback() {
        notes.push(
            between(
                "   WARNING: --bind ",
                addr.shown.as_str(),
                " is not loopback; this port is reachable",
            ),
        );
        notes.push("            from other hosts on the network.".to_owned());
    }
    assert(text::texts(notes@) =~= view.bind_warning());
    append_lines(&mut lines, notes);
    let mut notes: Vec<String> = Vec::new();
    if access.host_check_disabled() {
        notes.push(
            "   WARNING: Host validation is disabled (--allow-host '*' or empty),".to_owned(),
        );
        notes.push("            which removes the DNS-rebinding mitigation.".to_owned());
    }
    assert(text::texts(notes@) =~= view.host_warning());
    append_lines(&mut lines, notes);
    let mut notes: Vec<String> = Vec::new();
    notes.push("".to_owned());
    notes.push(" Client config (MCP Streamable HTTP):".to_owned());
    notes.push(between("   \"", exposure.engine, "\": {"));
    notes.push("     \"type\": \"http\",".to_owned());
    notes.push(between("     \"url\": \"http://", addr.shown.as_str(), "/mcp\","));
    notes.push(
        between(
            "     \"headers\": { \"Authorization\": \"Bearer ",
            shown.as_str(),
            "\" }",
        ),
    );
    notes.push("   }".to_owned());
    assert(text::texts(notes@) =~= view.config());
    append_lines(&mut lines, notes);
    let mut notes: Vec<String> = Vec::new();
    if !reveal_token {
        notes.push(
            " The token is elided because stderr is not a terminal. Read it with:".to_owned(),
        );
        notes.push(between("   head -n1 ", token_file.as_str(), ""));
        assert("   head -n1 "@ + token_file@ + ""@ =~= "   head -n1 "@ + token_file@) by {
            reveal_strlit("");
        }
    }
    assert(text::texts(notes@) =~= view.elision());
    append_lines(&mut lines, notes);
    let mut notes: Vec<String> = Vec::new();
    notes.push("".to_owned());
    notes.push(
        " stdio (the default, `serve`) needs none of this: the client spawns".to_owned(),
    );
    notes.push(" it directly and there is no listener to reach.".to_owned());
    notes.push(RULE.to_owned());
    assert(text::texts(notes@) =~= view.tail());
    append_lines(&mut lines, notes);
    join(lines.as_slice(), "\n")
}

// ---------------------------------------------------------------------------
// Laws
// ---------------------------------------------------------------------------

/// Wrapping loses no word and adds none: the lines joined by blanks are the
/// words joined by blanks.
pub proof fn wrapping_keeps_the_words(words: Seq<Seq<char>>, width: int)
    ensures
        text::joined(wrapped(words, width), " "@) == text::joined(words, " "@),
        words.len() > 0 ==> wrapped(words, width).len() > 0,
    decreases words.len(),
{
    if words.len() > 0 {
        let less = words.drop_last();
        let word = words.last();
        wrapping_keeps_the_words(less, width);
        let before = wrapped(less, width);
        let after = wrapped(words, width);
        if before.len() == 0 {
            assert(less.len() == 0);
            assert(after =~= seq![word]);
            assert(words =~= seq![word]);
        } else {
            assert(less.len() > 0) by {
                if less.len() == 0 {
                    assert(before.len() == 0);
                }
            }
            if before.last().len() + 1 + word.len() > width {
                assert(after.drop_last() =~= before);
            } else {
                let line = before.last() + " "@ + word;
                let rest = before.drop_last();
                assert(after.drop_last() =~= rest);
                assert(after.last() == line);
                if before.len() == 1 {
                    assert(after =~= seq![line]);
                    assert(before =~= seq![before.last()]);
                } else {
                    let head = text::joined(rest, " "@);
                    assert(head + " "@ + line =~= (head + " "@ + before.last()) + " "@ + word);
                }
            }
        }
    }
}

/// No line is wider than asked for, unless it is a single word, which is not
/// cut.
pub proof fn wrapped_lines_fit(words: Seq<Seq<char>>, width: int, at: int)
    requires
        0 <= at < wrapped(words, width).len(),
    ensures
        wrapped(words, width)[at].len() <= width || words.contains(wrapped(words, width)[at]),
    decreases words.len(),
{
    if words.len() > 0 {
        let less = words.drop_last();
        let before = wrapped(less, width);
        let after = wrapped(words, width);
        let line = after[at];
        reveal_strlit(" ");
        if at < before.len() && line == before[at] {
            wrapped_lines_fit(less, width, at);
            if less.contains(line) {
                let i = choose|i: int| 0 <= i < less.len() && less[i] == line;
                assert(words[i] == line);
            }
        } else if before.len() == 0 || before.last().len() + 1 + words.last().len() > width {
            assert(line == words[words.len() - 1]);
        } else {
            assert(line == before.last() + " "@ + words.last());
        }
    }
}

/// The words of some lines, line after line.
pub open spec fn words_on(lines: Seq<Seq<Seq<char>>>) -> Seq<Seq<char>>
    decreases lines.len(),
{
    if lines.len() == 0 {
        Seq::empty()
    } else {
        words_on(lines.drop_last()) + lines.last()
    }
}

/// A way to lay words out: every word stands on a line, in order, and a line with
/// more than one word on it fits.
pub open spec fn is_layout(
    lines: Seq<Seq<Seq<char>>>,
    words: Seq<Seq<char>>,
    width: int,
) -> bool {
    &&& words_on(lines) == words
    &&& forall|i: int|
        0 <= i < lines.len() ==> (#[trigger] lines[i]).len() > 0 && (lines[i].len() == 1
            || text::joined(lines[i], " "@).len() <= width)
}

/// The layout that wrapping comes to.
pub open spec fn laid_out(words: Seq<Seq<char>>, width: int) -> Seq<Seq<Seq<char>>>
    decreases words.len(),
{
    if words.len() == 0 {
        Seq::empty()
    } else {
        let before = laid_out(words.drop_last(), width);
        let word = words.last();
        if before.len() == 0 || text::joined(before.last(), " "@).len() + 1 + word.len() > width {
            before.push(seq![word])
        } else {
            before.update(before.len() - 1, before.last().push(word))
        }
    }
}

proof fn line_grows(line: Seq<Seq<char>>, word: Seq<char>)
    requires
        line.len() > 0,
    ensures
        text::joined(line.push(word), " "@) == text::joined(line, " "@) + " "@ + word,
        text::joined(line.push(word), " "@).len() == text::joined(line, " "@).len() + 1
            + word.len(),
{
    reveal_strlit(" ");
    assert(line.push(word).drop_last() =~= line);
}

proof fn last_line_grows(lines: Seq<Seq<Seq<char>>>, word: Seq<char>)
    requires
        lines.len() > 0,
    ensures
        words_on(lines.update(lines.len() - 1, lines.last().push(word))) == words_on(lines).push(
            word,
        ),
{
    let after = lines.update(lines.len() - 1, lines.last().push(word));
    assert(after.drop_last() =~= lines.drop_last());
    assert(words_on(lines.drop_last()) + lines.last().push(word) =~= words_on(lines).push(word));
}

/// Every line is as full as it can be: wrapping lays every word out in order, and
/// the first word of a line would not have fitted on the line before.
pub proof fn lines_are_full(words: Seq<Seq<char>>, width: int)
    ensures
        is_layout(laid_out(words, width), words, width),
        wrapped(words, width) == laid_out(words, width).map_values(
            |line: Seq<Seq<char>>| text::joined(line, " "@),
        ),
        forall|i: int, j: int|
            #![trigger laid_out(words, width)[i], laid_out(words, width)[j]]
            0 <= i && j == i + 1 && j < laid_out(words, width).len() ==> wrapped(
                words,
                width,
            )[i].len() + 1 + laid_out(words, width)[j][0].len() > width,
    decreases words.len(),
{
    let shown = |line: Seq<Seq<char>>| text::joined(line, " "@);
    let lines = laid_out(words, width);
    if words.len() == 0 {
        assert(words =~= Seq::empty());
        assert(wrapped(words, width) =~= lines.map_values(shown));
    } else {
        let less = words.drop_last();
        let word = words.last();
        lines_are_full(less, width);
        let before = laid_out(less, width);
        let texts = wrapped(less, width);
        assert(words =~= less.push(word));
        if before.len() > 0 {
            assert(texts.last() == text::joined(before.last(), " "@));
        }
        if before.len() == 0 || text::joined(before.last(), " "@).len() + 1 + word.len() > width {
            assert(lines.drop_last() =~= before);
            assert(less + seq![word] =~= words);
            assert(text::joined(seq![word], " "@) == word);
            assert(wrapped(words, width) =~= lines.map_values(shown));
        } else {
            let last = before.len() - 1;
            line_grows(before.last(), word);
            last_line_grows(before, word);
            assert(before[last].len() > 0);
            assert(wrapped(words, width) =~= lines.map_values(shown));
            assert forall|i: int, j: int|
                #![trigger lines[i], lines[j]]
                0 <= i && j == i + 1 && j < lines.len() implies wrapped(words, width)[i].len() + 1
                + lines[j][0].len() > width by {
                assert(before[i] == lines[i]);
                assert(before[j][0] == lines[j][0]);
                assert(wrapped(words, width)[i] == texts[i]);
            }
        }
    }
}

proof fn fewest_and_shortest(words: Seq<Seq<char>>, width: int, other: Seq<Seq<Seq<char>>>)
    requires
        is_layout(other, words, width),
    ensures
        wrapped(words, width).len() <= other.len(),
        other.len() > 0 && wrapped(words, width).len() == other.len() ==> wrapped(
            words,
            width,
        ).last().len() <= text::joined(other.last(), " "@).len(),
    decreases words.len(),
{
    if words.len() > 0 {
        reveal_strlit(" ");
        let less = words.drop_last();
        let word = words.last();
        let line = other.last();
        assert(other.len() > 0);
        assert(other[other.len() - 1].len() > 0);
        assert(words_on(other) == words_on(other.drop_last()) + line);
        assert(line.last() == word) by {
            assert(words[words.len() - 1] == line[line.len() - 1]);
        }
        let before = wrapped(less, width);
        if line.len() == 1 {
            let rest = other.drop_last();
            assert(line =~= seq![word]);
            assert(words_on(rest) =~= less);
            assert forall|i: int| 0 <= i < rest.len() implies (#[trigger] rest[i]).len() > 0 && (
            rest[i].len() == 1 || text::joined(rest[i], " "@).len() <= width) by {
                assert(rest[i] == other[i]);
            }
            fewest_and_shortest(less, width, rest);
            assert(text::joined(line, " "@) == word);
        } else {
            let short = line.drop_last();
            let rest = other.update(other.len() - 1, short);
            assert(short.push(word) =~= line);
            line_grows(short, word);
            assert(rest.drop_last() =~= other.drop_last());
            assert(rest.last() == short);
            assert(words_on(rest) =~= less) by {
                assert((words_on(other.drop_last()) + line).drop_last() =~= words_on(
                    other.drop_last(),
                ) + short);
            }
            assert forall|i: int| 0 <= i < rest.len() implies (#[trigger] rest[i]).len() > 0 && (
            rest[i].len() == 1 || text::joined(rest[i], " "@).len() <= width) by {
                assert(other[i].len() > 0);
            }
            fewest_and_shortest(less, width, rest);
            assert(less.len() > 0) by {
                if less.len() == 0 {
                    assert(words_on(rest).len() == 0);
                    assert(words_on(rest) == words_on(rest.drop_last()) + short);
                }
            }
            wrapping_keeps_the_words(less, width);
        }
    }
}

/// No way to lay the words out has fewer lines.
pub proof fn wrapping_takes_the_fewest_lines(
    words: Seq<Seq<char>>,
    width: int,
    other: Seq<Seq<Seq<char>>>,
)
    requires
        is_layout(other, words, width),
    ensures
        wrapped(words, width).len() <= other.len(),
{
    fewest_and_shortest(words, width, other);
}

/// A banner that may not show the token does not depend on it: two listeners
/// that differ in nothing but their tokens say the same.
pub proof fn hidden_token_stays_hidden(
    one: AccessPolicy,
    other: AccessPolicy,
    exposure: ExposureView,
)
    requires
        one.bound() == other.bound(),
        one.listed() == other.listed(),
        one.credentials().file() == other.credentials().file(),
        one.credentials().tokens().len() == other.credentials().tokens().len(),
    ensures
        banner_of(one, exposure, false).lines() == banner_of(other, exposure, false).lines(),
{
}

/// A command line that has none of the flags chooses the defaults.
pub proof fn nothing_given_is_the_default(m: Matches)
    requires
        m.flags@.len() == 0,
        m.values@.len() == 0,
        m.paths@.len() == 0,
    ensures
        chosen(m) == default_options(),
{
    assert(text::texts(m.flags@) =~= Seq::empty());
    assert(!m.set(STATELESS_ARG@));
    assert(!m.set(JSON_RESPONSE_ARG@));
}

/// A banner says where it listens and under which routes, where the token file is and
/// how many tokens are accepted, and under "exposure" every line of what the port
/// reaches.
pub proof fn banners_say_where_and_what(banner: BannerView)
    ensures
        banner.lines().contains(
            "   listening on : http://"@ + banner.addr.shown + " ("@ + text::joined(
                banner.exposure.routes,
                ", "@,
            ) + ")"@,
        ),
        banner.lines().contains("   token file   : "@ + banner.file_text() + " (mode 0600)"@),
        banner.lines().contains(
            "   accepted     : "@ + text::decimal(banner.accepted)
                + " token(s); the first line is the current one"@,
        ),
        reach_lines(banner.exposure).len() > 0 ==> banner.lines().contains(
            "   exposure     : "@ + reach_lines(banner.exposure)[0],
        ),
        forall|i: int|
            0 < i < reach_lines(banner.exposure).len() ==> banner.lines().contains(
                "                  "@ + #[trigger] reach_lines(banner.exposure)[i],
            ),
        forall|i: int|
            0 <= i < banner.bind_warning().len() ==> banner.lines().contains(
                #[trigger] banner.bind_warning()[i],
            ),
        forall|i: int|
            0 <= i < banner.host_warning().len() ==> banner.lines().contains(
                #[trigger] banner.host_warning()[i],
            ),
        forall|i: int|
            0 <= i < banner.config().len() ==> banner.lines().contains(
                #[trigger] banner.config()[i],
            ),
        forall|i: int|
            0 <= i < banner.elision().len() ==> banner.lines().contains(
                #[trigger] banner.elision()[i],
            ),
{
    let lines = banner.lines();
    let head = banner.head();
    let exposed = exposed_lines(reach_lines(banner.exposure));
    let a: int = head.len() as int;
    let b: int = a + exposed.len();
    let c: int = b + banner.bind_warning().len();
    let d: int = c + banner.host_warning().len();
    let e: int = d + banner.config().len();
    assert(lines[2] == head[2]);
    assert(lines[3] == head[3]);
    assert(lines[4] == head[4]);
    assert forall|i: int| 0 <= i < exposed.len() implies lines.contains(
        #[trigger] exposed[i],
    ) by {
        assert(lines[a + i] == exposed[i]);
    }
    assert forall|i: int| 0 < i < reach_lines(banner.exposure).len() implies lines.contains(
        "                  "@ + #[trigger] reach_lines(banner.exposure)[i],
    ) by {
        assert(lines.contains(exposed[i]));
    }
    if exposed.len() > 0 {
        assert(lines.contains(exposed[0]));
    }
    assert forall|i: int| 0 <= i < banner.bind_warning().len() implies lines.contains(
        #[trigger] banner.bind_warning()[i],
    ) by {
        assert(lines[b + i] == banner.bind_warning()[i]);
    }
    assert forall|i: int| 0 <= i < banner.host_warning().len() implies lines.contains(
        #[trigger] banner.host_warning()[i],
    ) by {
        assert(lines[c + i] == banner.host_warning()[i]);
    }
    assert forall|i: int| 0 <= i < banner.config().len() implies lines.contains(
        #[trigger] banner.config()[i],
    ) by {
        assert(lines[d + i] == banner.config()[i]);
    }
    assert forall|i: int| 0 <= i < banner.elision().len() implies lines.contains(
        #[trigger] banner.elision()[i],
    ) by {
        assert(lines[e + i] == banner.elision()[i]);
    }
}

} // verus!
