//! The one gate every HTTP request passes through.
//!
//! No route is exempt, and neither is loopback. The `Host` is checked first and
//! the credential second; both must pass.

use vstd::prelude::*;

use crate::address;
use crate::address::{find_header, HeadView, RequestHead};
use crate::bearer;
use crate::text;
use crate::text::{decimal_of, join, same, strip_end, strip_start, to_ascii_lowercase, trim};
use crate::token::Accepted;
use crate::tool;

verus! {

/// The status of a request that is no request.
pub const BAD_REQUEST: u16 = 400;

/// The status of a request that is refused whoever sends it.
pub const FORBIDDEN: u16 = 403;

/// An IP address, as the number it is.
#[derive(Debug, Clone, Copy, PartialEq, Eq, Structural)]
pub enum Ip {
    V4(u32),
    V6(u128),
}

impl Ip {
    /// The addresses that never leave the host: `127.0.0.0/8` and `::1`.
    pub open spec fn is_local(self) -> bool {
        match self {
            Ip::V4(n) => n / 0x100_0000 == 127,
            Ip::V6(n) => n == 1,
        }
    }

    /// The addresses that stand for every address: `0.0.0.0` and `::`.
    pub open spec fn is_any(self) -> bool {
        match self {
            Ip::V4(n) => n == 0,
            Ip::V6(n) => n == 0,
        }
    }

    pub fn is_loopback(&self) -> (res: bool)
        ensures
            res == self.is_local(),
    {
        match self {
            Ip::V4(n) => *n / 0x100_0000 == 127,
            Ip::V6(n) => *n == 1,
        }
    }

    pub fn is_unspecified(&self) -> (res: bool)
        ensures
            res == self.is_any(),
    {
        match self {
            Ip::V4(n) => *n == 0,
            Ip::V6(n) => *n == 0,
        }
    }
}

/// The address a listener is bound to.
#[derive(Debug)]
pub struct BindAddr {
    pub ip: Ip,
    pub port: u16,
    /// The address as it is written.
    pub shown: String,
}

/// What a [`BindAddr`] says.
pub struct BindView {
    pub ip: Ip,
    pub port: u16,
    pub shown: Seq<char>,
}

impl View for BindAddr {
    type V = BindView;

    open spec fn view(&self) -> BindView {
        BindView { ip: self.ip, port: self.port, shown: self.shown@ }
    }
}

/// A host and a port, in a form in which they can be held against each other.
#[derive(Debug, PartialEq, Eq)]
pub struct NormalizedAuthority {
    host: String,
    port: Option<u16>,
}

/// What a [`NormalizedAuthority`] says.
pub struct HostView {
    pub host: Seq<char>,
    pub port: Option<u16>,
}

impl View for NormalizedAuthority {
    type V = HostView;

    closed spec fn view(&self) -> HostView {
        HostView { host: self.host@, port: self.port }
    }
}

/// A text without the occurrences of a character at its two ends.
pub open spec fn both_stripped(s: Seq<char>, mark: char) -> Seq<char> {
    text::end_stripped(text::start_stripped(s, mark), mark)
}

/// A host without brackets and in lower case.
pub open spec fn plain_host(host: Seq<char>) -> Seq<char> {
    text::ascii_lowered(both_stripped(both_stripped(host, '['), ']'))
}

/// A host and a port as they are shown.
pub open spec fn shown_host(host: HostView) -> Seq<char> {
    match host.port {
        Some(port) => host.host + ":"@ + text::decimal(port as nat),
        None => host.host,
    }
}

impl NormalizedAuthority {
    fn display(&self) -> (res: String)
        ensures
            res@ == shown_host(self@),
    {
        let mut out = self.host.clone();
        if let Some(port) = self.port {
            out.append(":");
            let digits = decimal_of(port as u64);
            out.append(digits.as_str());
        }
        out
    }
}

fn normalize_host(host: &str) -> (res: String)
    ensures
        res@ == plain_host(host@),
{
    let open_stripped = strip_end(strip_start(host, '['), '[');
    to_ascii_lowercase(strip_end(strip_start(open_stripped, ']'), ']'))
}

/// The host and the port that `http::uri::Authority` reads in a text.
pub uninterp spec fn authority_parts(source: Seq<char>) -> Option<(Seq<char>, Option<u16>)>;

/// What the parts of an authority say.
pub open spec fn opt_authority(parts: Option<(String, Option<u16>)>) -> Option<
    (Seq<char>, Option<u16>),
> {
    match parts {
        Some((host, port)) => Some((host@, port)),
        None => None,
    }
}

/// `http::uri::Authority`'s `TryFrom<&str>`, with its `host` and `port_u16`:
/// nothing where the text is no authority.
#[verifier::external_body]
fn read_authority(source: &str) -> (res: Option<(String, Option<u16>)>)
    ensures
        opt_authority(res) == authority_parts(source@),
{
    let authority = http::uri::Authority::try_from(source).ok()?;
    Some((authority.host().to_owned(), authority.port_u16()))
}

/// The host that the parts of an authority name.
pub open spec fn host_of_parts(parts: (Seq<char>, Option<u16>)) -> HostView {
    HostView { host: plain_host(parts.0), port: parts.1 }
}

/// The host that an allowlist entry names, given how it was read: an entry that
/// is no authority is taken as a bare host.
pub open spec fn allowed_host(
    entry: Seq<char>,
    parts: Option<(Seq<char>, Option<u16>)>,
) -> HostView {
    match parts {
        Some(parts) => host_of_parts(parts),
        None => HostView { host: plain_host(entry), port: None },
    }
}

/// The host that an allowlist entry names, given how it was read.
pub fn authority_of_entry(entry: &str, parts: Option<(String, Option<u16>)>) -> (res:
    NormalizedAuthority)
    ensures
        res@ == allowed_host(entry@, opt_authority(parts)),
{
    match parts {
        Some((host, port)) => NormalizedAuthority { host: normalize_host(host.as_str()), port },
        None => NormalizedAuthority { host: normalize_host(entry), port: None },
    }
}

/// What `--allow-host` comes to.
#[derive(Debug, PartialEq, Eq)]
pub enum HostAllowList {
    Any,
    Restricted(Vec<NormalizedAuthority>),
}

/// What a [`HostAllowList`] says.
pub enum AllowView {
    Any,
    Restricted(Seq<HostView>),
}

/// What a list of hosts says.
pub open spec fn hosts_said(hosts: Seq<NormalizedAuthority>) -> Seq<HostView> {
    Seq::new(hosts.len(), |i: int| hosts[i]@)
}

impl View for HostAllowList {
    type V = AllowView;

    open spec fn view(&self) -> AllowView {
        match self {
            HostAllowList::Any => AllowView::Any,
            HostAllowList::Restricted(hosts) => AllowView::Restricted(hosts_said(hosts@)),
        }
    }
}

/// The hosts that some entries name; a blank entry names none.
pub open spec fn named_hosts(entries: Seq<Seq<char>>) -> Seq<HostView>
    decreases entries.len(),
{
    if entries.len() == 0 {
        Seq::empty()
    } else {
        let before = named_hosts(entries.drop_last());
        let entry = text::trimmed(entries.last());
        if entry.len() == 0 {
            before
        } else {
            before.push(allowed_host(entry, authority_parts(entry)))
        }
    }
}

/// Whether an entry stands for every host.
pub open spec fn is_wildcard(entry: Seq<char>) -> bool {
    text::trimmed(entry) == "*"@
}

/// What `--allow-host` comes to. Not configured is the bind-derived hosts only;
/// a wildcard, or nothing but blanks, is every host.
pub open spec fn allow_list(entries: Option<Seq<Seq<char>>>) -> AllowView {
    match entries {
        None => AllowView::Restricted(Seq::empty()),
        Some(entries) => if (exists|i: int|
            0 <= i < entries.len() && is_wildcard(#[trigger] entries[i])) || named_hosts(
            entries,
        ).len() == 0 {
            AllowView::Any
        } else {
            AllowView::Restricted(named_hosts(entries))
        },
    }
}

/// Whether an allowlist has a host.
pub open spec fn lists_host(list: AllowView, host: HostView) -> bool {
    match list {
        AllowView::Any => true,
        AllowView::Restricted(hosts) => exists|i: int|
            0 <= i < hosts.len() && (#[trigger] hosts[i]).host == host.host && (hosts[i].port is None
                || hosts[i].port == host.port),
    }
}

/// What an optional list of texts says.
pub open spec fn opt_texts(list: Option<&[String]>) -> Option<Seq<Seq<char>>> {
    match list {
        Some(list) => Some(text::texts(list@)),
        None => None,
    }
}

impl HostAllowList {
    fn from_cli(allow_host: Option<&[String]>) -> (res: Self)
        ensures
            res@ == allow_list(opt_texts(allow_host)),
    {
        let values = match allow_host {
            Some(values) => values,
            None => {
                let none: Vec<NormalizedAuthority> = Vec::new();
                assert(hosts_said(none@) =~= Seq::empty());
                return HostAllowList::Restricted(none);
            },
        };
        let ghost all = text::texts(values@);
        let mut hosts: Vec<NormalizedAuthority> = Vec::new();
        let mut i: usize = 0;
        assert(hosts_said(hosts@) =~= named_hosts(all.take(0)));
        while i < values.len()
            invariant
                i <= values.len(),
                all == text::texts(values@),
                opt_texts(allow_host) == Some(all),
                hosts_said(hosts@) == named_hosts(all.take(i as int)),
                forall|j: int| 0 <= j < i ==> !is_wildcard(#[trigger] all[j]),
            decreases values.len() - i,
        {
            let ghost former = hosts@;
            assert(all[i as int] == values@[i as int]@);
            assert(all.take(i + 1).drop_last() =~= all.take(i as int));
            assert(all.take(i + 1).last() == all[i as int]);
            let entry = trim(values[i].as_str());
            if same(entry, "*") {
                assert(is_wildcard(all[i as int]));
                return HostAllowList::Any;
            }
            if !entry.is_empty() {
                let parts = read_authority(entry);
                let host = authority_of_entry(entry, parts);
                let ghost said = host@;
                hosts.push(host);
                assert(hosts_said(hosts@) =~= hosts_said(former).push(said));
            }
            i += 1;
        }
        assert(all.take(all.len() as int) =~= all);
        assert(hosts_said(hosts@).len() == hosts@.len());
        if hosts.len() == 0 {
            return HostAllowList::Any;
        }
        HostAllowList::Restricted(hosts)
    }

    fn contains(&self, host: &NormalizedAuthority) -> (res: bool)
        ensures
            res == lists_host(self@, host@),
    {
        match self {
            HostAllowList::Any => true,
            HostAllowList::Restricted(hosts) => {
                let mut i: usize = 0;
                while i < hosts.len()
                    invariant
                        i <= hosts.len(),
                        self@ == AllowView::Restricted(hosts_said(hosts@)),
                        forall|j: int|
                            0 <= j < i ==> !((#[trigger] hosts_said(hosts@)[j]).host == host@.host
                                && (hosts_said(hosts@)[j].port is None || hosts_said(
                                hosts@,
                            )[j].port == host@.port)),
                    decreases hosts.len() - i,
                {
                    assert(hosts_said(hosts@)[i as int] == hosts@[i as int]@);
                    if same(hosts[i].host.as_str(), host.host.as_str()) {
                        let fits = match (hosts[i].port, host.port) {
                            (None, _) => true,
                            (Some(a), Some(b)) => a == b,
                            (Some(_), None) => false,
                        };
                        if fits {
                            return true;
                        }
                    }
                    i += 1;
                }
                false
            },
        }
    }
}

/// How a request was turned away.
#[derive(Debug)]
pub struct Refusal {
    pub status: u16,
    pub message: String,
    /// `WWW-Authenticate` value, where there is one.
    pub challenge: Option<String>,
}

/// What a [`Refusal`] says.
pub struct RefusalView {
    pub status: u16,
    pub message: Seq<char>,
    pub challenge: Option<Seq<char>>,
}

impl View for Refusal {
    type V = RefusalView;

    open spec fn view(&self) -> RefusalView {
        RefusalView {
            status: self.status,
            message: self.message@,
            challenge: tool::opt_text(self.challenge),
        }
    }
}

/// The host of a request, or what is wrong with its `Host` header. How the
/// header was read as an authority is given.
pub open spec fn requested(
    entry: Option<Option<Seq<char>>>,
    parts: Option<(Seq<char>, Option<u16>)>,
) -> Result<HostView, RefusalView> {
    match entry {
        None => Err(
            RefusalView {
                status: BAD_REQUEST,
                message: "Bad Request: missing Host header"@,
                challenge: None,
            },
        ),
        Some(value) => if value is Some && parts is Some {
            Ok(host_of_parts(parts->0))
        } else {
            Err(
                RefusalView {
                    status: BAD_REQUEST,
                    message: "Bad Request: invalid Host header"@,
                    challenge: None,
                },
            )
        },
    }
}

/// The host of a request, or what is wrong with its `Host` header.
pub open spec fn requested_by(head: HeadView) -> Result<HostView, RefusalView> {
    requested(
        head.entry("host"@),
        match head.entry("host"@) {
            Some(Some(value)) => authority_parts(value),
            _ => None,
        },
    )
}

fn refuse(status: u16, message: &str) -> (res: Refusal)
    ensures
        res@ == (RefusalView { status, message: message@, challenge: None }),
{
    Refusal { status, message: message.to_owned(), challenge: None }
}

/// The host of a request, given how its header was read as an authority.
pub fn host_of_header(
    entry: Option<Option<&str>>,
    parts: Option<(String, Option<u16>)>,
) -> (res: Result<NormalizedAuthority, Refusal>)
    ensures
        match requested(address::opt_entry(entry), opt_authority(parts)) {
            Ok(host) => res is Ok && res->Ok_0@ == host,
            Err(refusal) => res is Err && res->Err_0@ == refusal,
        },
{
    match entry {
        None => Err(refuse(BAD_REQUEST, "Bad Request: missing Host header")),
        Some(value) => match (value, parts) {
            (Some(_), Some((host, port))) => Ok(
                NormalizedAuthority { host: normalize_host(host.as_str()), port },
            ),
            _ => Err(refuse(BAD_REQUEST, "Bad Request: invalid Host header")),
        },
    }
}

fn parse_host_header(head: &RequestHead) -> (res: Result<NormalizedAuthority, Refusal>)
    ensures
        match requested_by(head@) {
            Ok(host) => res is Ok && res->Ok_0@ == host,
            Err(refusal) => res is Err && res->Err_0@ == refusal,
        },
{
    let entry = find_header(head, "host");
    let parts = match entry {
        Some(Some(value)) => read_authority(value),
        _ => None,
    };
    host_of_header(entry, parts)
}

/// The host that a request names, to be read as an address.
pub fn host_named(head: &RequestHead) -> (res: Option<String>)
    ensures
        tool::opt_text(res) == (match requested_by(head@) {
            Ok(host) => Some(host.host),
            Err(_) => None,
        }),
{
    match parse_host_header(head) {
        Ok(host) => Some(host.host),
        Err(_) => None,
    }
}

/// Whether the address a listener is bound to lets a host in.
pub open spec fn bind_allows(bind: BindView, host: HostView, ip: Option<Ip>) -> bool {
    if host.port is Some && host.port != Some(bind.port) {
        false
    } else if host.host == "localhost"@ {
        bind.ip.is_local() || bind.ip.is_any()
    } else {
        match ip {
            None => false,
            Some(ip) => if bind.ip.is_any() {
                true
            } else if bind.ip.is_local() {
                ip.is_local()
            } else {
                ip == bind.ip
            },
        }
    }
}

/// Who is let in by one running listener.
pub struct AccessPolicy {
    bind: BindAddr,
    allowed_hosts: HostAllowList,
    /// Not optional: every policy has a token set.
    auth: Accepted,
}

/// The hosts of an allowlist as they are shown.
pub open spec fn hosts_text(hosts: Seq<HostView>) -> Seq<char> {
    text::joined(hosts.map_values(|host: HostView| shown_host(host)), ","@)
}

/// What an operator is told of which hosts are let in.
pub open spec fn host_summary(bind: BindView, list: AllowView) -> Seq<char> {
    match list {
        AllowView::Any => "disabled; all Host values are allowed"@,
        AllowView::Restricted(hosts) => if hosts.len() == 0 {
            "bind-derived IP hosts for "@ + bind.shown
        } else {
            "bind-derived IP hosts for "@ + bind.shown + "; extra allowlist: "@ + hosts_text(hosts)
        },
    }
}

/// What is wrong with the host of a request, if anything, given the address that
/// the host spells out.
pub open spec fn host_refusal(
    bind: BindView,
    list: AllowView,
    head: HeadView,
    ip: Option<Ip>,
) -> Option<RefusalView> {
    match requested_by(head) {
        Err(refusal) => Some(refusal),
        Ok(host) => if list is Any || bind_allows(bind, host, ip) || lists_host(list, host) {
            None
        } else {
            Some(
                RefusalView {
                    status: FORBIDDEN,
                    message: "Forbidden: Host header '"@ + shown_host(host)
                        + "' is not allowed; "@ + host_summary(bind, list),
                    challenge: None,
                },
            )
        },
    }
}

/// How a fault in the credential is answered.
pub open spec fn bearer_refusal(fault: bearer::Fault) -> RefusalView {
    RefusalView {
        status: bearer::UNAUTHORIZED,
        message: bearer::body_text(fault),
        challenge: Some(bearer::challenge_text(fault)),
    }
}

impl AccessPolicy {
    /// The address the listener is bound to.
    pub closed spec fn bound(&self) -> BindView {
        self.bind@
    }

    /// The hosts that are let in beside the bind-derived ones.
    pub closed spec fn listed(&self) -> AllowView {
        self.allowed_hosts@
    }

    /// The token set.
    pub closed spec fn credentials(&self) -> Accepted {
        self.auth
    }

    /// How a request is turned away, if it is: the host first, the credential
    /// second.
    pub open spec fn refusal(&self, head: HeadView, ip: Option<Ip>) -> Option<RefusalView> {
        match host_refusal(self.bound(), self.listed(), head, ip) {
            Some(refusal) => Some(refusal),
            None => match bearer::fault_of(self.credentials().tokens(), head) {
                Some(fault) => Some(bearer_refusal(fault)),
                None => None,
            },
        }
    }

    pub fn new(bind_addr: BindAddr, allow_host: Option<&[String]>, auth: Accepted) -> (res: Self)
        ensures
            res.bound() == bind_addr@,
            res.listed() == allow_list(opt_texts(allow_host)),
            res.credentials() == auth,
    {
        AccessPolicy { bind: bind_addr, allowed_hosts: HostAllowList::from_cli(allow_host), auth }
    }

    pub fn bind_addr(&self) -> (res: &BindAddr)
        ensures
            res@ == self.bound(),
    {
        &self.bind
    }

    pub fn auth(&self) -> (res: &Accepted)
        ensures
            *res == self.credentials(),
    {
        &self.auth
    }

    pub fn host_check_disabled(&self) -> (res: bool)
        ensures
            res == (self.listed() is Any),
    {
        match &self.allowed_hosts {
            HostAllowList::Any => true,
            HostAllowList::Restricted(_) => false,
        }
    }

    pub fn host_policy_summary(&self) -> (res: String)
        ensures
            res@ == host_summary(self.bound(), self.listed()),
    {
        match &self.allowed_hosts {
            HostAllowList::Any => "disabled; all Host values are allowed".to_owned(),
            HostAllowList::Restricted(hosts) => {
                let mut out = "bind-derived IP hosts for ".to_owned();
                out.append(self.bind.shown.as_str());
                assert(hosts_said(hosts@).len() == hosts@.len());
                if hosts.len() > 0 {
                    let shown = show_hosts(hosts);
                    out.append("; extra allowlist: ");
                    out.append(shown.as_str());
                }
                out
            },
        }
    }

    fn host_allowed_by_bind(&self, host: &NormalizedAuthority, ip: Option<Ip>) -> (res: bool)
        ensures
            res == bind_allows(self.bound(), host@, ip),
    {
        if let Some(port) = host.port {
            if port != self.bind.port {
                return false;
            }
        }
        if same(host.host.as_str(), "localhost") {
            return self.bind.ip.is_loopback() || self.bind.ip.is_unspecified();
        }
        let ip = match ip {
            Some(ip) => ip,
            None => return false,
        };
        if self.bind.ip.is_unspecified() {
            return true;
        }
        if self.bind.ip.is_loopback() {
            return ip.is_loopback();
        }
        ip == self.bind.ip
    }

    fn validate_host(&self, head: &RequestHead, ip: Option<Ip>) -> (res: Result<(), Refusal>)
        ensures
            match host_refusal(self.bound(), self.listed(), head@, ip) {
                Some(refusal) => res is Err && res->Err_0@ == refusal,
                None => res is Ok,
            },
    {
        let host = match parse_host_header(head) {
            Ok(host) => host,
            Err(refusal) => return Err(refusal),
        };
        if self.host_check_disabled() || self.host_allowed_by_bind(&host, ip)
            || self.allowed_hosts.contains(&host) {
            return Ok(());
        }
        let mut message = "Forbidden: Host header '".to_owned();
        let shown = host.display();
        message.append(shown.as_str());
        message.append("' is not allowed; ");
        let summary = self.host_policy_summary();
        message.append(summary.as_str());
        Err(Refusal { status: FORBIDDEN, message, challenge: None })
    }

    /// Checks one request. `ip` is the address that the request's host spells
    /// out, where it is an IP literal.
    pub fn validate(&self, head: &RequestHead, ip: Option<Ip>) -> (res: Result<(), Refusal>)
        ensures
            match self.refusal(head@, ip) {
                Some(refusal) => res is Err && res->Err_0@ == refusal,
                None => res is Ok,
            },
    {
        if let Err(refusal) = self.validate_host(head, ip) {
            return Err(refusal);
        }
        match bearer::validate(&self.auth, head) {
            Ok(_) => Ok(()),
            Err(rejection) => Err(
                Refusal {
                    status: rejection.status,
                    message: rejection.message.to_owned(),
                    challenge: Some(rejection.challenge.to_owned()),
                },
            ),
        }
    }
}

fn show_hosts(hosts: &Vec<NormalizedAuthority>) -> (res: String)
    ensures
        res@ == hosts_text(hosts_said(hosts@)),
{
    let ghost all = hosts_said(hosts@).map_values(|host: HostView| shown_host(host));
    let mut out: Vec<String> = Vec::new();
    let mut i: usize = 0;
    while i < hosts.len()
        invariant
            i <= hosts.len(),
            all == hosts_said(hosts@).map_values(|host: HostView| shown_host(host)),
            text::texts(out@) == all.take(i as int),
        decreases hosts.len() - i,
    {
        let ghost former = out@;
        assert(hosts_said(hosts@)[i as int] == hosts@[i as int]@);
        out.push(hosts[i].display());
        assert(text::texts(out@) =~= text::texts(former).push(all[i as int]));
        assert(all.take(i + 1) =~= all.take(i as int).push(all[i as int]));
        i += 1;
    }
    assert(all.take(all.len() as int) =~= all);
    join(out.as_slice(), ",")
}

// ---------------------------------------------------------------------------
// Laws
// ---------------------------------------------------------------------------

/// No request gets through without a credential, wherever it comes from and
/// whichever hosts are let in.
pub proof fn no_credential_no_entry(policy: AccessPolicy, head: HeadView, ip: Option<Ip>)
    requires
        head.entry("authorization"@) is None,
    ensures
        policy.refusal(head, ip) is Some,
{
}

/// A request that gets through carries one of the accepted tokens.
pub proof fn entry_takes_a_token(policy: AccessPolicy, head: HeadView, ip: Option<Ip>)
    requires
        policy.refusal(head, ip) is None,
    ensures
        exists|credential: Seq<char>| #[trigger]
            policy.credentials().tokens().contains(credential) && (match head.entry(
                "authorization"@,
            ) {
                Some(Some(value)) => bearer::credential_in(value) == Some(credential),
                _ => false,
            }),
{
    let value = head.entry("authorization"@)->0->0;
    let credential = bearer::credential_in(value)->0;
    assert(policy.credentials().tokens().contains(credential));
}

/// A missing `Host` is a bad request even where every host is let in, and it is
/// answered before the credential is looked at.
pub proof fn host_comes_first(policy: AccessPolicy, head: HeadView, ip: Option<Ip>)
    requires
        head.entry("host"@) is None,
    ensures
        policy.refusal(head, ip) == Some(
            RefusalView {
                status: BAD_REQUEST,
                message: "Bad Request: missing Host header"@,
                challenge: None,
            },
        ),
{
}

/// A wrong credential is told apart from a wrong host: a request whose host is
/// let in is never answered with anything but a challenge to authenticate.
pub proof fn challenge_or_entry(policy: AccessPolicy, head: HeadView, ip: Option<Ip>)
    requires
        host_refusal(policy.bound(), policy.listed(), head, ip) is None,
    ensures
        match policy.refusal(head, ip) {
            Some(refusal) => refusal.status == bearer::UNAUTHORIZED && refusal.challenge is Some,
            None => true,
        },
{
}

} // verus!
