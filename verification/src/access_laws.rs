//! What holds of every request that asks to be let in.

use vstd::prelude::*;

use crate::access;
use crate::access::{AccessPolicy, AllowView, BindView, HostView, Ip};
use crate::address::HeadView;
use crate::address_laws;
use crate::bearer;
use crate::text;
use crate::text_laws;

verus! {

// ---------------------------------------------------------------------------
// Credentials
// ---------------------------------------------------------------------------

/// The word `Bearer` in any mixture of cases.
pub open spec fn is_scheme(word: Seq<char>) -> bool {
    &&& word.len() == 6
    &&& word[0] == 'b' || word[0] == 'B'
    &&& word[1] == 'e' || word[1] == 'E'
    &&& word[2] == 'a' || word[2] == 'A'
    &&& word[3] == 'r' || word[3] == 'R'
    &&& word[4] == 'e' || word[4] == 'E'
    &&& word[5] == 'r' || word[5] == 'R'
}

proof fn schemes_are_bearer(word: Seq<char>)
    ensures
        text::ascii_lowered(word) == "bearer"@ <==> is_scheme(word),
{
    reveal_strlit("bearer");
    let low = text::ascii_lowered(word);
    assert(low.len() == word.len());
    if is_scheme(word) {
        assert(low =~= "bearer"@);
    }
    if low == "bearer"@ {
        assert("bearer"@.len() == 6);
        assert(low[0] == 'b' && low[1] == 'e' && low[2] == 'a' && low[3] == 'r' && low[4] == 'e'
            && low[5] == 'r');
        assert(text::ascii_lower(word[0]) == low[0]);
        assert(text::ascii_lower(word[1]) == low[1]);
        assert(text::ascii_lower(word[2]) == low[2]);
        assert(text::ascii_lower(word[3]) == low[3]);
        assert(text::ascii_lower(word[4]) == low[4]);
        assert(text::ascii_lower(word[5]) == low[5]);
    }
}

/// A credential is what follows the scheme and a blank, without the white space
/// around it. There is none without the scheme, without the blank, or behind another
/// scheme; nothing but white space is none either.
pub proof fn credentials_follow_the_scheme(
    scheme: Seq<char>,
    lead: Seq<char>,
    credential: Seq<char>,
    trail: Seq<char>,
)
    requires
        !scheme.contains(' '),
        text_laws::blank(lead),
        text_laws::blank(trail),
        text_laws::tight(credential),
    ensures
        bearer::credential_in(scheme + seq![' '] + (lead + credential + trail)) == (if is_scheme(
            scheme,
        ) && credential.len() > 0 {
            Some(credential)
        } else {
            None
        }),
        bearer::credential_in(scheme) is None,
{
    let rest = lead + credential + trail;
    let value = scheme + seq![' '] + rest;
    let n = scheme.len() as int;
    schemes_are_bearer(scheme);
    text::index_bounds(value, ' ', 0);
    text::index_bounds(scheme, ' ', 0);
    let p = text::index_from(value, ' ', 0);
    assert(value[n] == ' ');
    if p < n {
        assert(scheme[p] == ' ');
    }
    assert(value.take(n) =~= scheme);
    assert(value.skip(n + 1) =~= rest);
    text_laws::trimming_leaves_the_core(lead, credential, trail);
    let q = text::index_from(scheme, ' ', 0);
    if q < scheme.len() {
        assert(scheme[q] == ' ');
    }
}

/// A request without a credential, with one that cannot be read and with one that is
/// not accepted are told apart: each is to authenticate, and is told by the challenge
/// which of the three it was. One with an accepted credential passes.
pub proof fn faults_are_told_apart(
    policy: AccessPolicy,
    head: HeadView,
    ip: Option<Ip>,
    value: Seq<char>,
)
    requires
        access::host_refusal(policy.bound(), policy.listed(), head, ip) is None,
    ensures
        ({
            let answer = policy.refusal(head, ip);
            &&& address_laws::is_absent(head, "authorization"@) ==> answer is Some
                && answer->0.status == 401 && answer->0.challenge == Some("Bearer"@)
            &&& address_laws::is_unreadable(head, "authorization"@) ==> answer is Some
                && answer->0.status == 401 && answer->0.challenge == Some(
                "Bearer error=\"invalid_request\""@,
            )
            &&& address_laws::first_says(head, "authorization"@, value)
                ==> match bearer::credential_in(value) {
                None => answer is Some && answer->0.status == 401 && answer->0.challenge == Some(
                    "Bearer error=\"invalid_request\""@,
                ),
                Some(credential) => if policy.credentials().tokens().contains(credential) {
                    answer is None
                } else {
                    answer is Some && answer->0.status == 401 && answer->0.challenge == Some(
                        "Bearer error=\"invalid_token\""@,
                    )
                },
            }
        }),
{
    address_laws::first_header_counts(head, "authorization"@, value);
}

// ---------------------------------------------------------------------------
// Hosts
// ---------------------------------------------------------------------------

/// The addresses `127.0.0.0` to `127.255.255.255`, and `::1`.
pub open spec fn stays_here(ip: Ip) -> bool {
    match ip {
        Ip::V4(n) => 0x7f00_0000 <= n <= 0x7fff_ffff,
        Ip::V6(n) => n == 1,
    }
}

/// The addresses `0.0.0.0` and `::`.
pub open spec fn is_everywhere(ip: Ip) -> bool {
    ip == Ip::V4(0) || ip == Ip::V6(0)
}

/// What a listener lets in by the address it is bound to: an IP literal on its own
/// port or on none. One bound to this host lets in the addresses of this host, one
/// bound everywhere any address, and one bound elsewhere its own; `localhost` is let
/// in by the first two. A name is never let in by the bind.
pub proof fn a_bind_lets_in_its_addresses(bind: BindView, host: HostView, ip: Option<Ip>)
    ensures
        access::bind_allows(bind, host, ip) <==> {
            &&& host.port is None || host.port == Some(bind.port)
            &&& if host.host == "localhost"@ {
                stays_here(bind.ip) || is_everywhere(bind.ip)
            } else {
                match ip {
                    Some(ip) => ip == bind.ip || is_everywhere(bind.ip) || (stays_here(bind.ip)
                        && stays_here(ip)),
                    None => false,
                }
            }
        },
{
    here_is_local(bind.ip);
    if let Some(ip) = ip {
        here_is_local(ip);
    }
}

pub proof fn here_is_local(ip: Ip)
    ensures
        ip.is_local() <==> stays_here(ip),
        ip.is_any() <==> is_everywhere(ip),
{
    if let Ip::V4(n) = ip {
        assert(n / 0x100_0000 == 127 <==> 0x7f00_0000 <= n <= 0x7fff_ffff) by (nonlinear_arith);
    }
}

/// Whether an entry of an allowlist lets a host in: that host on any port, or on the
/// port that the entry names. What cannot be read as a host and a port is a host.
pub open spec fn entry_lets_in(entry: Seq<char>, host: HostView) -> bool {
    let said = text::trimmed(entry);
    said.len() > 0 && match access::authority_parts(said) {
        Some((name, port)) => access::plain_host(name) == host.host && (port is None || port
            == host.port),
        None => access::plain_host(said) == host.host,
    }
}

proof fn named_hosts_come_from_entries(entries: Seq<Seq<char>>, host: HostView)
    ensures
        (exists|i: int|
            0 <= i < access::named_hosts(entries).len() && (#[trigger] access::named_hosts(
                entries,
            )[i]).host == host.host && (access::named_hosts(entries)[i].port is None
                || access::named_hosts(entries)[i].port == host.port)) <==> (exists|k: int|
            0 <= k < entries.len() && entry_lets_in(#[trigger] entries[k], host)),
        access::named_hosts(entries).len() == 0 <==> forall|k: int|
            0 <= k < entries.len() ==> text::trimmed(#[trigger] entries[k]).len() == 0,
    decreases entries.len(),
{
    if entries.len() > 0 {
        let less = entries.drop_last();
        named_hosts_come_from_entries(less, host);
        let before = access::named_hosts(less);
        let after = access::named_hosts(entries);
        let last = entries.len() - 1;
        let fits = |h: HostView| h.host == host.host && (h.port is None || h.port == host.port);
        if exists|i: int| 0 <= i < after.len() && fits(#[trigger] after[i]) {
            let i = choose|i: int| 0 <= i < after.len() && fits(#[trigger] after[i]);
            if i < before.len() {
                assert(before[i] == after[i]);
                let k = choose|k: int| 0 <= k < less.len() && entry_lets_in(
                    #[trigger] less[k],
                    host,
                );
                assert(entries[k] == less[k]);
            } else {
                assert(entry_lets_in(entries[last], host));
            }
        }
        if exists|k: int| 0 <= k < entries.len() && entry_lets_in(#[trigger] entries[k], host) {
            let k = choose|k: int|
                0 <= k < entries.len() && entry_lets_in(#[trigger] entries[k], host);
            if k < last {
                assert(less[k] == entries[k]);
                let i = choose|i: int|
                    0 <= i < before.len() && (#[trigger] before[i]).host == host.host && (
                    before[i].port is None || before[i].port == host.port);
                assert(after[i] == before[i]);
                assert(fits(after[i]));
            } else {
                assert(fits(after[after.len() - 1]));
            }
        }
        if after.len() == 0 {
            assert forall|k: int| 0 <= k < entries.len() implies text::trimmed(
                #[trigger] entries[k],
            ).len() == 0 by {
                if k < last {
                    assert(less[k] == entries[k]);
                }
            }
        }
        if forall|k: int|
            0 <= k < entries.len() ==> text::trimmed(#[trigger] entries[k]).len() == 0 {
            assert forall|k: int| 0 <= k < less.len() implies text::trimmed(
                #[trigger] less[k],
            ).len() == 0 by {
                assert(less[k] == entries[k]);
            }
            assert(text::trimmed(entries[last]).len() == 0);
        }
    }
}

/// An allowlist lets in what one of its entries does. A star among them, or nothing but
/// blanks, lets in every host; without an allowlist none is let in beside those of the
/// bind.
pub proof fn entries_let_hosts_in(entries: Seq<Seq<char>>, host: HostView)
    ensures
        !access::lists_host(access::allow_list(None), host),
        access::lists_host(access::allow_list(Some(entries)), host) <==> {
            ||| exists|k: int|
                0 <= k < entries.len() && text::trimmed(#[trigger] entries[k]) == "*"@
            ||| forall|k: int|
                0 <= k < entries.len() ==> text::trimmed(#[trigger] entries[k]).len() == 0
            ||| exists|k: int| 0 <= k < entries.len() && entry_lets_in(#[trigger] entries[k], host)
        },
{
    named_hosts_come_from_entries(entries, host);
    if exists|k: int| 0 <= k < entries.len() && text::trimmed(#[trigger] entries[k]) == "*"@ {
        let k = choose|k: int| 0 <= k < entries.len() && text::trimmed(#[trigger] entries[k]) == "*"@;
        assert(access::is_wildcard(entries[k]));
    }
}

/// A host is held against another without the brackets around it and in lower case.
pub proof fn hosts_are_compared_plainly(host: Seq<char>)
    requires
        !host.contains('['),
        !host.contains(']'),
    ensures
        access::plain_host(host) == text::ascii_lowered(host),
        access::plain_host(seq!['['] + host + seq![']']) == text::ascii_lowered(host),
{
    let open = seq!['['];
    let shut = seq![']'];
    let none = Seq::<char>::empty();
    if host.len() > 0 {
        assert(host.contains(host[0]) && host.contains(host[host.len() - 1]));
    }
    nothing_to_strip(host, '[');
    nothing_to_strip(host, ']');
    text_laws::stripping_leaves_the_core(host + shut, open, '[');
    assert(open + (host + shut) =~= open + host + shut);
    assert((host + shut).last() == ']');
    assert((host + shut)[0] != '[') by {
        if host.len() > 0 {
            assert((host + shut)[0] == host[0]);
        }
    }
    assert(text::start_stripped(open + host + shut, '[') == host + shut);
    assert(text::end_stripped(host + shut, '[') == host + shut);
    if host.len() > 0 {
        assert((host + shut)[0] == host[0]);
        assert(text::start_stripped(host + shut, ']') == host + shut);
        text_laws::stripping_leaves_the_core(host, shut, ']');
    } else {
        assert(host + shut =~= shut);
        text_laws::stripping_leaves_the_core(none, shut, ']');
        assert(shut + none =~= shut);
        assert(host =~= none);
    }
}

proof fn nothing_to_strip(host: Seq<char>, mark: char)
    requires
        !host.contains(mark),
    ensures
        access::both_stripped(host, mark) == host,
{
    if host.len() > 0 {
        assert(host.contains(host[0]) && host.contains(host[host.len() - 1]));
    }
}

/// A request to a host that is let in neither by the bind nor by the allowlist is
/// forbidden, whoever sends it, and one whose host cannot be read is a bad request.
pub proof fn strange_hosts_are_forbidden(
    policy: AccessPolicy,
    head: HeadView,
    ip: Option<Ip>,
    value: Seq<char>,
)
    ensures
        ({
            let answer = policy.refusal(head, ip);
            &&& address_laws::is_absent(head, "host"@) || address_laws::is_unreadable(
                head,
                "host"@,
            ) ==> answer is Some && answer->0.status == 400 && answer->0.challenge is None
            &&& address_laws::first_says(head, "host"@, value)
                ==> match access::authority_parts(value) {
                None => answer is Some && answer->0.status == 400 && answer->0.challenge is None,
                Some((name, port)) => {
                    let host = HostView { host: access::plain_host(name), port };
                    let open = access::bind_allows(policy.bound(), host, ip) || access::lists_host(
                        policy.listed(),
                        host,
                    );
                    &&& !open ==> answer is Some && answer->0.status == 403
                        && answer->0.challenge is None
                    &&& open ==> answer is None || answer->0.status == 401
                },
            }
        }),
{
    address_laws::first_header_counts(head, "host"@, value);
}

} // verus!
