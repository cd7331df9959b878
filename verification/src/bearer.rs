//! The `Authorization` header half of HTTP bearer auth.

use vstd::prelude::*;

use crate::address;
use crate::address::{find_header, HeadView, RequestHead};
use crate::output;
use crate::text;
use crate::text::{same, split_once, to_ascii_lowercase, trim};
use crate::token::Accepted;

verus! {

/// The status of a request that has to authenticate.
pub const UNAUTHORIZED: u16 = 401;

/// Why a request was turned away, and what to answer it with.
///
/// It is always 401 and never 403: "authenticate and try again", with the
/// challenge that goes with it.
#[derive(Debug, Clone, Copy)]
pub struct BearerRejection {
    pub status: u16,
    /// `WWW-Authenticate` value.
    pub challenge: &'static str,
    /// Response body. Fixed strings only.
    pub message: &'static str,
}

/// Why a credential is no use.
pub enum Fault {
    /// There is none.
    Missing,
    /// It is not a well-formed Bearer credential.
    Malformed,
    /// It is not accepted.
    Invalid,
}

/// The challenge that answers a fault.
pub open spec fn challenge_text(fault: Fault) -> Seq<char> {
    match fault {
        Fault::Missing => "Bearer"@,
        Fault::Malformed => "Bearer error=\"invalid_request\""@,
        Fault::Invalid => "Bearer error=\"invalid_token\""@,
    }
}

/// The body that answers a fault.
pub open spec fn body_text(fault: Fault) -> Seq<char> {
    match fault {
        Fault::Missing => "Unauthorized: this endpoint requires an Authorization: Bearer credential"@,
        Fault::Malformed => "Unauthorized: the Authorization header is not a well-formed Bearer credential"@,
        Fault::Invalid => "Unauthorized: invalid bearer token"@,
    }
}

impl BearerRejection {
    /// Whether this is what a fault is answered with.
    pub open spec fn answers(&self, fault: Fault) -> bool {
        &&& self.status == UNAUTHORIZED
        &&& self.challenge@ == challenge_text(fault)
        &&& self.message@ == body_text(fault)
    }
}

/// The credential in an `Authorization` header: `Bearer` in any case, a blank,
/// and the credential, which is not empty.
pub open spec fn credential_in(value: Seq<char>) -> Option<Seq<char>> {
    let at = text::index_from(value, ' ', 0);
    if at < value.len() && text::ascii_lowered(value.take(at)) == "bearer"@ {
        let credential = text::trimmed(value.skip(at + 1));
        if credential.len() > 0 {
            Some(credential)
        } else {
            None
        }
    } else {
        None
    }
}

/// `Bearer <token>`, the scheme in any case.
pub fn strip_bearer(value: &str) -> (res: Option<&str>)
    ensures
        output::opt_str(res) == credential_in(value@),
{
    match split_once(value, ' ') {
        Some((scheme, rest)) => {
            let lower = to_ascii_lowercase(scheme);
            if !same(lower.as_str(), "bearer") {
                return None;
            }
            let credential = trim(rest);
            if credential.is_empty() {
                None
            } else {
                Some(credential)
            }
        },
        None => None,
    }
}

/// What is wrong with the credential of a request, if anything.
pub open spec fn fault_of(tokens: Seq<Seq<char>>, head: HeadView) -> Option<Fault> {
    match head.entry("authorization"@) {
        None => Some(Fault::Missing),
        Some(None) => Some(Fault::Malformed),
        Some(Some(value)) => match credential_in(value) {
            None => Some(Fault::Malformed),
            Some(credential) => if tokens.contains(credential) {
                None
            } else {
                Some(Fault::Invalid)
            },
        },
    }
}

/// Validates the `Authorization` header against the accepted set.
///
/// Every rejection is a fixed string: nothing derived from the stored tokens
/// goes into a response.
pub fn validate(accepted: &Accepted, head: &RequestHead) -> (res: Result<(), BearerRejection>)
    ensures
        match fault_of(accepted.tokens(), head@) {
            Some(fault) => res is Err && res->Err_0.answers(fault),
            None => res is Ok,
        },
{
    let missing = BearerRejection {
        status: UNAUTHORIZED,
        challenge: "Bearer",
        message: "Unauthorized: this endpoint requires an Authorization: Bearer credential",
    };
    let malformed = BearerRejection {
        status: UNAUTHORIZED,
        challenge: "Bearer error=\"invalid_request\"",
        message: "Unauthorized: the Authorization header is not a well-formed Bearer credential",
    };
    let invalid = BearerRejection {
        status: UNAUTHORIZED,
        challenge: "Bearer error=\"invalid_token\"",
        message: "Unauthorized: invalid bearer token",
    };
    let value = match find_header(head, "authorization") {
        None => return Err(missing),
        Some(None) => return Err(malformed),
        Some(Some(value)) => value,
    };
    match strip_bearer(value) {
        None => Err(malformed),
        Some(candidate) => if accepted.accepts(candidate) {
            Ok(())
        } else {
            Err(invalid)
        },
    }
}

// ---------------------------------------------------------------------------
// Laws
// ---------------------------------------------------------------------------

/// A token from any line of the file authenticates, in whatever case the scheme
/// is written.
pub proof fn any_accepted_token_passes(
    tokens: Seq<Seq<char>>,
    scheme: Seq<char>,
    at: int,
    head: HeadView,
)
    requires
        0 <= at < tokens.len(),
        tokens[at].len() > 0,
        text::trimmed(tokens[at]) == tokens[at],
        text::ascii_lowered(scheme) == "bearer"@,
        head.entry("authorization"@) == Some(Some(scheme + seq![' '] + tokens[at])),
    ensures
        fault_of(tokens, head) is None,
{
    let value = scheme + seq![' '] + tokens[at];
    reveal_strlit("bearer");
    assert("bearer"@.len() == 6);
    assert(text::ascii_lowered(scheme).len() == scheme.len());
    assert forall|i: int| 0 <= i < scheme.len() implies scheme[i] != ' ' by {
        assert(text::ascii_lowered(scheme)[i] == text::ascii_lower(scheme[i]));
        assert("bearer"@[i] != ' ');
    }
    text::index_bounds(value, ' ', 0);
    let found = text::index_from(value, ' ', 0);
    assert(value[scheme.len() as int] == ' ');
    assert(found == scheme.len()) by {
        if found < scheme.len() {
            assert(value[found] == scheme[found]);
        }
    }
    assert(value.take(found) =~= scheme);
    assert(value.skip(found + 1) =~= tokens[at]);
}

/// What a request is answered says nothing of the accepted tokens but whether
/// its credential is one of them: two token sets that agree on that answer
/// alike.
pub proof fn answers_leak_nothing(
    tokens: Seq<Seq<char>>,
    others: Seq<Seq<char>>,
    head: HeadView,
)
    requires
        forall|credential: Seq<char>|
            head.entry("authorization"@) is Some && head.entry("authorization"@)->0 is Some
                && credential_in(head.entry("authorization"@)->0->0) == Some(credential) ==> (
            #[trigger] tokens.contains(credential) == others.contains(credential)),
    ensures
        fault_of(tokens, head) == fault_of(others, head),
{
}

} // verus!
