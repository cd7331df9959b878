//! What a program takes from its surroundings: time and chance.
//!
//! Nothing can be said of a reading of a clock, and of a random identifier only
//! its form. Every rule that depends on one takes it as an argument.

use vstd::prelude::*;

verus! {

/// `std::time::Instant`: a reading of the monotonic clock, never looked into.
#[verifier::external_type_specification]
#[verifier::external_body]
pub struct ExternalInstant(std::time::Instant);

/// A clock that counts from when it was started.
#[derive(Debug, Clone, Copy)]
pub(crate) struct Clock {
    started: std::time::Instant,
}

/// `std::time::Instant::now`: whatever the monotonic clock reads.
#[verifier::external_body]
fn instant_now() -> std::time::Instant {
    std::time::Instant::now()
}

/// `std::time::Instant::elapsed`: the nanoseconds that have passed since a
/// reading, whatever they are.
#[verifier::external_body]
fn nanos_since(start: &std::time::Instant) -> u128 {
    start.elapsed().as_nanos()
}

/// `std::time::SystemTime::now`: the seconds since 1970, whatever the system
/// clock says, and zero where it stands before that.
#[verifier::external_body]
pub(crate) fn unix_seconds() -> u64 {
    std::time::SystemTime::now().duration_since(std::time::UNIX_EPOCH).unwrap_or_default().as_secs()
}

impl Clock {
    pub(crate) fn start() -> Self {
        Clock { started: instant_now() }
    }

    /// Nanoseconds since the clock was started.
    pub(crate) fn now(&self) -> u128 {
        nanos_since(&self.started)
    }
}

/// A hexadecimal digit in lower case.
pub open spec fn is_hex(c: char) -> bool {
    '0' <= c <= '9' || 'a' <= c <= 'f'
}

/// Thirty-two hexadecimal digits.
pub open spec fn is_random_id(s: Seq<char>) -> bool {
    s.len() == 32 && forall|i: int| 0 <= i < s.len() ==> is_hex(#[trigger] s[i])
}

/// `uuid::Uuid::new_v4` in its simple form: thirty-two hexadecimal digits in
/// lower case. Which ones they are is chance, and nothing is said of it.
#[verifier::external_body]
pub(crate) fn random_id() -> (res: String)
    ensures
        is_random_id(res@),
{
    uuid::Uuid::new_v4().simple().to_string()
}

} // verus!
