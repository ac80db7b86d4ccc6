//! The calls into std that vstd gives no specification, each behind a
//! wrapper whose contract is believed, not proved.
use std::time::{Duration, SystemTime, UNIX_EPOCH};

use vstd::prelude::*;

verus! {

#[verifier::external_type_specification]
#[verifier::external_body]
pub struct ExSystemTime(SystemTime);

/// Calls `String::push`, which appends one character: the contract says the
/// string afterwards is the string before followed by `c`.
#[verifier::external_body]
pub fn push_char(s: &mut String, c: char)
    ensures
        final(s)@ == old(s)@.push(c),
{
    s.push(c);
}

/// Calls `SystemTime::now`. The reading depends on the clock, so nothing is
/// claimed of it.
#[verifier::external_body]
pub fn system_now() -> SystemTime {
    SystemTime::now()
}

/// Calls `SystemTime::duration_since` with the Unix epoch, `None` standing
/// for its error (a time before the epoch). Nothing is claimed of the
/// result: `SystemTime` is opaque here.
#[verifier::external_body]
pub fn since_unix_epoch(t: &SystemTime) -> Option<Duration> {
    t.duration_since(UNIX_EPOCH).ok()
}

/// Calls `Duration::as_millis`. Nothing is claimed of the result:
/// `Duration` is opaque here.
#[verifier::external_body]
pub fn duration_millis(d: &Duration) -> u128 {
    d.as_millis()
}

} // verus!
