//! Build stamps for the saved indexes.

use vstd::prelude::*;

use crate::text::{chars_of, decimal, decimal_chars, push_chars, string_of};

verus! {

/// The system clock's time, carried through opaquely.
#[verifier::external_type_specification]
#[verifier::external_body]
pub struct ExSystemTime(std::time::SystemTime);

/// Calls `SystemTime::now`. Nothing is claimed of the time read.
#[verifier::external_body]
fn system_now() -> std::time::SystemTime {
    std::time::SystemTime::now()
}

/// Calls `SystemTime::duration_since(UNIX_EPOCH)` and gives the whole seconds,
/// or `None` for a time before the epoch. Nothing is claimed of the value: it
/// depends on the clock.
#[verifier::external_body]
fn secs_since_epoch(t: &std::time::SystemTime) -> Option<u64> {
    t.duration_since(std::time::UNIX_EPOCH).ok().map(|d| d.as_secs())
}

/// The stamp for a clock reading: `unix:<seconds>`, or `unknown` when the
/// clock is before the epoch.
pub open spec fn stamp_for(secs: Option<u64>) -> Seq<char> {
    match secs {
        Some(n) => "unix:"@ + decimal(n as nat),
        None => "unknown"@,
    }
}

/// The stamp text for a clock reading (see `stamp_for`).
pub fn stamp_text(secs: Option<u64>) -> (r: String)
    ensures
        r@ == stamp_for(secs),
{
    match secs {
        Some(n) => {
            let mut out = chars_of("unix:");
            push_chars(&mut out, &decimal_chars(n));
            string_of(&out)
        },
        None => "unknown".to_string(),
    }
}

/// The current time as a stamp: `unix:<seconds>` or `unknown`.
pub fn unix_stamp() -> (r: String)
    ensures
        exists|secs: Option<u64>| r@ == stamp_for(secs),
{
    let now = system_now();
    let secs = secs_since_epoch(&now);
    let r = stamp_text(secs);
    assert(r@ == stamp_for(secs));
    r
}

/// A stamp is `unknown` or `unix:` followed by the seconds written as a
/// non-empty string of decimal digits.
pub proof fn law_stamp_digits(secs: Option<u64>)
    ensures
        secs is None ==> stamp_for(secs) == "unknown"@,
        secs matches Some(n) ==> {
            let d = decimal(n as nat);
            &&& stamp_for(secs) == "unix:"@ + d
            &&& d.len() > 0
            &&& forall|k: int| 0 <= k < d.len() ==> '0' <= #[trigger] d[k] <= '9'
        },
{
    if let Some(n) = secs {
        crate::text::lemma_decimal_digits(n as nat);
    }
}

} // verus!
