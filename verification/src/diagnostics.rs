//! Time stamps of the diagnostics log and the name of its exported copy.
use vstd::prelude::*;
use std::time::{Duration, SystemTime, SystemTimeError};
use crate::text::{decimal, decimal_string, owned, push_str};

verus! {

broadcast use vstd::string::group_string_axioms;

#[verifier::external_type_specification]
#[verifier::external_body]
pub struct ExSystemTime(SystemTime);

#[verifier::external_type_specification]
#[verifier::external_body]
pub struct ExSystemTimeError(SystemTimeError);

/// Calls `SystemTime::now`. The clock's reading is not specified.
#[verifier::external_body]
fn now_time() -> SystemTime {
    SystemTime::now()
}

/// Calls `SystemTime::duration_since` with `UNIX_EPOCH`. Whether the clock
/// reads before the epoch, and how far from it, is not specified.
#[verifier::external_body]
fn since_unix_epoch(t: SystemTime) -> Result<Duration, SystemTimeError> {
    t.duration_since(std::time::UNIX_EPOCH)
}

/// Calls `Duration::as_secs`. A duration is opaque here, so its number of
/// seconds is not specified.
#[verifier::external_body]
fn whole_seconds(d: &Duration) -> u64 {
    d.as_secs()
}

/// Calls `Duration::as_millis`. A duration is opaque here, so its number of
/// milliseconds is not specified.
#[verifier::external_body]
fn whole_millis(d: &Duration) -> u128 {
    d.as_millis()
}

/// The text is the decimal form of some number.
pub open spec fn is_decimal(s: Seq<char>) -> bool {
    exists|n: nat| s == decimal(n)
}

/// Seconds since the Unix epoch, in decimal; 0 when the clock reads earlier.
pub fn current_timestamp() -> (r: String)
    ensures
        is_decimal(r@),
{
    let secs: u64 = match since_unix_epoch(now_time()) {
        Ok(d) => whole_seconds(&d),
        Err(_) => 0,
    };
    let s = decimal_string(secs as u128);
    assert(s@ == decimal(secs as nat));
    s
}

/// Milliseconds since the Unix epoch, in decimal; 0 when the clock reads
/// earlier.
pub fn compact_timestamp() -> (r: String)
    ensures
        is_decimal(r@),
{
    let millis: u128 = match since_unix_epoch(now_time()) {
        Ok(d) => whole_millis(&d),
        Err(_) => 0,
    };
    let s = decimal_string(millis);
    assert(s@ == decimal(millis as nat));
    s
}

/// The name of an exported copy of the log, stamped `stamp`.
pub open spec fn export_name(stamp: Seq<char>) -> Seq<char> {
    "diagnostics-export-"@ + stamp + ".jsonl"@
}

/// The name of an exported copy of the log, stamped with the current time
/// in milliseconds.
pub fn export_file_name() -> (r: String)
    ensures
        exists|n: nat| r@ == export_name(#[trigger] decimal(n)),
{
    let stamp = compact_timestamp();
    let ghost n = choose|n: nat| stamp@ == decimal(n);
    let mut name = owned("diagnostics-export-");
    push_str(&mut name, stamp.as_str());
    push_str(&mut name, ".jsonl");
    assert(name@ == export_name(decimal(n)));
    name
}

} // verus!
