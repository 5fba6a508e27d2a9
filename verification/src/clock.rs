//! Reading the wall clock and drawing fresh identifiers.
//!
//! These two readings are the only things the library takes from outside
//! itself. Neither can be predicted, so nothing is proved from their values:
//! a function that uses one promises what holds whatever was read, and the
//! work that follows the reading is done by a function that takes the value
//! as an argument.

use vstd::prelude::*;

verus! {

/// Nanoseconds elapsed since the Unix epoch, as `SystemTime::elapsed` on
/// `UNIX_EPOCH` reports them, or `None` when the system clock is set before
/// the epoch. Nothing is claimed of the value.
#[verifier::external_body]
pub(crate) fn epoch_nanos() -> (r: Option<u128>) {
    match std::time::UNIX_EPOCH.elapsed() {
        Ok(d) => Some(d.as_nanos()),
        Err(_) => None,
    }
}

/// A random identifier drawn by `uuid::Uuid::new_v4`, as the 128-bit integer
/// that `Uuid::as_u128` gives for it. The version field is 4 and the variant
/// field is `10` in every identifier that comes back; the other 122 bits are
/// random. The draw panics if the operating system has no random bytes to
/// give.
#[verifier::external_body]
pub(crate) fn random_id() -> (r: u128)
    ensures
        is_random_uuid(r),
{
    uuid::Uuid::new_v4().as_u128()
}

/// Whether `id` reads as a version 4 UUID of the standard variant.
pub open spec fn is_random_uuid(id: u128) -> bool {
    id & 0x0000_0000_0000_f000_c000_0000_0000_0000u128
        == 0x0000_0000_0000_4000_8000_0000_0000_0000u128
}

/// The timestamp that stands for a clock reading: the reading's low 64 bits,
/// and zero for a clock that is set before the epoch.
pub open spec fn spec_timestamp_of(reading: Option<u128>) -> u64 {
    match reading {
        Some(n) => (n % 0x1_0000_0000_0000_0000u128) as u64,
        None => 0,
    }
}

/// Turns a clock reading into a timestamp in nanoseconds.
pub fn timestamp_of(reading: Option<u128>) -> (t: u64)
    ensures
        t == spec_timestamp_of(reading),
{
    match reading {
        Some(n) => {
            let low: u128 = n % 0x1_0000_0000_0000_0000u128;
            low as u64
        },
        None => 0,
    }
}

/// The current time in nanoseconds since the Unix epoch.
pub(crate) fn now() -> (t: u64) {
    timestamp_of(epoch_nanos())
}

} // verus!
