//! Conversation ids for new connections.

use vstd::prelude::*;

verus! {

/// The conversation id derived from a seed: the low 32 bits of
/// `seed ^ (seed >> 16) ^ (seed >> 32)`.
pub open spec fn conv_from_seed(seed: u128) -> u32 {
    ((seed ^ (seed >> 16u128) ^ (seed >> 32u128)) & 0xffff_ffffu128) as u32
}

/// The conversation id derived from `seed` (see [`conv_from_seed`]).
pub fn conv_of_seed(seed: u128) -> (c: u32)
    ensures
        c == conv_from_seed(seed),
{
    let mixed = (seed ^ (seed >> 16u128) ^ (seed >> 32u128)) & 0xffff_ffffu128;
    proof {
        assert(mixed <= 0xffff_ffff) by (bit_vector)
            requires
                mixed == (seed ^ (seed >> 16u128) ^ (seed >> 32u128)) & 0xffff_ffffu128,
        ;
    }
    mixed as u32
}

/// `std::time::SystemTime`, carried through unchanged.
#[verifier::external_type_specification]
#[verifier::external_body]
pub struct ExSystemTime(std::time::SystemTime);

/// `std::time::SystemTimeError`, carried through unchanged.
#[verifier::external_type_specification]
#[verifier::external_body]
pub struct ExSystemTimeError(std::time::SystemTimeError);

/// The current time of the system clock (`SystemTime::now`).
#[verifier::external_body]
fn system_now() -> std::time::SystemTime {
    std::time::SystemTime::now()
}

/// How long after the Unix epoch `t` is, or an error when `t` is before
/// it (`SystemTime::duration_since` with `UNIX_EPOCH`).
#[verifier::external_body]
fn since_unix_epoch(t: &std::time::SystemTime) -> Result<std::time::Duration, std::time::SystemTimeError> {
    t.duration_since(std::time::UNIX_EPOCH)
}

/// The whole number of nanoseconds in `d` (`Duration::as_nanos`).
#[verifier::external_body]
fn duration_nanos(d: &std::time::Duration) -> u128 {
    d.as_nanos()
}

/// The conversation id for a clock reading: `since_epoch` is the number
/// of nanoseconds since the Unix epoch, or `None` for a clock set before
/// it, which counts as 0.
pub fn conv_from_clock(since_epoch: Option<u128>) -> (c: u32)
    ensures
        c == conv_from_seed(
            match since_epoch {
                Some(n) => n,
                None => 0,
            },
        ),
{
    let seed = match since_epoch {
        Some(n) => n,
        None => 0,
    };
    conv_of_seed(seed)
}

/// A pseudo-random conversation id drawn from the system clock (see
/// [`conv_from_clock`]).
pub fn rand_conv() -> (c: u32)
    ensures
        exists|seed: u128| c == conv_from_seed(seed),
{
    let now = system_now();
    let since = match since_unix_epoch(&now) {
        Ok(d) => Some(duration_nanos(&d)),
        Err(_) => None,
    };
    conv_from_clock(since)
}

} // verus!
