//! The ranges of colour channels.
//!
//! Channels are carried as ordered keys. The albedo and the fuzz of a metal
//! lie between zero and one. A channel of a finished frame lies between
//! zero and a bound just below one, so that its quantisation stays below
//! 256.

use crate::key::{clamp, clamp_spec, is_number_spec, lemma_clamp, ONE, ZERO};
use vstd::prelude::*;

verus! {

/// The key of 0.9999, the upper bound of a channel of a finished frame.
pub const CHANNEL_MAX: i64 = 0x3fef_ff2e_48e8_a71e;

/// Brings a reflectance or a roughness into the range from 0 to 1.
pub fn clamp_unit(channel: i64) -> (clamped: i64)
    ensures
        clamped == clamp_spec(channel, ZERO, ONE),
        is_number_spec(channel) ==> ZERO <= clamped <= ONE,
{
    proof {
        lemma_clamp(channel, ZERO, ONE);
    }
    clamp(channel, ZERO, ONE)
}

/// Brings a channel of a frame into the range from 0 to 0.9999.
pub fn clamp_channel(channel: i64) -> (clamped: i64)
    ensures
        clamped == clamp_spec(channel, ZERO, CHANNEL_MAX),
        is_number_spec(channel) ==> ZERO <= clamped <= CHANNEL_MAX,
{
    proof {
        lemma_clamp(channel, ZERO, CHANNEL_MAX);
    }
    clamp(channel, ZERO, CHANNEL_MAX)
}

/// Clamping a frame that has been clamped changes nothing.
pub proof fn lemma_clamp_channel_idempotent(channel: i64)
    ensures
        clamp_spec(clamp_spec(channel, ZERO, CHANNEL_MAX), ZERO, CHANNEL_MAX) == clamp_spec(
            channel,
            ZERO,
            CHANNEL_MAX,
        ),
{
    lemma_clamp(channel, ZERO, CHANNEL_MAX);
}

} // verus!
