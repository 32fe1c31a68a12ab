//! Mapping of 32-bit RTP timestamps onto a presentation clock that starts at
//! zero with the first packet of a session.

use vstd::prelude::*;

verus! {

/// Remembers the first RTP timestamp of a session.
#[derive(Debug, Default)]
pub struct RtpTimeMapper {
    pub first_timestamp: Option<u32>,
}

/// The distance from `base` forward to `t` on the 32-bit RTP clock.
pub open spec fn rtp_delta(base: u32, t: u32) -> int {
    if t >= base {
        t - base
    } else {
        t + 0x1_0000_0000 - base
    }
}

impl RtpTimeMapper {
    /// The base timestamp, once a packet has been seen.
    pub open spec fn base(&self) -> Option<u32> {
        self.first_timestamp
    }

    /// A mapper that has seen no packet.
    pub fn new() -> (r: Self)
        ensures
            r.base().is_none(),
    {
        RtpTimeMapper { first_timestamp: None }
    }

    /// The presentation time of `rtp_timestamp` in 90 kHz ticks. The first
    /// call fixes the base; later calls measure forward from it, across a wrap
    /// of the 32-bit counter.
    pub fn pts90k(&mut self, rtp_timestamp: u32) -> (pts: u64)
        ensures
            final(self).base() == Some(
                match old(self).base() {
                    Some(b) => b,
                    None => rtp_timestamp,
                },
            ),
            pts as int == rtp_delta(final(self).base().unwrap(), rtp_timestamp),
            old(self).base().is_none() ==> pts == 0,
    {
        let base: u32 = match self.first_timestamp {
            Some(b) => b,
            None => {
                self.first_timestamp = Some(rtp_timestamp);
                rtp_timestamp
            },
        };
        let delta: u32 = rtp_timestamp.wrapping_sub(base);
        delta as u64
    }
}

} // verus!
