//! The player's own numbers: volume, mute, the gain the audio thread is
//! handed, and where a relative seek lands. Decoding and the sound server
//! are the program's part.

use vstd::prelude::*;

verus! {

/// The volume the user set, in percent, and whether it is muted.
#[derive(Clone, Copy, PartialEq, Eq, Structural, Debug)]
pub struct Mixer {
    pub volume: u8,
    pub muted: bool,
}

impl Mixer {
    pub fn new() -> (m: Mixer)
        ensures
            m == (Mixer { volume: 80, muted: false }),
    {
        Mixer { volume: 80, muted: false }
    }

    /// Sets the volume, at most 100, and unmutes.
    pub fn set_volume(&mut self, v: u8)
        ensures
            *final(self) == (Mixer { volume: if v < 100 { v } else { 100 }, muted: false }),
    {
        self.volume = if v < 100 {
            v
        } else {
            100
        };
        self.muted = false;
    }

    /// Moves the volume by `delta`, held to `0..=100`, and unmutes.
    pub fn nudge_volume(&mut self, delta: i32)
        ensures
            ({
                let want = old(self).volume + delta;
                *final(self) == (Mixer {
                    volume: (if want < 0 {
                        0
                    } else if want > 100 {
                        100
                    } else {
                        want
                    }) as u8,
                    muted: false,
                })
            }),
    {
        let want: i64 = (self.volume as i64) + (delta as i64);
        let v: u8 = if want < 0 {
            0
        } else if want > 100 {
            100
        } else {
            want as u8
        };
        self.set_volume(v);
    }

    pub fn toggle_mute(&mut self)
        ensures
            final(self).muted == !old(self).muted,
            final(self).volume == old(self).volume,
    {
        self.muted = !self.muted;
    }

    /// The gain the audio thread applies, in thousandths: none when muted.
    pub fn gain(&self) -> (g: u32)
        ensures
            g == if self.muted {
                0
            } else {
                self.volume * 10
            },
    {
        if self.muted {
            0
        } else {
            (self.volume as u32) * 10
        }
    }
}

/// Muting twice gives back the sound as it was, volume untouched.
pub proof fn law_mute_twice_is_nothing(m: Mixer)
    ensures
        (Mixer { muted: !(Mixer { muted: !m.muted, ..m }).muted, ..m }) == m,
{
}

/// Where a seek by `delta` seconds lands from `now` seconds in: never
/// before the start.
pub open spec fn spec_seek_target(now: u64, delta: i64) -> u64 {
    let want = (now as i64) + delta;
    if want < 0 {
        0
    } else {
        want as u64
    }
}

/// Seeks relative to the current position, clamped at zero.
pub fn seek_target(now: u64, delta: i64) -> (t: u64)
    ensures
        t == spec_seek_target(now, delta),
{
    let n: i64 = now as i64;
    let want: i128 = (n as i128) + (delta as i128);
    if want < 0 {
        0
    } else {
        want as u64
    }
}

} // verus!
