//! RTMP timestamps.

use vstd::prelude::*;

verus! {

/// A point in time as RTMP counts it: milliseconds in 32 bits, which start over
/// at zero when they run out.
#[derive(Clone, Copy, Debug, PartialEq, Eq, Structural)]
pub struct RtmpTimestamp {
    pub value: u32,
}

impl RtmpTimestamp {
    /// The timestamp that lies `delta` milliseconds after this one.
    pub open spec fn plus(self, delta: int) -> RtmpTimestamp {
        RtmpTimestamp { value: ((self.value + delta) % 0x1_0000_0000) as u32 }
    }

    /// Makes a timestamp out of a number of milliseconds.
    pub fn new(initial_value: u32) -> (timestamp: RtmpTimestamp)
        ensures
            timestamp == (RtmpTimestamp { value: initial_value }),
    {
        RtmpTimestamp { value: initial_value }
    }

    /// Moves the timestamp to an absolute number of milliseconds.
    pub fn set(&mut self, new_value: u32)
        ensures
            *final(self) == (RtmpTimestamp { value: new_value }),
    {
        self.value = new_value;
    }
}

impl vstd::std_specs::ops::AddSpecImpl<u32> for RtmpTimestamp {
    open spec fn obeys_add_spec() -> bool {
        true
    }

    open spec fn add_req(self, rhs: u32) -> bool {
        true
    }

    open spec fn add_spec(self, rhs: u32) -> RtmpTimestamp {
        self.plus(rhs as int)
    }
}

impl std::ops::Add<u32> for RtmpTimestamp {
    type Output = RtmpTimestamp;

    /// Moves on by `rhs` milliseconds, starting over at zero where 32 bits run out.
    fn add(self, rhs: u32) -> (sum: RtmpTimestamp)
        ensures
            self.value + rhs < 0x1_0000_0000 ==> sum.value == self.value + rhs,
            self.value + rhs >= 0x1_0000_0000 ==> sum.value == self.value + rhs - 0x1_0000_0000,
    {
        RtmpTimestamp { value: self.value.wrapping_add(rhs) }
    }
}

/// Time passes millisecond by millisecond, and starts over where 32 bits run out.
pub proof fn law_time_passes(time: RtmpTimestamp, delta: u32)
    ensures
        time.value + delta < 0x1_0000_0000 ==> time.plus(delta as int).value == time.value + delta,
        time.value + delta >= 0x1_0000_0000 ==> time.plus(delta as int).value == time.value + delta
            - 0x1_0000_0000,
        exists|rounds: int|
            time.plus(delta as int).value == time.value + delta - #[trigger] (rounds
                * 0x1_0000_0000),
{
    let rounds: int = if time.value + delta < 0x1_0000_0000 {
        0
    } else {
        1
    };
    assert(time.plus(delta as int).value == time.value + delta - rounds * 0x1_0000_0000);
}

/// Going back in time undoes going forward, and the other way round.
pub proof fn law_time_goes_back(time: RtmpTimestamp, delta: u32)
    ensures
        time.plus(delta as int).plus(-(delta as int)) == time,
        time.plus(-(delta as int)).plus(delta as int) == time,
        delta <= time.value ==> time.plus(-(delta as int)).value == time.value - delta,
{
}

} // verus!
