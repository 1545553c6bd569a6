//! The cached timeline: how server ticks and demo ticks relate, which packets
//! become snapshots, and where events land on the cached ticks.

use vstd::prelude::*;

verus! {

/// The number of packets with players that must pass before caching starts.
pub const WARMUP_FRAMES: u32 = 100;

/// The largest magnitude of a difference of two `u32` ticks.
pub open spec fn tick_span() -> int {
    0x1_0000_0000
}

/// A tick base: the server tick minus the demo tick of one packet.
pub open spec fn is_tick_base(b: i64) -> bool {
    -tick_span() < b < tick_span()
}

/// The absolute value.
pub open spec fn abs(x: int) -> int {
    if x < 0 {
        -x
    } else {
        x
    }
}

/// One counter step that stops at `u32::MAX`.
pub open spec fn bump(x: u32) -> u32 {
    if x < u32::MAX {
        (x + 1) as u32
    } else {
        x
    }
}

/// Adds one to a counter, stopping at `u32::MAX`.
pub fn bump_counter(x: u32) -> (r: u32)
    ensures
        r == bump(x),
{
    if x < u32::MAX {
        x + 1
    } else {
        x
    }
}

/// The tick base of a packet.
pub fn tick_base_of(server_tick: u32, packet_tick: u32) -> (b: i64)
    ensures
        b == server_tick - packet_tick,
        is_tick_base(b),
{
    server_tick as i64 - packet_tick as i64
}

/// Statistics of the tick bases seen while caching: how many packets were seen,
/// how often the base changed from one packet to the next, its range, and the
/// range of its skew from the base at the start of caching.
#[derive(Clone, Copy, Debug, PartialEq, Eq, Structural)]
pub struct TickBaseStats {
    pub samples: u32,
    pub changes: u32,
    pub last: Option<i64>,
    pub base_min: i64,
    pub base_max: i64,
    pub skew_min: i64,
    pub skew_max: i64,
    pub skew_abs_max: i64,
}

/// The statistics after observing the tick base `current` while the start base is `start`.
pub open spec fn observed(s: TickBaseStats, current: i64, start: i64) -> TickBaseStats {
    let skew = current - start;
    TickBaseStats {
        samples: bump(s.samples),
        changes: match s.last {
            Some(prev) => if prev != current {
                bump(s.changes)
            } else {
                s.changes
            },
            None => s.changes,
        },
        last: Some(current),
        base_min: if s.samples == 0 || current < s.base_min {
            current
        } else {
            s.base_min
        },
        base_max: if s.samples == 0 || current > s.base_max {
            current
        } else {
            s.base_max
        },
        skew_min: if s.samples == 0 || skew < s.skew_min {
            skew as i64
        } else {
            s.skew_min
        },
        skew_max: if s.samples == 0 || skew > s.skew_max {
            skew as i64
        } else {
            s.skew_max
        },
        skew_abs_max: if s.samples == 0 || abs(skew) > s.skew_abs_max {
            abs(skew) as i64
        } else {
            s.skew_abs_max
        },
    }
}

impl TickBaseStats {
    /// No packet seen yet.
    pub fn new() -> (s: TickBaseStats)
        ensures
            s == (TickBaseStats {
                samples: 0,
                changes: 0,
                last: None,
                base_min: 0,
                base_max: 0,
                skew_min: 0,
                skew_max: 0,
                skew_abs_max: 0,
            }),
            s.inv(0),
    {
        TickBaseStats {
            samples: 0,
            changes: 0,
            last: None,
            base_min: 0,
            base_max: 0,
            skew_min: 0,
            skew_max: 0,
            skew_abs_max: 0,
        }
    }

    /// What holds of the statistics while the start base stays `start`: each range
    /// is ordered and holds the last base, the skews are the bases less the start
    /// base, the range of bases holds the start base (so the smallest skew is at
    /// most 0 and the largest at least 0), the largest absolute skew is that of one
    /// end of the skew range, and the base changed at most once per packet after the
    /// first, that is fewer times than there were packets (until the packet counter
    /// stops at `u32::MAX`).
    pub open spec fn inv(&self, start: i64) -> bool {
        &&& is_tick_base(start)
        &&& self.changes <= self.samples
        &&& (self.samples > 0 && self.samples < u32::MAX ==> self.changes < self.samples)
        &&& (self.samples == 0 <==> self.last is None)
        &&& self.samples > 0 ==> {
            &&& self.base_min <= start <= self.base_max
            &&& self.skew_min <= 0 <= self.skew_max
            &&& self.last matches Some(l) && is_tick_base(l) && self.base_min <= l
                <= self.base_max
            &&& is_tick_base(self.base_min)
            &&& is_tick_base(self.base_max)
            &&& self.skew_min == self.base_min - start
            &&& self.skew_max == self.base_max - start
            &&& self.skew_abs_max == if abs(self.skew_min as int) >= abs(self.skew_max as int) {
                abs(self.skew_min as int)
            } else {
                abs(self.skew_max as int)
            }
        }
    }

    /// Records the tick base of one more packet.
    pub fn observe(&mut self, current: i64, start: i64)
        requires
            is_tick_base(current),
            is_tick_base(start),
        ensures
            *final(self) == observed(*old(self), current, start),
    {
        if let Some(prev) = self.last {
            if prev != current {
                self.changes = bump_counter(self.changes);
            }
        }
        self.last = Some(current);
        let skew = current - start;
        let skew_abs = if skew < 0 {
            -skew
        } else {
            skew
        };
        if self.samples == 0 {
            self.base_min = current;
            self.base_max = current;
            self.skew_min = skew;
            self.skew_max = skew;
            self.skew_abs_max = skew_abs;
        } else {
            if current < self.base_min {
                self.base_min = current;
            }
            if current > self.base_max {
                self.base_max = current;
            }
            if skew < self.skew_min {
                self.skew_min = skew;
            }
            if skew > self.skew_max {
                self.skew_max = skew;
            }
            if skew_abs > self.skew_abs_max {
                self.skew_abs_max = skew_abs;
            }
        }
        self.samples = bump_counter(self.samples);
    }
}

/// Law: observing a tick base keeps the statistics' invariant, as long as the
/// start base stays the same and is the first base observed.
pub proof fn lemma_observe_keeps_inv(s: TickBaseStats, current: i64, start: i64)
    requires
        s.inv(start),
        is_tick_base(current),
        s.samples == 0 ==> current == start,
    ensures
        observed(s, current, start).inv(start),
{
}

/// Law: observing a tick base counts one more sample, remembers the base, counts a
/// change exactly when the base differs from the last one observed, and widens the
/// base range to hold it.
pub proof fn lemma_observe_counts_changes(s: TickBaseStats, current: i64, start: i64)
    requires
        is_tick_base(current),
        is_tick_base(start),
    ensures
        observed(s, current, start).skew_min <= current - start <= observed(s, current, start).skew_max,
        observed(s, current, start).skew_abs_max >= abs(current - start),
        s.samples == 0 ==> observed(s, current, start).skew_abs_max == abs(current - start),
        s.samples > 0 ==> observed(s, current, start).skew_abs_max == if abs(current - start)
            > s.skew_abs_max {
            abs(current - start)
        } else {
            s.skew_abs_max as int
        },
        s.samples > 0 ==> observed(s, current, start).skew_min == if current - start < s.skew_min {
            current - start
        } else {
            s.skew_min as int
        },
        s.samples > 0 ==> observed(s, current, start).skew_max == if current - start > s.skew_max {
            current - start
        } else {
            s.skew_max as int
        },
        observed(s, current, start).samples == bump(s.samples),
        observed(s, current, start).last == Some(current),
        s.last matches Some(prev) && prev != current ==> observed(s, current, start).changes
            == bump(s.changes),
        s.last matches Some(prev) && prev == current ==> observed(s, current, start).changes
            == s.changes,
        s.last is None ==> observed(s, current, start).changes == s.changes,
        observed(s, current, start).base_min <= current <= observed(s, current, start).base_max,
        s.samples > 0 ==> observed(s, current, start).base_min == if current < s.base_min {
            current
        } else {
            s.base_min
        },
        s.samples > 0 ==> observed(s, current, start).base_max == if current > s.base_max {
            current
        } else {
            s.base_max
        },
{
}

/// Law: from no packet, observing the bases `a` then `b` gives two samples, one change
/// exactly when they differ (by any amount), and the range from the smaller to the
/// larger.
pub proof fn lemma_observe_two_bases(a: i64, b: i64, start: i64)
    ensures
        ({
            let empty = TickBaseStats {
                samples: 0,
                changes: 0,
                last: None,
                base_min: 0,
                base_max: 0,
                skew_min: 0,
                skew_max: 0,
                skew_abs_max: 0,
            };
            let t = observed(observed(empty, a, start), b, start);
            &&& t.samples == 2
            &&& t.changes == if a != b {
                1u32
            } else {
                0u32
            }
            &&& t.base_min == if a < b {
                a
            } else {
                b
            }
            &&& t.base_max == if a < b {
                b
            } else {
                a
            }
            &&& t.last == Some(b)
        }),
{
}

/// The internal tick of a packet with server tick `server_tick`, when the packet
/// becomes a snapshot: it must not come before the start of caching, must fall
/// inside the cache, and must come after the last snapshot.
pub open spec fn snapshot_tick(
    start_server_tick: u32,
    tick_capacity: usize,
    last_snapshot: Option<u32>,
    server_tick: u32,
) -> Option<u32> {
    if server_tick < start_server_tick {
        None
    } else if (server_tick - start_server_tick) >= tick_capacity {
        None
    } else if last_snapshot is Some && (server_tick - start_server_tick) <= last_snapshot->0 {
        None
    } else {
        Some((server_tick - start_server_tick) as u32)
    }
}

/// Computes `snapshot_tick`.
pub fn snapshot_tick_of(
    start_server_tick: u32,
    tick_capacity: usize,
    last_snapshot: Option<u32>,
    server_tick: u32,
) -> (r: Option<u32>)
    ensures
        r == snapshot_tick(start_server_tick, tick_capacity, last_snapshot, server_tick),
{
    if server_tick < start_server_tick {
        return None;
    }
    let internal_tick = server_tick - start_server_tick;
    if internal_tick as usize >= tick_capacity {
        return None;
    }
    if let Some(prev_tick) = last_snapshot {
        if internal_tick <= prev_tick {
            return None;
        }
    }
    Some(internal_tick)
}

/// The cached tick of an event at demo tick `raw_tick`: the event is moved to
/// server time by `tick_base`, and kept when it falls inside the cached window
/// `[start_server_tick, start_server_tick + output_ticks)`. The offset from the
/// start is taken modulo `2^32`, as a `u32`.
pub open spec fn event_tick(
    tick_base: i64,
    start_server_tick: u32,
    output_ticks: usize,
    raw_tick: u32,
) -> Option<u32> {
    let server_tick = tick_base + raw_tick;
    if server_tick < start_server_tick {
        None
    } else if ((server_tick - start_server_tick) as u32) >= output_ticks {
        None
    } else {
        Some((server_tick - start_server_tick) as u32)
    }
}

/// Computes `event_tick`.
pub fn event_tick_of(
    tick_base: i64,
    start_server_tick: u32,
    output_ticks: usize,
    raw_tick: u32,
) -> (r: Option<u32>)
    requires
        is_tick_base(tick_base),
    ensures
        r == event_tick(tick_base, start_server_tick, output_ticks, raw_tick),
{
    let server_tick = tick_base + raw_tick as i64;
    if server_tick < start_server_tick as i64 {
        return None;
    }
    let internal_tick = (server_tick - start_server_tick as i64) as u32;
    if internal_tick as usize >= output_ticks {
        return None;
    }
    Some(internal_tick)
}

/// The progress to report once a snapshot brings the cache to `next` percent, when
/// `reported` percent was reported last: `next` when it is further on and at most
/// 100, and nothing otherwise.
pub fn progress_update(reported: u32, next: u32) -> (r: Option<u32>)
    ensures
        r == if next > reported && next <= 100 {
            Some(next)
        } else {
            None::<u32>
        },
        r matches Some(n) ==> reported < n <= 100,
{
    if next > reported && next <= 100 {
        Some(next)
    } else {
        None
    }
}

} // verus!
