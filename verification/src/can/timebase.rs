//! Maps a hardware clock onto the capture timeline.
use vstd::prelude::*;

verus! {

/// Maps a hardware clock into the monotonic capture timeline while preserving the distances that
/// the device measured. The first sample is anchored to its arrival at the host; later samples do
/// not inherit the scheduling jitter of the host.
#[derive(Clone, Copy, Debug)]
pub struct HardwareTimebase {
    /// Length of one tick in nanoseconds.
    pub tick_nanos: u64,
    /// The number of values of the hardware counter, where it wraps.
    pub wrap_modulus: Option<u64>,
    pub wrap_offset: u64,
    pub previous_raw: Option<u64>,
    pub anchor_raw: Option<u64>,
    pub anchor_host: i64,
}

/// `a + b`, held at the end of the range of `u64`.
pub open spec fn capped_sum(a: u64, b: u64) -> u64 {
    if a + b > u64::MAX {
        u64::MAX
    } else {
        (a + b) as u64
    }
}

impl HardwareTimebase {
    /// Whether the counter went through its end between the previous sample and `raw`.
    pub open spec fn wraps(&self, raw: u64) -> bool {
        match (self.wrap_modulus, self.previous_raw) {
            (Some(modulus), Some(previous)) => raw < previous && previous - raw > modulus / 2,
            _ => false,
        }
    }

    /// The offset of the counter's current round.
    pub open spec fn offset_after(&self, raw: u64) -> u64 {
        if self.wraps(raw) {
            capped_sum(self.wrap_offset, self.wrap_modulus->0)
        } else {
            self.wrap_offset
        }
    }

    /// The counter value of `raw` with the rounds before it.
    pub open spec fn extended(&self, raw: u64) -> u64 {
        capped_sum(self.offset_after(raw), raw)
    }

    /// The time of a sample: the distance to the anchor in ticks, on top of the anchor's time,
    /// held at the end of the range of `i64`.
    pub open spec fn time_of(&self, raw: u64, host_now: i64) -> int {
        match self.anchor_raw {
            None => host_now as int,
            Some(anchor) => {
                let ticks = if self.extended(raw) > anchor {
                    self.extended(raw) - anchor
                } else {
                    0
                };
                let t = self.anchor_host + ticks * self.tick_nanos;
                if t > i64::MAX {
                    i64::MAX as int
                } else {
                    t
                }
            },
        }
    }

    /// The clock after a sample.
    pub open spec fn after(&self, raw: u64, host_now: i64) -> HardwareTimebase {
        HardwareTimebase {
            tick_nanos: self.tick_nanos,
            wrap_modulus: self.wrap_modulus,
            wrap_offset: self.offset_after(raw),
            previous_raw: Some(raw),
            anchor_raw: if self.anchor_raw is None {
                Some(self.extended(raw))
            } else {
                self.anchor_raw
            },
            anchor_host: if self.anchor_raw is None {
                host_now
            } else {
                self.anchor_host
            },
        }
    }

    /// A clock without samples, for a counter of `counter_bits` bits or one that never wraps.
    pub fn new(tick_nanos: u64, counter_bits: Option<u32>) -> (r: HardwareTimebase)
        requires
            counter_bits matches Some(bits) ==> bits < 64,
        ensures
            r.tick_nanos == tick_nanos,
            r.wrap_modulus == (match counter_bits {
                Some(bits) => Some(1u64 << bits as u64),
                None => None,
            }),
            r.wrap_offset == 0,
            r.previous_raw is None,
            r.anchor_raw is None,
            r.anchor_host == 0,
    {
        let wrap_modulus: Option<u64> = match counter_bits {
            Some(bits) => Some(1u64 << bits as u64),
            None => None,
        };
        HardwareTimebase {
            tick_nanos,
            wrap_modulus,
            wrap_offset: 0,
            previous_raw: None,
            anchor_raw: None,
            anchor_host: 0,
        }
    }

    /// The time of a hardware sample that arrived at `host_now`.
    pub fn map(&mut self, raw: u64, host_now: i64) -> (r: i64)
        ensures
            r as int == old(self).time_of(raw, host_now),
            *final(self) == old(self).after(raw, host_now),
    {
        if let (Some(modulus), Some(previous)) = (self.wrap_modulus, self.previous_raw) {
            if raw < previous && previous - raw > modulus / 2 {
                self.wrap_offset = self.wrap_offset.saturating_add(modulus);
            }
        }
        self.previous_raw = Some(raw);
        let extended: u64 = self.wrap_offset.saturating_add(raw);
        match self.anchor_raw {
            None => {
                self.anchor_host = host_now;
                self.anchor_raw = Some(extended);
                host_now
            },
            Some(anchor) => {
                let ticks: u64 = extended.saturating_sub(anchor);
                assert(0 <= ticks * self.tick_nanos <= u64::MAX * u64::MAX) by (nonlinear_arith)
                    requires
                        0 <= ticks <= u64::MAX,
                        0 <= self.tick_nanos <= u64::MAX,
                ;
                let span: u128 = ticks as u128 * self.tick_nanos as u128;
                let room: i128 = i64::MAX as i128 - self.anchor_host as i128;
                if span > room as u128 {
                    i64::MAX
                } else {
                    (self.anchor_host as i128 + span as i128) as i64
                }
            },
        }
    }
}

/// Two samples lie as far apart as the device says, whenever they reached the host: the distance
/// of their times is the distance of their counter values in ticks.
pub proof fn law_device_distances_are_kept(
    clock: HardwareTimebase,
    raw: u64,
    later: u64,
    host_now: i64,
    host_later: i64,
)
    requires
        clock.anchor_raw is Some,
        clock.extended(raw) >= clock.anchor_raw->0,
        clock.after(raw, host_now).extended(later) >= clock.extended(raw),
        clock.after(raw, host_now).time_of(later, host_later) < i64::MAX,
    ensures
        clock.after(raw, host_now).time_of(later, host_later) - clock.time_of(raw, host_now) == (
        clock.after(raw, host_now).extended(later) - clock.extended(raw)) * clock.tick_nanos,
{
    let anchor = clock.anchor_raw->0;
    let a = clock.extended(raw) - anchor;
    let b = clock.after(raw, host_now).extended(later) - anchor;
    let k = clock.tick_nanos as int;
    assert(a * k <= b * k) by (nonlinear_arith)
        requires
            a <= b,
            k >= 0,
    ;
    assert((b - a) * k == b * k - a * k) by (nonlinear_arith);
}

/// The times of a clock never run backwards while its extended counter does not.
pub proof fn law_times_follow_the_counter(
    clock: HardwareTimebase,
    raw: u64,
    later: u64,
    host_now: i64,
    host_later: i64,
)
    requires
        clock.anchor_raw is Some,
        clock.after(raw, host_now).extended(later) >= clock.extended(raw),
    ensures
        clock.after(raw, host_now).time_of(later, host_later) >= clock.time_of(raw, host_now),
{
    let anchor = clock.anchor_raw->0;
    let a = if clock.extended(raw) > anchor {
        clock.extended(raw) - anchor
    } else {
        0
    };
    let e = clock.after(raw, host_now).extended(later);
    let b = if e > anchor {
        e - anchor
    } else {
        0
    };
    let k = clock.tick_nanos as int;
    assert(a * k <= b * k) by (nonlinear_arith)
        requires
            a <= b,
            k >= 0,
    ;
}

} // verus!
