//! Points in time as the crate sees them: seconds counted from the Unix
//! epoch, negative before it, and the nanoseconds into that second.

use vstd::prelude::*;

verus! {

/// Nanoseconds that make up one second.
pub const NANOS_PER_SECOND: u32 = 1_000_000_000;

/// A reading of the system clock, or a file's modification time.
///
/// A time is well formed when its nanoseconds stay below one second. Every
/// time that [`ClockTime::new`] or [`ClockTime::from_secs`] makes is well
/// formed, and it is of well-formed times that the order and the distances
/// below mean what their names say.
#[derive(Clone, Copy, Debug, PartialEq, Eq, Structural)]
pub struct ClockTime {
    pub secs: i64,
    pub nanos: u32,
}

/// `a` is strictly earlier than `b`: seconds decide, then nanoseconds. For
/// well-formed times this is the order of the instants they stand for.
pub open spec fn earlier(a: ClockTime, b: ClockTime) -> bool {
    a.secs < b.secs || (a.secs == b.secs && a.nanos < b.nanos)
}

/// The whole seconds that lie between `from` and a time `to` that is not
/// earlier: for well-formed times, the distance of the two instants rounded
/// down to seconds.
pub open spec fn seconds_between(from: ClockTime, to: ClockTime) -> int {
    if to.nanos < from.nanos {
        to.secs - from.secs - 1
    } else {
        to.secs - from.secs
    }
}

/// At least `interval_secs` seconds lie between `from` and `now`, or the
/// clock has gone backwards since `from`.
pub open spec fn interval_elapsed(from: ClockTime, now: ClockTime, interval_secs: u64) -> bool {
    earlier(now, from) || seconds_between(from, now) >= interval_secs
}

impl ClockTime {
    /// The nanoseconds stay below one second.
    pub open spec fn well_formed(self) -> bool {
        self.nanos < NANOS_PER_SECOND
    }

    /// The instant that a time stands for, in nanoseconds from the epoch.
    pub open spec fn total_nanos(self) -> int {
        self.secs * NANOS_PER_SECOND + self.nanos
    }

    /// The time `nanos` nanoseconds into the second `secs`, or nothing if
    /// that many nanoseconds do not fit into one second.
    pub fn new(secs: i64, nanos: u32) -> (out: Option<ClockTime>)
        ensures
            out == if nanos < NANOS_PER_SECOND {
                Some(ClockTime { secs, nanos })
            } else {
                None
            },
            out matches Some(time) ==> time.well_formed(),
    {
        if nanos < NANOS_PER_SECOND {
            Some(ClockTime { secs, nanos })
        } else {
            None
        }
    }

    /// The time `secs` whole seconds after the epoch.
    pub fn from_secs(secs: i64) -> (out: ClockTime)
        ensures
            out == (ClockTime { secs, nanos: 0 }),
            out.well_formed(),
    {
        ClockTime { secs, nanos: 0 }
    }

    /// Tells whether the time is well formed.
    pub fn is_well_formed(&self) -> (out: bool)
        ensures
            out == self.well_formed(),
    {
        self.nanos < NANOS_PER_SECOND
    }

    /// Tells whether `self` is strictly earlier than `other`.
    pub fn is_before(&self, other: &ClockTime) -> (out: bool)
        ensures
            out == earlier(*self, *other),
    {
        self.secs < other.secs || (self.secs == other.secs && self.nanos < other.nanos)
    }

    /// The whole seconds that have passed since `from`, or nothing when
    /// `from` lies in the future.
    pub fn seconds_since(&self, from: &ClockTime) -> (out: Option<u64>)
        ensures
            out == if earlier(*self, *from) {
                None
            } else {
                Some(seconds_between(*from, *self) as u64)
            },
            !earlier(*self, *from) ==> 0 <= seconds_between(*from, *self) <= u64::MAX,
    {
        if self.is_before(from) {
            return None;
        }
        let to_secs: i128 = self.secs as i128;
        let from_secs: i128 = from.secs as i128;
        let whole: i128 = if self.nanos < from.nanos {
            to_secs - from_secs - 1
        } else {
            to_secs - from_secs
        };
        Some(whole as u64)
    }
}

/// Of well-formed times, the earlier one is the earlier instant.
pub proof fn lemma_earlier_is_the_order_of_instants(a: ClockTime, b: ClockTime)
    requires
        a.well_formed(),
        b.well_formed(),
    ensures
        earlier(a, b) <==> a.total_nanos() < b.total_nanos(),
        a == b <==> a.total_nanos() == b.total_nanos(),
{
    let unit = NANOS_PER_SECOND as int;
    if a.secs < b.secs {
        assert(a.secs * unit + unit <= b.secs * unit) by (nonlinear_arith)
            requires
                a.secs < b.secs,
                unit > 0,
        ;
    } else if b.secs < a.secs {
        assert(b.secs * unit + unit <= a.secs * unit) by (nonlinear_arith)
            requires
                b.secs < a.secs,
                unit > 0,
        ;
    }
}

/// Of well-formed times, the seconds between two are the distance of their
/// instants in nanoseconds, divided by the nanoseconds of a second and
/// rounded down.
pub proof fn lemma_seconds_between_is_the_distance(from: ClockTime, to: ClockTime)
    requires
        from.well_formed(),
        to.well_formed(),
        !earlier(to, from),
    ensures
        seconds_between(from, to) == (to.total_nanos() - from.total_nanos()) / (
        NANOS_PER_SECOND as int),
        seconds_between(from, to) >= 0,
{
    let unit = NANOS_PER_SECOND as int;
    let whole = seconds_between(from, to);
    let rest = if to.nanos < from.nanos {
        to.nanos - from.nanos + unit
    } else {
        to.nanos - from.nanos
    };
    assert(to.total_nanos() - from.total_nanos() == whole * unit + rest) by (nonlinear_arith)
        requires
            whole == if to.nanos < from.nanos {
                to.secs - from.secs - 1
            } else {
                to.secs - from.secs
            },
            rest == if to.nanos < from.nanos {
                to.nanos - from.nanos + unit
            } else {
                to.nanos - from.nanos
            },
            to.total_nanos() == to.secs * unit + to.nanos,
            from.total_nanos() == from.secs * unit + from.nanos,
    ;
    vstd::arithmetic::div_mod::lemma_fundamental_div_mod_converse(
        to.total_nanos() - from.total_nanos(),
        unit,
        whole,
        rest,
    );
}

/// Decides [`interval_elapsed`].
pub fn has_interval_elapsed(from: ClockTime, now: ClockTime, interval_secs: u64) -> (out: bool)
    ensures
        out == interval_elapsed(from, now, interval_secs),
{
    match now.seconds_since(&from) {
        Some(passed) => passed >= interval_secs,
        None => true,
    }
}

} // verus!
