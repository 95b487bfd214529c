//! Spans of time and moments in it, to the nanosecond.
use vstd::prelude::*;

verus! {

pub const NANOS: u32 = 1_000_000_000;

/// A span of time.
#[derive(Debug, Clone, Copy, PartialEq, Eq, Structural)]
pub struct Duration {
    secs: u64,
    nanos: u32,
}

/// A moment, counted from the epoch and possibly before it.
#[derive(Debug, Clone, Copy, PartialEq, Eq, Structural)]
pub struct SystemTime {
    secs: i64,
    nanos: u32,
}

/// The last moment there is, in nanoseconds since the epoch.
pub open spec fn last_moment() -> int {
    i64::MAX * 1_000_000_000 + 999_999_999
}

/// The first moment there is.
pub open spec fn first_moment() -> int {
    i64::MIN * 1_000_000_000
}

/// The longest span there is.
pub open spec fn longest() -> int {
    u64::MAX * 1_000_000_000 + 999_999_999
}

impl Duration {
    #[verifier::type_invariant]
    spec fn whole(self) -> bool {
        self.nanos < NANOS
    }

    /// The span in nanoseconds.
    pub closed spec fn view(&self) -> int {
        self.secs * 1_000_000_000 + self.nanos
    }

    pub fn new(secs: u64, nanos: u32) -> (r: Duration)
        requires
            nanos < 1_000_000_000,
        ensures
            r@ == secs * 1_000_000_000 + nanos,
    {
        Duration { secs, nanos }
    }

    pub fn from_secs(secs: u64) -> (r: Duration)
        ensures
            r@ == secs * 1_000_000_000,
    {
        Duration { secs, nanos: 0 }
    }

    /// The whole seconds of the span.
    pub fn as_secs(&self) -> (r: u64)
        ensures
            r == self@ / 1_000_000_000,
    {
        proof {
            use_type_invariant(self);
        }
        self.secs
    }

    /// What the span has beyond its whole seconds.
    pub fn subsec_nanos(&self) -> (r: u32)
        ensures
            r == self@ % 1_000_000_000,
    {
        proof {
            use_type_invariant(self);
        }
        self.nanos
    }

    pub fn shorter_than(&self, other: &Duration) -> (r: bool)
        ensures
            r == (self@ < other@),
    {
        proof {
            use_type_invariant(self);
            use_type_invariant(other);
        }
        self.secs < other.secs || (self.secs == other.secs && self.nanos < other.nanos)
    }

    /// What is left of the span without another, unless the other is longer.
    pub fn checked_sub(&self, other: &Duration) -> (r: Option<Duration>)
        ensures
            match r {
                Some(d) => d@ == self@ - other@,
                None => self@ < other@,
            },
    {
        proof {
            use_type_invariant(self);
            use_type_invariant(other);
        }
        if self.shorter_than(other) {
            None
        } else if self.nanos >= other.nanos {
            Some(Duration { secs: self.secs - other.secs, nanos: self.nanos - other.nanos })
        } else {
            Some(
                Duration {
                    secs: self.secs - other.secs - 1,
                    nanos: self.nanos + NANOS - other.nanos,
                },
            )
        }
    }

    /// The two spans one after the other, unless that is longer than any span.
    pub fn checked_add(&self, other: &Duration) -> (r: Option<Duration>)
        ensures
            match r {
                Some(d) => d@ == self@ + other@,
                None => self@ + other@ > longest(),
            },
    {
        proof {
            use_type_invariant(self);
            use_type_invariant(other);
        }
        let nanos: u32 = self.nanos + other.nanos;
        match self.secs.checked_add(other.secs) {
            None => None,
            Some(secs) => if nanos < NANOS {
                Some(Duration { secs, nanos })
            } else if secs < u64::MAX {
                Some(Duration { secs: secs + 1, nanos: nanos - NANOS })
            } else {
                None
            },
        }
    }

    /// A span is never negative, and never longer than the longest.
    pub fn bounds(&self)
        ensures
            0 <= self@ <= longest(),
    {
        proof {
            use_type_invariant(self);
        }
    }
}

impl SystemTime {
    #[verifier::type_invariant]
    spec fn whole(self) -> bool {
        self.nanos < NANOS
    }

    /// The nanoseconds since the epoch.
    pub closed spec fn view(&self) -> int {
        self.secs * 1_000_000_000 + self.nanos
    }

    /// The moment so many whole seconds and nanoseconds after the epoch. The
    /// seconds may be negative; the nanoseconds always count forward.
    pub fn new(secs: i64, nanos: u32) -> (r: SystemTime)
        requires
            nanos < 1_000_000_000,
        ensures
            r@ == secs * 1_000_000_000 + nanos,
    {
        SystemTime { secs, nanos }
    }

    /// The moment so many seconds after the epoch.
    pub closed spec fn of_secs(secs: nat) -> SystemTime {
        SystemTime { secs: secs as i64, nanos: 0 }
    }

    /// The moment so many seconds after the epoch, if there is one.
    pub fn from_secs(secs: u64) -> (r: Option<SystemTime>)
        ensures
            r == (if secs <= i64::MAX {
                Some(SystemTime::of_secs(secs as nat))
            } else {
                None
            }),
            r is Some ==> r->0@ == secs * 1_000_000_000,
    {
        if secs <= 0x7fff_ffff_ffff_ffff {
            Some(SystemTime { secs: secs as i64, nanos: 0 })
        } else {
            None
        }
    }

    pub fn epoch() -> (r: SystemTime)
        ensures
            r@ == 0,
    {
        SystemTime { secs: 0, nanos: 0 }
    }

    /// Every moment lies between the first and the last.
    pub fn bounds(&self)
        ensures
            first_moment() <= self@ <= last_moment(),
    {
        proof {
            use_type_invariant(self);
        }
    }

    /// How long after `earlier` this moment is, unless it is before it.
    pub fn duration_since(&self, earlier: &SystemTime) -> (r: Option<Duration>)
        ensures
            match r {
                Some(d) => d@ == self@ - earlier@,
                None => self@ < earlier@,
            },
    {
        proof {
            use_type_invariant(self);
            use_type_invariant(earlier);
        }
        if self.secs < earlier.secs || (self.secs == earlier.secs && self.nanos < earlier.nanos) {
            return None;
        }
        let secs: i128 = self.secs as i128 - earlier.secs as i128;
        if self.nanos >= earlier.nanos {
            Some(Duration { secs: secs as u64, nanos: self.nanos - earlier.nanos })
        } else {
            Some(Duration { secs: (secs - 1) as u64, nanos: self.nanos + NANOS - earlier.nanos })
        }
    }

    /// The moment so much later, unless there is none.
    pub fn checked_add(&self, d: &Duration) -> (r: Option<SystemTime>)
        ensures
            match r {
                Some(t) => t@ == self@ + d@,
                None => self@ + d@ > last_moment(),
            },
    {
        proof {
            use_type_invariant(self);
            use_type_invariant(d);
        }
        let carry: bool = self.nanos + d.nanos >= NANOS;
        let secs: i128 = self.secs as i128 + d.secs as i128 + if carry {
            1
        } else {
            0
        };
        if secs > i64::MAX as i128 {
            return None;
        }
        let nanos: u32 = if carry {
            self.nanos + d.nanos - NANOS
        } else {
            self.nanos + d.nanos
        };
        Some(SystemTime { secs: secs as i64, nanos })
    }

    /// The moment so much earlier, unless there is none.
    pub fn checked_sub(&self, d: &Duration) -> (r: Option<SystemTime>)
        ensures
            match r {
                Some(t) => t@ == self@ - d@,
                None => self@ - d@ < first_moment(),
            },
    {
        proof {
            use_type_invariant(self);
            use_type_invariant(d);
        }
        let borrow: bool = self.nanos < d.nanos;
        let secs: i128 = self.secs as i128 - d.secs as i128 - if borrow {
            1
        } else {
            0
        };
        if secs < i64::MIN as i128 {
            return None;
        }
        let nanos: u32 = if borrow {
            self.nanos + NANOS - d.nanos
        } else {
            self.nanos - d.nanos
        };
        Some(SystemTime { secs: secs as i64, nanos })
    }

    /// Whole seconds since the epoch, cut off; nothing before the epoch.
    pub fn epoch_secs(&self) -> (r: u64)
        ensures
            r == (if self@ < 0 {
                0
            } else {
                self@ / 1_000_000_000
            }),
    {
        proof {
            use_type_invariant(self);
        }
        if self.secs < 0 {
            0
        } else {
            self.secs as u64
        }
    }

    pub fn is_before(&self, other: &SystemTime) -> (r: bool)
        ensures
            r == (self@ < other@),
    {
        proof {
            use_type_invariant(self);
            use_type_invariant(other);
        }
        self.secs < other.secs || (self.secs == other.secs && self.nanos < other.nanos)
    }
}

}
