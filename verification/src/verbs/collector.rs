//! Bringing results back while a command runs.
//!
//! A failure trace must never exist only on a machine scheduled for
//! destruction, and the interesting failures are the ones that end with the
//! operator giving up and taking the session down.
use vstd::prelude::*;
use vstd::string::*;

use crate::paths::maybe;
use crate::time::Duration;
use crate::verbs::deeds::{outcome, Outcome};

verus! {

/// How long the collector sleeps at a time, in milliseconds. It sleeps in
/// slices so that stopping is prompt: the interval is minutes in some
/// configurations, and a command that finished should not wait one out.
pub const SLICE_MILLIS: u64 = 200;

/// What the collector does next.
#[derive(Debug, Clone, Copy, PartialEq, Eq, Structural)]
pub enum Pace {
    Stop,
    Sleep,
    Pull,
}

/// It stops as soon as it is told to, and otherwise pulls once an interval has
/// passed.
pub open spec fn pace_of(stopped: bool, waited: int, interval: int) -> Pace {
    if stopped {
        Pace::Stop
    } else if waited < interval {
        Pace::Sleep
    } else {
        Pace::Pull
    }
}

pub fn pace(stopped: bool, waited: &Duration, interval: &Duration) -> (r: Pace)
    ensures
        r == pace_of(stopped, waited@, interval@),
{
    if stopped {
        Pace::Stop
    } else if waited.shorter_than(interval) {
        Pace::Sleep
    } else {
        Pace::Pull
    }
}

/// What is said of pulls so far: the first that failed is complained of, and no
/// other. A broken channel would otherwise print on every tick and bury the
/// output of the command itself.
pub open spec fn complaint_of(name: Seq<char>, complained: bool, pull: Outcome) -> Option<
    Seq<char>,
> {
    match pull {
        Err(e) => if complained {
            None
        } else {
            Some(name + ": results are not coming back: "@ + e)
        },
        Ok(_) => None,
    }
}

pub fn complain(name: &str, complained: bool, pull: &Result<(), String>) -> (r: Option<String>)
    ensures
        maybe(r) == complaint_of(name@, complained, outcome(*pull)),
{
    match pull {
        Err(e) => {
            if complained {
                None
            } else {
                Some(name.to_string().concat(": results are not coming back: ").concat(e.as_str()))
            }
        },
        Ok(_) => None,
    }
}

/// How many complaints a row of pulls gives rise to.
pub open spec fn complaints(name: Seq<char>, complained: bool, pulls: Seq<Outcome>) -> nat
    decreases pulls.len(),
{
    if pulls.len() == 0 {
        0
    } else if complaint_of(name, complained, pulls[0]) is Some {
        1 + complaints(name, true, pulls.skip(1))
    } else {
        complaints(name, complained, pulls.skip(1))
    }
}

/// A broken results channel is complained of once, however often it fails; and
/// one that never fails is not complained of at all.
pub proof fn law_a_broken_channel_is_complained_of_once(
    name: Seq<char>,
    complained: bool,
    pulls: Seq<Outcome>,
)
    ensures
        complaints(name, complained, pulls) == (if !complained && exists|i: int|
            0 <= i < pulls.len() && (#[trigger] pulls[i]) is Err {
            1nat
        } else {
            0nat
        }),
    decreases pulls.len(),
{
    if pulls.len() > 0 {
        let rest = pulls.skip(1);
        law_a_broken_channel_is_complained_of_once(name, true, rest);
        law_a_broken_channel_is_complained_of_once(name, complained, rest);
        assert(forall|i: int| 0 <= i < rest.len() ==> rest[i] == pulls[i + 1]);
        if exists|i: int| 0 <= i < pulls.len() && (#[trigger] pulls[i]) is Err {
            let i = choose|i: int| 0 <= i < pulls.len() && (#[trigger] pulls[i]) is Err;
            if i > 0 {
                assert(rest[i - 1] is Err);
            }
        }
    }
}

}
