//! The small amount of process handling the heartbeat needs.
use vstd::prelude::*;
use vstd::string::*;

use crate::scan::{contains, holds};

verus! {

/// Is a recorded process still the heartbeat that was recorded, or has the
/// system reused its identifier?
///
/// `Some(true)` when the process exists and its command line says heartbeat,
/// `Some(false)` when it exists and says something else, `None` when it is
/// gone. Where the command line of a live process cannot be learnt, the honest
/// reply is "not verifiably ours", never "go ahead".
pub open spec fn heartbeat_verdict(alive: bool, args: Option<Seq<char>>) -> Option<bool> {
    if alive {
        match args {
            Some(a) => Some(contains(a, "heartbeat"@)),
            None => Some(false),
        }
    } else {
        None
    }
}

pub fn looks_like_heartbeat(alive: bool, args: &Option<String>) -> (r: Option<bool>)
    ensures
        r == heartbeat_verdict(alive, crate::paths::maybe(*args)),
{
    if !alive {
        return None;
    }
    match args {
        Some(a) => Some(holds(a.as_str(), "heartbeat")),
        None => Some(false),
    }
}

/// How often a process that was asked to stop is looked at before it is made
/// to.
pub const PATIENCE: usize = 20;

/// What to do next about a process that is to stop. Each but the last ends
/// with looking whether the process is alive.
#[derive(Debug, Clone, Copy, PartialEq, Eq, Structural)]
pub enum StopStep {
    Look,
    /// Ask it to stop.
    Terminate,
    /// Give it a moment.
    Wait,
    /// Give it a moment, make it stop, and give it another.
    Kill,
    /// Whether it stopped.
    Done(bool),
}

/// It was seen gone.
pub open spec fn seen_gone(looks: Seq<bool>) -> bool {
    exists|i: int| 0 <= i < looks.len() && !(#[trigger] looks[i])
}

/// How a process is stopped. Polite first: the heartbeat has nothing to clean
/// up, but a process that is given no chance to exit is a process whose logs
/// end mid-sentence. It escalates only if the request is ignored.
pub open spec fn stopping(looks: Seq<bool>) -> StopStep {
    if seen_gone(looks) {
        StopStep::Done(true)
    } else if looks.len() == 0 {
        StopStep::Look
    } else if looks.len() == 1 {
        StopStep::Terminate
    } else if looks.len() <= PATIENCE {
        StopStep::Wait
    } else if looks.len() == PATIENCE + 1 {
        StopStep::Kill
    } else {
        StopStep::Done(false)
    }
}

/// The next step, after each look so far found the process alive or not.
pub fn stop(looks: &Vec<bool>) -> (r: StopStep)
    ensures
        r == stopping(looks@),
{
    let mut i: usize = 0;
    while i < looks.len()
        invariant
            i <= looks@.len(),
            forall|j: int| 0 <= j < i ==> #[trigger] looks@[j],
        decreases looks@.len() - i,
    {
        if !looks[i] {
            assert(!looks@[i as int]);
            return StopStep::Done(true);
        }
        i += 1;
    }
    assert(!seen_gone(looks@));
    if looks.len() == 0 {
        StopStep::Look
    } else if looks.len() == 1 {
        StopStep::Terminate
    } else if looks.len() <= PATIENCE {
        StopStep::Wait
    } else if looks.len() == PATIENCE + 1 {
        StopStep::Kill
    } else {
        StopStep::Done(false)
    }
}

/// Force comes only after the request was ignored for as long as patience
/// lasts, and a process that is seen gone is left alone from then on.
pub proof fn law_force_comes_last(looks: Seq<bool>)
    ensures
        stopping(looks) is Kill ==> looks.len() == PATIENCE + 1 && forall|i: int|
            0 <= i < looks.len() ==> #[trigger] looks[i],
        forall|more: Seq<bool>|
            seen_gone(looks) ==> #[trigger] stopping(looks + more) == StopStep::Done(true),
{
    assert forall|more: Seq<bool>| seen_gone(looks) implies #[trigger] stopping(looks + more)
        == StopStep::Done(true) by {
        let i = choose|i: int| 0 <= i < looks.len() && !(#[trigger] looks[i]);
        assert(!(looks + more)[i]);
    }
}

}
