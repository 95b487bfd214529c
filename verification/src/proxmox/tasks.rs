//! Waiting: for a task to end, for a machine to stop, for a refusal to be told
//! apart from an absence.
use vstd::prelude::*;
use vstd::string::*;

use crate::json::{text_at, text_in, Json, JsonView};
use crate::provider::ProviderError;
use crate::proxmox::api::{
    answer, ask_get, ask_listing, ask_post, error_run, get, get_again, is_late, listing_request,
    path_to_task, path_to_vm, posting, reached, replies_view, run_view, send, sent, task_path,
    time_reached, vm_path, within, Answer, Reply, ReplyView, Run, RunView,
};
use crate::proxmox::cluster::{held, is_taken, items_of, taken, text_or_empty, text_or_none};
use crate::proxmox::config::Config;
use crate::text::{debug_text, dec, decimal, quoted, same};

verus! {

/// A failure that may mean that the machine is gone.
pub open spec fn ambiguous(e: ProviderError<Seq<char>>) -> bool {
    e is NotFound || e is Unauthorized
}

pub fn is_ambiguous(e: &ProviderError) -> (r: bool)
    ensures
        r == ambiguous(e@),
{
    match e {
        ProviderError::NotFound(_) => true,
        ProviderError::Unauthorized(_) => true,
        _ => false,
    }
}

/// What is said of a machine that is gone.
pub open spec fn gone(id: nat) -> ProviderError<Seq<char>> {
    ProviderError::NotFound("machine "@ + dec(id) + " no longer exists"@)
}

pub fn gone_error(id: u32) -> (r: ProviderError)
    ensures
        r@ == gone(id as nat),
{
    ProviderError::NotFound(
        "machine ".to_string().concat(decimal(id as u64).as_str()).concat(" no longer exists"),
    )
}

// ---------------------------------------------------------------------------
// Tasks
// ---------------------------------------------------------------------------

/// What a task that stopped came to: success is the literal `OK`, and
/// everything else is the reason it failed.
pub open spec fn task_ended(task: Seq<char>, data: JsonView) -> Answer<()> {
    let exit = text_or_empty(data, "exitstatus"@);
    if exit == "OK"@ {
        Ok(())
    } else {
        Err(
            ProviderError::Api {
                status: 200,
                message: "task "@ + task + " finished with: "@ + exit,
            },
        )
    }
}

pub open spec fn task_timeout(
    task: Seq<char>,
    status: Seq<char>,
    limit: int,
) -> ProviderError<Seq<char>> {
    ProviderError::Timeout(
        "task "@ + task + " was still "@ + debug_text(status) + " after "@ + dec(
            (limit / 1_000_000_000) as nat,
        )
            + "s; leaving it alone, since its outcome is unknown. The expiry tag means nothing is leaked"@,
    )
}

/// Polling a task until it stops, or until its time is up, or until the third
/// failed poll in a row.
pub open spec fn polled(
    c: Config,
    task: Seq<char>,
    since: int,
    r: Seq<ReplyView>,
    i: int,
    failures: int,
    again: bool,
) -> RunView<Answer<()>>
    decreases r.len() - i,
{
    if i >= r.len() {
        RunView::Ask(get_again(task_path(c.node@, task), again))
    } else {
        let late = r[i].at - since >= c.task_timeout@;
        match r[i].answer {
            Err(e) => if failures + 1 >= 3 || late {
                RunView::Done(Err(e), i + 1)
            } else {
                polled(c, task, since, r, i + 1, failures + 1, true)
            },
            Ok(data) => if text_or_empty(data, "status"@) == "stopped"@ {
                RunView::Done(task_ended(task, data), i + 1)
            } else if late {
                RunView::Done(
                    Err(task_timeout(task, text_or_empty(data, "status"@), c.task_timeout@)),
                    i + 1,
                )
            } else {
                polled(c, task, since, r, i + 1, 0, true)
            },
        }
    }
}

/// Waiting for the task that a reply handed over.
pub open spec fn waited(c: Config, task: JsonView, r: Seq<ReplyView>, i: int) -> RunView<
    Answer<()>,
> {
    match text_in(task) {
        None => RunView::Done(
            Err(
                ProviderError::Api {
                    status: 200,
                    message: "expected a task handle, got something else"@,
                },
            ),
            i,
        ),
        Some(upid) => polled(c, upid, reached(r, i), r, i, 0, false),
    }
}

fn end_of_task(task: &str, data: &Json) -> (r: Result<(), ProviderError>)
    ensures
        answer(r) == task_ended(task@, data@),
{
    let exit = text_or_none(data, "exitstatus");
    if same(exit.as_str(), "OK") {
        Ok(())
    } else {
        Err(
            ProviderError::Api {
                status: 200,
                message: "task ".to_string().concat(task).concat(" finished with: ").concat(
                    exit.as_str(),
                ),
            },
        )
    }
}

/// Wait for an asynchronous operation to finish.
///
/// Proxmox answers most mutations with a task handle rather than a result, so
/// "the call returned" and "the thing happened" are different events, and only
/// the second one matters. A few bad polls are absorbed: only a *persistently*
/// unreachable API is worth giving up on early. A timeout is deliberately *not*
/// a cue to clean up, since the outcome is unknown.
pub fn wait_for_task(c: &Config, task: &str, r: &Vec<Reply>, from: usize) -> (run: Run<
    Result<(), ProviderError>,
>)
    requires
        from <= r@.len(),
    ensures
        run_view(run) == polled(
            *c,
            task@,
            reached(replies_view(r@), from as int),
            replies_view(r@),
            from as int,
            0,
            false,
        ),
        within(run, from, r@),
{
    let ghost v = replies_view(r@);
    let since = time_reached(r, from);
    let mut i: usize = from;
    let mut failures: u32 = 0;
    let mut again: bool = false;
    while i < r.len()
        invariant
            from <= i <= r@.len(),
            v == replies_view(r@),
            since@ == reached(v, from as int),
            failures < 3,
            polled(*c, task@, since@, v, from as int, 0, false) == polled(
                *c,
                task@,
                since@,
                v,
                i as int,
                failures as int,
                again,
            ),
        decreases r@.len() - i,
    {
        assert(v[i as int] == r@[i as int]@);
        let late = is_late(&r[i].at, &since, &c.task_timeout);
        match &r[i].answer {
            Err(e) => {
                if failures + 1 >= 3 || late {
                    return Run::Done(Err(e.copy()), i + 1);
                }
                failures += 1;
            },
            Ok(data) => {
                let status = text_or_none(data, "status");
                if same(status.as_str(), "stopped") {
                    return Run::Done(end_of_task(task, data), i + 1);
                }
                if late {
                    let e = ProviderError::Timeout(
                        "task ".to_string().concat(task).concat(" was still ").concat(
                            quoted(status.as_str()).as_str(),
                        ).concat(" after ").concat(
                            decimal(c.task_timeout.as_secs()).as_str(),
                        ).concat(
                            "s; leaving it alone, since its outcome is unknown. The expiry tag means nothing is leaked",
                        ),
                    );
                    return Run::Done(Err(e), i + 1);
                }
                failures = 0;
            },
        }
        again = true;
        i += 1;
    }
    Run::Ask(ask_get(path_to_task(c.node.as_str(), task), again))
}

/// Wait for the task that a reply handed over.
pub fn wait(c: &Config, task: &Json, r: &Vec<Reply>, i: usize) -> (run: Run<
    Result<(), ProviderError>,
>)
    requires
        i <= r@.len(),
    ensures
        run_view(run) == waited(*c, task@, replies_view(r@), i as int),
        within(run, i, r@),
{
    match task.as_text() {
        None => Run::Done(
            Err(
                ProviderError::Api {
                    status: 200,
                    message: "expected a task handle, got something else".to_string(),
                },
            ),
            i,
        ),
        Some(upid) => wait_for_task(c, upid.as_str(), r, i),
    }
}

// ---------------------------------------------------------------------------
// Gone, or refused?
// ---------------------------------------------------------------------------

pub open spec fn current(c: Config, id: nat) -> Seq<char> {
    vm_path(c.node@, id, "/status/current"@)
}

/// A failure, once the listing has told an absence from a refusal.
pub open spec fn disambiguated(
    id: u32,
    e: ProviderError<Seq<char>>,
    r: Seq<ReplyView>,
    i: int,
) -> RunView<ProviderError<Seq<char>>> {
    if !ambiguous(e) {
        RunView::Done(e, i)
    } else {
        match sent(r, i, listing_request()) {
            RunView::Ask(q) => RunView::Ask(q),
            RunView::Done(a, n) => RunView::Done(
                match a {
                    Ok(data) => if taken(held(data), id) {
                        e
                    } else {
                        gone(id as nat)
                    },
                    Err(_) => e,
                },
                n,
            ),
        }
    }
}

/// The 403 trap, in one place: on a pool-scoped token every per-VM route
/// answers a *gone* machine with "Permission check failed", because the ACL
/// check precedes the existence check. Any refusal for a machine the cluster
/// listing no longer shows means gone, not forbidden.
pub fn disambiguate(id: u32, e: ProviderError, r: &Vec<Reply>, i: usize) -> (run: Run<
    ProviderError,
>)
    requires
        i <= r@.len(),
    ensures
        error_run(run) == disambiguated(id, e@, replies_view(r@), i as int),
        within(run, i, r@),
{
    if !is_ambiguous(&e) {
        return Run::Done(e, i);
    }
    match send(r, i, ask_listing()) {
        Run::Ask(q) => Run::Ask(q),
        Run::Done(a, n) => match a {
            Ok(data) => if is_taken(&items_of(&data), id) {
                Run::Done(e, n)
            } else {
                Run::Done(gone_error(id), n)
            },
            Err(_) => Run::Done(e, n),
        },
    }
}

/// Whether a machine still exists.
pub open spec fn existence(c: Config, id: u32, r: Seq<ReplyView>, i: int) -> RunView<Answer<bool>> {
    match sent(r, i, get(current(c, id as nat))) {
        RunView::Ask(q) => RunView::Ask(q),
        RunView::Done(Ok(_), n) => RunView::Done(Ok(true), n),
        RunView::Done(Err(e), n) => if !ambiguous(e) {
            RunView::Done(Err(e), n)
        } else {
            match sent(r, n, listing_request()) {
                RunView::Ask(q) => RunView::Ask(q),
                RunView::Done(Ok(data), k) => if taken(held(data), id) {
                    RunView::Done(Err(e), k)
                } else {
                    RunView::Done(Ok(false), k)
                },
                RunView::Done(Err(_), k) => RunView::Done(Err(e), k),
            }
        },
    }
}

/// Does this machine still exist, as far as we are concerned?
///
/// Not as simple as asking. For a machine that no longer exists the API
/// answers 403, not 404. A refusal is therefore ambiguous: gone, or a
/// credential problem. It is disambiguated by consulting the listing, which
/// uses a different permission. If the listing works, the credential is fine,
/// and a machine absent from it is genuinely gone. If the listing itself fails,
/// the original refusal is propagated rather than guessed at.
pub fn still_exists(c: &Config, id: u32, r: &Vec<Reply>, i: usize) -> (run: Run<
    Result<bool, ProviderError>,
>)
    requires
        i <= r@.len(),
    ensures
        run_view(run) == existence(*c, id, replies_view(r@), i as int),
        within(run, i, r@),
{
    match send(r, i, ask_get(path_to_vm(c.node.as_str(), id, "/status/current"), false)) {
        Run::Ask(q) => Run::Ask(q),
        Run::Done(a, n) => match a {
            Ok(_) => Run::Done(Ok(true), n),
            Err(e) => {
                if !is_ambiguous(&e) {
                    return Run::Done(Err(e), n);
                }
                match send(r, n, ask_listing()) {
                    Run::Ask(q) => Run::Ask(q),
                    Run::Done(b, k) => match b {
                        Ok(data) => if is_taken(&items_of(&data), id) {
                            Run::Done(Err(e), k)
                        } else {
                            Run::Done(Ok(false), k)
                        },
                        Err(_) => Run::Done(Err(e), k),
                    },
                }
            },
        },
    }
}

// ---------------------------------------------------------------------------
// Running, and stopped
// ---------------------------------------------------------------------------

pub open spec fn running_in(data: JsonView) -> bool {
    text_at(data, "status"@) == Some("running"@)
}

pub fn says_running(data: &Json) -> (r: bool)
    ensures
        r == running_in(data@),
{
    match data.get_text("status") {
        Some(s) => same(s.as_str(), "running"),
        None => false,
    }
}

/// Whether a machine is running.
pub open spec fn running(c: Config, id: u32, r: Seq<ReplyView>, i: int) -> RunView<Answer<bool>> {
    match sent(r, i, get(current(c, id as nat))) {
        RunView::Ask(q) => RunView::Ask(q),
        RunView::Done(Ok(data), n) => RunView::Done(Ok(running_in(data)), n),
        RunView::Done(Err(e), n) => RunView::Done(Err(e), n),
    }
}

pub fn is_running(c: &Config, id: u32, r: &Vec<Reply>, i: usize) -> (run: Run<
    Result<bool, ProviderError>,
>)
    requires
        i <= r@.len(),
    ensures
        run_view(run) == running(*c, id, replies_view(r@), i as int),
        within(run, i, r@),
{
    match send(r, i, ask_get(path_to_vm(c.node.as_str(), id, "/status/current"), false)) {
        Run::Ask(q) => Run::Ask(q),
        Run::Done(a, n) => match a {
            Ok(data) => Run::Done(Ok(says_running(&data)), n),
            Err(e) => Run::Done(Err(e), n),
        },
    }
}

/// Polling a machine until it no longer runs, or until its time is up.
pub open spec fn stopping(
    c: Config,
    id: u32,
    since: int,
    r: Seq<ReplyView>,
    i: int,
    again: bool,
) -> RunView<Answer<()>>
    decreases r.len() - i,
{
    if i >= r.len() {
        RunView::Ask(get_again(current(c, id as nat), again))
    } else {
        match r[i].answer {
            Err(e) => RunView::Done(Err(e), i + 1),
            Ok(data) => if !running_in(data) {
                RunView::Done(Ok(()), i + 1)
            } else if r[i].at - since >= c.task_timeout@ {
                RunView::Done(
                    Err(
                        ProviderError::Timeout(
                            "machine "@ + dec(id as nat) + " was still running "@ + dec(
                                (c.task_timeout@ / 1_000_000_000) as nat,
                            ) + "s after being asked to stop"@,
                        ),
                    ),
                    i + 1,
                )
            } else {
                stopping(c, id, since, r, i + 1, true)
            },
        }
    }
}

/// Wait for a machine to actually be stopped.
///
/// The stop task completing and the machine being stopped are not quite the
/// same instant, and deleting in the gap fails.
pub fn await_stopped(c: &Config, id: u32, r: &Vec<Reply>, from: usize) -> (run: Run<
    Result<(), ProviderError>,
>)
    requires
        from <= r@.len(),
    ensures
        run_view(run) == stopping(
            *c,
            id,
            reached(replies_view(r@), from as int),
            replies_view(r@),
            from as int,
            false,
        ),
        within(run, from, r@),
{
    let ghost v = replies_view(r@);
    let since = time_reached(r, from);
    let mut i: usize = from;
    let mut again: bool = false;
    while i < r.len()
        invariant
            from <= i <= r@.len(),
            v == replies_view(r@),
            since@ == reached(v, from as int),
            stopping(*c, id, since@, v, from as int, false) == stopping(
                *c,
                id,
                since@,
                v,
                i as int,
                again,
            ),
        decreases r@.len() - i,
    {
        assert(v[i as int] == r@[i as int]@);
        match &r[i].answer {
            Err(e) => {
                return Run::Done(Err(e.copy()), i + 1);
            },
            Ok(data) => {
                if !says_running(data) {
                    return Run::Done(Ok(()), i + 1);
                }
                if is_late(&r[i].at, &since, &c.task_timeout) {
                    let e = ProviderError::Timeout(
                        "machine ".to_string().concat(decimal(id as u64).as_str()).concat(
                            " was still running ",
                        ).concat(decimal(c.task_timeout.as_secs()).as_str()).concat(
                            "s after being asked to stop",
                        ),
                    );
                    return Run::Done(Err(e), i + 1);
                }
            },
        }
        again = true;
        i += 1;
    }
    Run::Ask(ask_get(path_to_vm(c.node.as_str(), id, "/status/current"), again))
}

/// Asking for a change that the API makes in a task: a refusal is told from an
/// absence, and the task is waited for.
pub open spec fn switched(c: Config, id: u32, rest: Seq<char>, r: Seq<ReplyView>, i: int) -> RunView<
    Answer<()>,
> {
    match sent(r, i, posting(vm_path(c.node@, id as nat, rest), Seq::empty())) {
        RunView::Ask(q) => RunView::Ask(q),
        RunView::Done(Ok(task), n) => waited(c, task, r, n),
        RunView::Done(Err(e), n) => match disambiguated(id, e, r, n) {
            RunView::Ask(q) => RunView::Ask(q),
            RunView::Done(f, k) => RunView::Done(Err(f), k),
        },
    }
}

pub fn switch(c: &Config, id: u32, rest: &str, r: &Vec<Reply>, i: usize) -> (run: Run<
    Result<(), ProviderError>,
>)
    requires
        i <= r@.len(),
    ensures
        run_view(run) == switched(*c, id, rest@, replies_view(r@), i as int),
        within(run, i, r@),
{
    let form: Vec<(String, String)> = Vec::new();
    assert(crate::proxmox::api::form_view(form@) =~= Seq::empty());
    match send(r, i, ask_post(path_to_vm(c.node.as_str(), id, rest), form)) {
        Run::Ask(q) => Run::Ask(q),
        Run::Done(a, n) => match a {
            Ok(task) => wait(c, &task, r, n),
            Err(e) => match disambiguate(id, e, r, n) {
                Run::Ask(q) => Run::Ask(q),
                Run::Done(f, k) => Run::Done(Err(f), k),
            },
        },
    }
}

}
