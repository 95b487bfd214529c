//! Getting work into a session, and results back out.
use vstd::prelude::*;
use vstd::string::*;

use crate::address::{address_text, Address};
use crate::config::Config;
use crate::manifest::Manifest;
use crate::paths::{joined, maybe};
use crate::scan::{has_blank, lines as text_lines};
use crate::session::Session;
use crate::sync::{
    deletions, host, pull, pull_options, push_options, removals, results_dir, rsh_wrapper, slashed,
    sync_error_text, wrapper, SyncErrorView, RESULTS,
};
use crate::text::{dec, decimal, texts};
use crate::time::SystemTime;
use crate::transport::SshView;
use crate::verbs::common::{
    address_of, expiry_note, expiry_words, implied, implied_sessions, no_address, ssh_to,
    state_file, state_name, transport, workspace, workspace_of, Here, RUNNER_PATH,
};
use crate::verbs::deeds::{
    ask, ask_done, ask_text, done, lines, now, plain_talk, reached, say, told, unit_talk,
    value_talk, warn, within, Deed, DeedView, Line, Outcome, Reply, Said, Talk, TalkView,
};

verus! {

/// Everything that working in a session goes by.
pub struct Work<'a> {
    pub cfg: &'a Config,
    pub manifest: &'a Manifest,
    /// Where the session store is.
    pub store: &'a str,
    /// The tree that is worked on.
    pub tree: &'a str,
    /// When the verb began.
    pub start: SystemTime,
}

// ---------------------------------------------------------------------------
// The steps that the verbs share
// ---------------------------------------------------------------------------

pub open spec fn workspace_deed(s: Session, project: Seq<char>) -> DeedView {
    Deed::Run {
        session: s.name@,
        address: s.address->0,
        command: RUNNER_PATH@ + " workspace --project "@ + project,
        what: "making the workspace"@,
    }
}

/// Delivering the runner. It is delivered before every remote operation, not
/// once at creation: it means the runner in a session can never be an older
/// version of itself than the verb driving it.
pub open spec fn delivered(s: Session, r: Seq<Reply>, i: int, said: Said) -> TalkView<
    Result<Address, Seq<char>>,
> {
    match s.address {
        None => TalkView::Done(Err(no_address(s)), i, said),
        Some(a) => match done(
            r,
            i,
            ask(said, 0, Deed::UploadRunner { session: s.name@, address: a }),
        ) {
            TalkView::Ask(q) => TalkView::Ask(q),
            TalkView::Done(Err(e), n, t) => TalkView::Done(Err(e), n, t),
            TalkView::Done(Ok(_), n, t) => TalkView::Done(Ok(a), n, t),
        },
    }
}

/// Reaching a session and asking the runner where the project's tree and
/// results live.
pub open spec fn opened(
    s: Session,
    project: Seq<char>,
    r: Seq<Reply>,
    i: int,
    said: Said,
) -> TalkView<Result<(Address, Seq<char>, Seq<char>), Seq<char>>> {
    match delivered(s, r, i, said) {
        TalkView::Ask(q) => TalkView::Ask(q),
        TalkView::Done(Err(e), n, t) => TalkView::Done(Err(e), n, t),
        TalkView::Done(Ok(a), n, t) => match told(r, n, ask(t, 0, workspace_deed(s, project))) {
            TalkView::Ask(q) => TalkView::Ask(q),
            TalkView::Done(Err(e), n, t) => TalkView::Done(Err(e), n, t),
            TalkView::Done(Ok(reply), n, t) => match workspace_of(reply) {
                Err(e) => TalkView::Done(Err(e), n, t),
                Ok((w, o)) => TalkView::Done(Ok((a, w, o)), n, t),
            },
        },
    }
}

/// Writing the script that rsync uses in place of ssh.
pub open spec fn wrapped(
    cfg: Config,
    store: Seq<char>,
    name: Seq<char>,
    a: Address,
    r: Seq<Reply>,
    i: int,
    said: Said,
) -> TalkView<Result<Seq<char>, Seq<char>>> {
    let path = state_name(store, "rsh"@, name);
    if has_blank(path) {
        TalkView::Done(Err(sync_error_text(SyncErrorView::UnusablePath { path })), i, said)
    } else {
        match done(
            r,
            i,
            ask(
                said,
                0,
                Deed::WriteScript { path, script: wrapper(transport(cfg, store, name, a)) },
            ),
        ) {
            TalkView::Ask(q) => TalkView::Ask(q),
            TalkView::Done(Err(e), n, t) => TalkView::Done(Err(e), n, t),
            TalkView::Done(Ok(_), n, t) => TalkView::Done(Ok(path), n, t),
        }
    }
}

/// The arguments of a backward sync.
pub open spec fn pull_args(ssh: SshView, rsh: Seq<char>, out: Seq<char>, tree: Seq<char>) -> Seq<
    Seq<char>,
> {
    pull_options(ssh) + seq![
        "-e"@,
        rsh,
        host(ssh) + ":"@ + slashed(out),
        slashed(joined(tree, RESULTS@)),
    ]
}

pub open spec fn pull_deed(cfg: Config, ssh: SshView, rsh: Seq<char>, out: Seq<char>, tree: Seq<char>) -> DeedView {
    Deed::Execute {
        program: cfg.session.rsync_command@,
        args: pull_args(ssh, rsh, out, tree),
    }
}

/// One pass of results back out.
pub open spec fn pulled(
    cfg: Config,
    ssh: SshView,
    rsh: Seq<char>,
    out: Seq<char>,
    tree: Seq<char>,
    r: Seq<Reply>,
    i: int,
    said: Said,
) -> TalkView<Outcome> {
    match told(r, i, ask(said, 0, pull_deed(cfg, ssh, rsh, out, tree))) {
        TalkView::Ask(q) => TalkView::Ask(q),
        TalkView::Done(Err(e), n, t) => TalkView::Done(Err(e), n, t),
        TalkView::Done(Ok(_), n, t) => TalkView::Done(Ok(()), n, t),
    }
}

/// Making the directory that results land in.
pub open spec fn landed(tree: Seq<char>, r: Seq<Reply>, i: int, said: Said) -> TalkView<Outcome> {
    done(r, i, ask(said, 0, Deed::MakeDir(joined(tree, RESULTS@))))
}

pub open spec fn place_talk(t: Talk<Result<(Address, String, String), String>>) -> TalkView<
    Result<(Address, Seq<char>, Seq<char>), Seq<char>>,
> {
    match t {
        Talk::Ask(a) => TalkView::Ask(a@),
        Talk::Done(v, n, s) => TalkView::Done(
            match v {
                Ok(x) => Ok((x.0, x.1@, x.2@)),
                Err(e) => Err(e@),
            },
            n as int,
            lines(s@),
        ),
    }
}

pub fn deliver_runner(x: &Session, r: &Vec<Reply>, i: usize, said: Vec<Line>) -> (t: Talk<
    Result<Address, String>,
>)
    requires
        i <= r@.len(),
    ensures
        value_talk(t) == delivered(*x, r@, i as int, lines(said@)),
        within(t, i, r@),
{
    let a = match address_of(x) {
        Ok(a) => a,
        Err(e) => {
            return Talk::Done(Err(e), i, said);
        },
    };
    match ask_done(r, i, said, 0, Deed::UploadRunner { session: x.name.clone(), address: a }) {
        Talk::Ask(q) => Talk::Ask(q),
        Talk::Done(v, n, t) => match v {
            Err(e) => Talk::Done(Err(e), n, t),
            Ok(_) => Talk::Done(Ok(a), n, t),
        },
    }
}

pub fn open(x: &Session, project: &str, r: &Vec<Reply>, i: usize, said: Vec<Line>) -> (t: Talk<
    Result<(Address, String, String), String>,
>)
    requires
        i <= r@.len(),
    ensures
        place_talk(t) == opened(*x, project@, r@, i as int, lines(said@)),
        within(t, i, r@),
{
    match deliver_runner(x, r, i, said) {
        Talk::Ask(q) => Talk::Ask(q),
        Talk::Done(v, n, t) => match v {
            Err(e) => Talk::Done(Err(e), n, t),
            Ok(a) => {
                let deed = Deed::Run {
                    session: x.name.clone(),
                    address: a,
                    command: RUNNER_PATH.to_string().concat(" workspace --project ").concat(
                        project,
                    ),
                    what: "making the workspace".to_string(),
                };
                match ask_text(r, n, t, 0, deed) {
                    Talk::Ask(q) => Talk::Ask(q),
                    Talk::Done(v, n, t) => match v {
                        Err(e) => Talk::Done(Err(e), n, t),
                        Ok(reply) => match workspace(reply.as_str()) {
                            Err(e) => Talk::Done(Err(e), n, t),
                            Ok((w, o)) => Talk::Done(Ok((a, w, o)), n, t),
                        },
                    },
                }
            },
        },
    }
}

pub fn wrap(cfg: &Config, store: &str, name: &str, a: Address, r: &Vec<Reply>, i: usize, said: Vec<Line>) -> (t:
    Talk<Result<String, String>>)
    requires
        i <= r@.len(),
    ensures
        crate::verbs::deeds::text_talk(t) == wrapped(
            *cfg,
            store@,
            name@,
            a,
            r@,
            i as int,
            lines(said@),
        ),
        within(t, i, r@),
{
    let path = state_file(store, "rsh", name);
    let ssh = ssh_to(cfg, store, name, a);
    let script = match rsh_wrapper(&ssh, path.as_str()) {
        Ok(s) => s,
        Err(e) => {
            return Talk::Done(Err(e.message()), i, said);
        },
    };
    match ask_done(r, i, said, 0, Deed::WriteScript { path: path.clone(), script }) {
        Talk::Ask(q) => Talk::Ask(q),
        Talk::Done(v, n, t) => match v {
            Err(e) => Talk::Done(Err(e), n, t),
            Ok(_) => Talk::Done(Ok(path), n, t),
        },
    }
}

pub fn pull_once(
    cfg: &Config,
    store: &str,
    name: &str,
    a: Address,
    rsh: &str,
    out: &str,
    tree: &str,
    r: &Vec<Reply>,
    i: usize,
    said: Vec<Line>,
) -> (t: Talk<Result<(), String>>)
    requires
        i <= r@.len(),
    ensures
        unit_talk(t) == pulled(
            *cfg,
            transport(*cfg, store@, name@, a),
            rsh@,
            out@,
            tree@,
            r@,
            i as int,
            lines(said@),
        ),
        within(t, i, r@),
{
    let ssh = ssh_to(cfg, store, name, a);
    let local = results_dir(tree);
    let plan = pull(cfg.session.rsync_command.as_str(), rsh, &ssh, out, local.as_str());
    match ask_text(r, i, said, 0, Deed::Execute { program: plan.program, args: plan.args }) {
        Talk::Ask(q) => Talk::Ask(q),
        Talk::Done(v, n, t) => match v {
            Err(e) => Talk::Done(Err(e), n, t),
            Ok(_) => Talk::Done(Ok(()), n, t),
        },
    }
}

pub fn make_landing(tree: &str, r: &Vec<Reply>, i: usize, said: Vec<Line>) -> (t: Talk<
    Result<(), String>,
>)
    requires
        i <= r@.len(),
    ensures
        unit_talk(t) == landed(tree@, r@, i as int, lines(said@)),
        within(t, i, r@),
{
    ask_done(r, i, said, 0, Deed::MakeDir(results_dir(tree)))
}

/// The lines that report a failure in one session, with the expiry where that
/// is the likely reason.
pub open spec fn reported(
    said: Said,
    x: Session,
    text: Seq<char>,
    at: SystemTime,
) -> Said {
    let s = said.push((true, text));
    match expiry_words(x, at) {
        Some(w) => s.push((true, w)),
        None => s,
    }
}

pub fn report(said: Vec<Line>, x: &Session, text: String, at: &SystemTime) -> (r: Vec<Line>)
    ensures
        lines(r@) == reported(lines(said@), *x, text@, *at),
{
    let s = warn(said, text);
    match expiry_note(x, at) {
        Some(w) => warn(s, w),
        None => s,
    }
}

// ---------------------------------------------------------------------------
// The last results
// ---------------------------------------------------------------------------

/// One reverse sync of a session's results.
pub open spec fn gathered(
    cfg: Config,
    store: Seq<char>,
    x: Session,
    tree: Seq<char>,
    r: Seq<Reply>,
    i: int,
    said: Said,
) -> TalkView<Outcome> {
    match opened(x, x.project@, r, i, said) {
        TalkView::Ask(q) => TalkView::Ask(q),
        TalkView::Done(Err(e), n, t) => TalkView::Done(Err(e), n, t),
        TalkView::Done(Ok(p), n, t) => match wrapped(cfg, store, x.name@, p.0, r, n, t) {
            TalkView::Ask(q) => TalkView::Ask(q),
            TalkView::Done(Err(e), n, t) => TalkView::Done(Err(e), n, t),
            TalkView::Done(Ok(rsh), n, t) => match landed(tree, r, n, t) {
                TalkView::Ask(q) => TalkView::Ask(q),
                TalkView::Done(Err(e), n, t) => TalkView::Done(Err(e), n, t),
                TalkView::Done(Ok(_), n, t) => pulled(
                    cfg,
                    transport(cfg, store, x.name@, p.0),
                    rsh,
                    p.2,
                    tree,
                    r,
                    n,
                    t,
                ),
            },
        },
    }
}

/// One last reverse sync before a machine is destroyed.
///
/// Best-effort throughout, and never allowed to stop a destroy: a machine that
/// cannot be reached is exactly the machine most in need of being taken down.
/// Nothing is collected of a session into which nothing was ever pushed, and
/// where this is not the session's project its results have nowhere to land.
pub open spec fn collected(
    cfg: Config,
    store: Seq<char>,
    x: Session,
    tree: Option<Seq<char>>,
    start: SystemTime,
    r: Seq<Reply>,
    i: int,
    said: Said,
) -> TalkView<()> {
    if x.synced_at is None {
        TalkView::Done((), i, said)
    } else {
        match tree {
            None => TalkView::Done(
                (),
                i,
                said.push(
                    (
                        true,
                        x.name@ + ": not standing in "@ + x.project@
                            + ", so its results have nowhere to land. Run `reaper sync` from the project before taking it down if you want them"@,
                    ),
                ),
            ),
            Some(t) => match gathered(cfg, store, x, t, r, i, said) {
                TalkView::Ask(q) => TalkView::Ask(q),
                TalkView::Done(Ok(_), n, s) => TalkView::Done(
                    (),
                    n,
                    s.push((false, x.name@ + ": results collected"@)),
                ),
                TalkView::Done(Err(e), n, s) => TalkView::Done(
                    (),
                    n,
                    reported(
                        s,
                        x,
                        x.name@ + ": could not collect results before destroying it: "@ + e,
                        reached(r, n, start),
                    ),
                ),
            },
        }
    }
}

fn gather(
    cfg: &Config,
    store: &str,
    x: &Session,
    tree: &str,
    r: &Vec<Reply>,
    i: usize,
    said: Vec<Line>,
) -> (t: Talk<Result<(), String>>)
    requires
        i <= r@.len(),
    ensures
        unit_talk(t) == gathered(*cfg, store@, *x, tree@, r@, i as int, lines(said@)),
        within(t, i, r@),
{
    let (a, out, n, t) = match open(x, x.project.as_str(), r, i, said) {
        Talk::Ask(q) => {
            return Talk::Ask(q);
        },
        Talk::Done(v, n, t) => match v {
            Err(e) => {
                return Talk::Done(Err(e), n, t);
            },
            Ok((a, _, o)) => (a, o, n, t),
        },
    };
    let (rsh, n, t) = match wrap(cfg, store, x.name.as_str(), a, r, n, t) {
        Talk::Ask(q) => {
            return Talk::Ask(q);
        },
        Talk::Done(v, n, t) => match v {
            Err(e) => {
                return Talk::Done(Err(e), n, t);
            },
            Ok(p) => (p, n, t),
        },
    };
    match make_landing(tree, r, n, t) {
        Talk::Ask(q) => Talk::Ask(q),
        Talk::Done(v, n, t) => match v {
            Err(e) => Talk::Done(Err(e), n, t),
            Ok(_) => pull_once(
                cfg,
                store,
                x.name.as_str(),
                a,
                rsh.as_str(),
                out.as_str(),
                tree,
                r,
                n,
                t,
            ),
        },
    }
}

pub fn collect_last_results(
    cfg: &Config,
    store: &str,
    x: &Session,
    tree: Option<&str>,
    start: &SystemTime,
    r: &Vec<Reply>,
    i: usize,
    said: Vec<Line>,
) -> (t: Talk<()>)
    requires
        i <= r@.len(),
    ensures
        plain_talk(t) == collected(
            *cfg,
            store@,
            *x,
            match tree {
                Some(t) => Some(t@),
                None => None,
            },
            *start,
            r@,
            i as int,
            lines(said@),
        ),
        within(t, i, r@),
{
    if x.synced_at.is_none() {
        return Talk::Done((), i, said);
    }
    let here = match tree {
        None => {
            let line = x.name.clone().concat(": not standing in ").concat(
                x.project.as_str(),
            ).concat(
                ", so its results have nowhere to land. Run `reaper sync` from the project before taking it down if you want them",
            );
            return Talk::Done((), i, warn(said, line));
        },
        Some(t) => t,
    };
    match gather(cfg, store, x, here, r, i, said) {
        Talk::Ask(q) => Talk::Ask(q),
        Talk::Done(v, n, s) => match v {
            Ok(_) => Talk::Done((), n, say(s, x.name.clone().concat(": results collected"))),
            Err(e) => {
                let text = x.name.clone().concat(
                    ": could not collect results before destroying it: ",
                ).concat(e.as_str());
                let at = now(r, n, start);
                Talk::Done((), n, report(s, x, text, &at))
            },
        },
    }
}

// ---------------------------------------------------------------------------
// sync
// ---------------------------------------------------------------------------

pub open spec fn push_deed(w: Work, ssh: SshView, rsh: Seq<char>, work: Seq<char>) -> DeedView {
    Deed::Execute {
        program: w.cfg.session.rsync_command@,
        args: push_options(ssh, texts(w.manifest.sync_exclude@)) + seq![
            "-e"@,
            rsh,
            slashed(w.tree@),
            host(ssh) + ":"@ + slashed(work),
        ],
    }
}

/// How many paths went, said out loud: the alternative is inferring it.
pub open spec fn removed_words(said: Said, name: Seq<char>, output: Seq<char>) -> Said {
    let n = removals(text_lines(output));
    if n > 0 {
        said.push(
            (false, name + ": "@ + dec(n) + " path(s) removed there to match the tree here"@),
        )
    } else {
        said
    }
}

/// The tree into one session, and straight back, so a session that already
/// holds results hands them over on the first sync.
#[verifier::opaque]
pub open spec fn synced(w: Work, x: Session, r: Seq<Reply>, i: int, said: Said) -> TalkView<
    Outcome,
> {
    match opened(x, w.manifest.project@, r, i, said) {
        TalkView::Ask(q) => TalkView::Ask(q),
        TalkView::Done(Err(e), n, t) => TalkView::Done(Err(e), n, t),
        TalkView::Done(Ok(p), n, t) => {
            let ssh = transport(*w.cfg, w.store@, x.name@, p.0);
            match wrapped(*w.cfg, w.store@, x.name@, p.0, r, n, t) {
                TalkView::Ask(q) => TalkView::Ask(q),
                TalkView::Done(Err(e), n, t) => TalkView::Done(Err(e), n, t),
                TalkView::Done(Ok(rsh), n, t) => {
                    let t2 = t.push(
                        (
                            false,
                            x.name@ + ": "@ + w.tree@ + " -> "@ + (w.cfg.session.ssh_user@ + "@"@
                                + address_text(p.0)),
                        ),
                    );
                    match told(r, n, ask(t2, 0, push_deed(w, ssh, rsh, p.1))) {
                        TalkView::Ask(q) => TalkView::Ask(q),
                        TalkView::Done(Err(e), n, t) => TalkView::Done(Err(e), n, t),
                        TalkView::Done(Ok(output), n, t) => handed_back(
                            w,
                            x,
                            ssh,
                            rsh,
                            p.2,
                            r,
                            n,
                            removed_words(t, x.name@, output),
                        ),
                    }
                },
            }
        },
    }
}

/// What follows the push: it is recorded, and the results come back.
pub open spec fn handed_back(
    w: Work,
    x: Session,
    ssh: SshView,
    rsh: Seq<char>,
    out: Seq<char>,
    r: Seq<Reply>,
    i: int,
    said: Said,
) -> TalkView<Outcome> {
    match done(
        r,
        i,
        ask(said, 0, Deed::RecordSync(x.name@, reached(r, i, w.start)@)),
    ) {
        TalkView::Ask(q) => TalkView::Ask(q),
        TalkView::Done(Err(e), n, t) => TalkView::Done(Err(e), n, t),
        TalkView::Done(Ok(_), n, t) => match landed(w.tree@, r, n, t) {
            TalkView::Ask(q) => TalkView::Ask(q),
            TalkView::Done(Err(e), n, t) => TalkView::Done(Err(e), n, t),
            TalkView::Done(Ok(_), n, t) => match pulled(
                *w.cfg,
                ssh,
                rsh,
                out,
                w.tree@,
                r,
                n,
                t,
            ) {
                TalkView::Ask(q) => TalkView::Ask(q),
                TalkView::Done(Err(e), n, t) => TalkView::Done(Err(e), n, t),
                TalkView::Done(Ok(_), n, t) => TalkView::Done(
                    Ok(()),
                    n,
                    t.push((false, x.name@ + ": synced"@)),
                ),
            },
        },
    }
}

/// The end of a verb that goes on past failures: how many there were.
pub open spec fn tally(failures: nat, words: Seq<char>) -> Outcome {
    if failures > 0 {
        Err(dec(failures) + words)
    } else {
        Ok(())
    }
}

pub fn total(failures: u64, words: &str) -> (r: Result<(), String>)
    ensures
        crate::verbs::deeds::outcome(r) == tally(failures as nat, words@),
{
    if failures > 0 {
        Err(decimal(failures).concat(words))
    } else {
        Ok(())
    }
}

/// Each session, to the end: an unreachable machine costs itself, never its
/// siblings their copy of the tree.
pub open spec fn all_synced(
    w: Work,
    v: Seq<Session>,
    failures: nat,
    r: Seq<Reply>,
    i: int,
    said: Said,
) -> TalkView<Outcome>
    decreases v.len(),
{
    if v.len() == 0 {
        TalkView::Done(tally(failures, " session(s) could not be synced"@), i, said)
    } else {
        match synced(w, v[0], r, i, said) {
            TalkView::Ask(q) => TalkView::Ask(q),
            TalkView::Done(Ok(_), n, t) => all_synced(w, v.skip(1), failures, r, n, t),
            TalkView::Done(Err(e), n, t) => all_synced(
                w,
                v.skip(1),
                failures + 1,
                r,
                n,
                reported(
                    t,
                    v[0],
                    v[0].name@ + ": could not sync: "@ + e,
                    reached(r, n, w.start),
                ),
            ),
        }
    }
}

/// `sync`: the working tree into the sessions, and results back out.
pub open spec fn sync_talk(
    w: Work,
    session: Option<Seq<char>>,
    r: Seq<Reply>,
    i: int,
    said: Said,
) -> TalkView<Outcome> {
    match implied(session, Some(w.manifest.project@), Here::Absent, r, i, said) {
        TalkView::Ask(q) => TalkView::Ask(q),
        TalkView::Done(Err(e), n, t) => TalkView::Done(Err(e), n, t),
        TalkView::Done(Ok(v), n, t) => all_synced(w, v, 0, r, n, t),
    }
}

fn hand_back(
    w: &Work,
    x: &Session,
    a: Address,
    rsh: &str,
    out: &str,
    r: &Vec<Reply>,
    i: usize,
    said: Vec<Line>,
) -> (t: Talk<Result<(), String>>)
    requires
        i <= r@.len(),
    ensures
        unit_talk(t) == handed_back(
            *w,
            *x,
            transport(*w.cfg, w.store@, x.name@, a),
            rsh@,
            out@,
            r@,
            i as int,
            lines(said@),
        ),
        within(t, i, r@),
{
    let at = now(r, i, &w.start);
    let (n, t) = match ask_done(r, i, said, 0, Deed::RecordSync(x.name.clone(), at)) {
        Talk::Ask(q) => {
            return Talk::Ask(q);
        },
        Talk::Done(v, n, t) => match v {
            Err(e) => {
                return Talk::Done(Err(e), n, t);
            },
            Ok(_) => (n, t),
        },
    };
    let (n, t) = match make_landing(w.tree, r, n, t) {
        Talk::Ask(q) => {
            return Talk::Ask(q);
        },
        Talk::Done(v, n, t) => match v {
            Err(e) => {
                return Talk::Done(Err(e), n, t);
            },
            Ok(_) => (n, t),
        },
    };
    match pull_once(w.cfg, w.store, x.name.as_str(), a, rsh, out, w.tree, r, n, t) {
        Talk::Ask(q) => Talk::Ask(q),
        Talk::Done(v, n, t) => match v {
            Err(e) => Talk::Done(Err(e), n, t),
            Ok(_) => Talk::Done(Ok(()), n, say(t, x.name.clone().concat(": synced"))),
        },
    }
}

fn sync_one(w: &Work, x: &Session, r: &Vec<Reply>, i: usize, said: Vec<Line>) -> (t: Talk<
    Result<(), String>,
>)
    requires
        i <= r@.len(),
    ensures
        unit_talk(t) == synced(*w, *x, r@, i as int, lines(said@)),
        within(t, i, r@),
{
    proof {
        reveal(synced);
    }
    let (a, work, out, n, t) = match open(x, w.manifest.project.as_str(), r, i, said) {
        Talk::Ask(q) => {
            return Talk::Ask(q);
        },
        Talk::Done(v, n, t) => match v {
            Err(e) => {
                return Talk::Done(Err(e), n, t);
            },
            Ok((a, k, o)) => (a, k, o, n, t),
        },
    };
    let (rsh, n, t) = match wrap(w.cfg, w.store, x.name.as_str(), a, r, n, t) {
        Talk::Ask(q) => {
            return Talk::Ask(q);
        },
        Talk::Done(v, n, t) => match v {
            Err(e) => {
                return Talk::Done(Err(e), n, t);
            },
            Ok(p) => (p, n, t),
        },
    };
    let ssh = ssh_to(w.cfg, w.store, x.name.as_str(), a);
    let t2 = say(
        t,
        x.name.clone().concat(": ").concat(w.tree).concat(" -> ").concat(
            ssh.describe().as_str(),
        ),
    );
    let plan = crate::sync::push(
        w.cfg.session.rsync_command.as_str(),
        rsh.as_str(),
        &ssh,
        w.tree,
        work.as_str(),
        &w.manifest.sync_exclude,
    );
    match ask_text(r, n, t2, 0, Deed::Execute { program: plan.program, args: plan.args }) {
        Talk::Ask(q) => Talk::Ask(q),
        Talk::Done(v, n, t) => match v {
            Err(e) => Talk::Done(Err(e), n, t),
            Ok(output) => {
                let gone: usize = deletions(output.as_str());
                let t = if gone > 0 {
                    say(
                        t,
                        x.name.clone().concat(": ").concat(decimal(gone as u64).as_str()).concat(
                            " path(s) removed there to match the tree here",
                        ),
                    )
                } else {
                    t
                };
                hand_back(w, x, a, rsh.as_str(), out.as_str(), r, n, t)
            },
        },
    }
}

fn sync_all(w: &Work, v: &Vec<Session>, r: &Vec<Reply>, i: usize, said: Vec<Line>) -> (t: Talk<
    Result<(), String>,
>)
    requires
        i <= r@.len(),
    ensures
        unit_talk(t) == all_synced(*w, v@, 0, r@, i as int, lines(said@)),
        within(t, i, r@),
{
    let ghost whole = all_synced(*w, v@, 0, r@, i as int, lines(said@));
    let mut at: usize = i;
    let mut lately: Vec<Line> = said;
    let mut failures: u64 = 0;
    let mut k: usize = 0;
    assert(v@.skip(0) =~= v@);
    while k < v.len()
        invariant
            k <= v@.len(),
            failures <= k,
            i <= at <= r@.len(),
            whole == all_synced(*w, v@, 0, r@, i as int, lines(said@)),
            whole == all_synced(
                *w,
                v@.skip(k as int),
                failures as nat,
                r@,
                at as int,
                lines(lately@),
            ),
        decreases v@.len() - k,
    {
        assert(v@.skip(k as int)[0] == v@[k as int]);
        assert(v@.skip(k as int).skip(1) =~= v@.skip(k + 1));
        match sync_one(w, &v[k], r, at, lately) {
            Talk::Ask(q) => {
                return Talk::Ask(q);
            },
            Talk::Done(o, n, t) => {
                at = n;
                match o {
                    Ok(_) => {
                        lately = t;
                    },
                    Err(e) => {
                        failures += 1;
                        let text = v[k].name.clone().concat(": could not sync: ").concat(
                            e.as_str(),
                        );
                        let when = now(r, n, &w.start);
                        lately = report(t, &v[k], text, &when);
                    },
                }
            },
        }
        k += 1;
    }
    Talk::Done(total(failures, " session(s) could not be synced"), at, lately)
}

/// Copy the working tree into a session, and results back out.
pub fn sync(
    w: &Work,
    session: &Option<String>,
    r: &Vec<Reply>,
    i: usize,
    said: Vec<Line>,
) -> (t: Talk<Result<(), String>>)
    requires
        i <= r@.len(),
    ensures
        unit_talk(t) == sync_talk(*w, maybe(*session), r@, i as int, lines(said@)),
        within(t, i, r@),
{
    let project = Some(w.manifest.project.clone());
    match implied_sessions(session, &project, &Here::Absent, r, i, said) {
        Talk::Ask(q) => Talk::Ask(q),
        Talk::Done(v, n, t) => match v {
            Err(e) => Talk::Done(Err(e), n, t),
            Ok(all) => sync_all(w, &all, r, n, t),
        },
    }
}

}
