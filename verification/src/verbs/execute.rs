//! Running a project's own commands in its sessions.
use vstd::prelude::*;
use vstd::string::*;

use crate::address::Address;
use crate::dict::{find, Dict};
use crate::job::{exports, laid_over, overlay, preamble, render};
use crate::manifest::{guest_named, Exec, Guest, Manifest, Profile};
use crate::paths::maybe;
use crate::scan::{contains, holds};
use crate::session::Session;
use crate::sync::{pull, results_dir};
use crate::text::{debug_text, quoted, texts};
use crate::verbs::common::{
    complain_of_profile, implied, implied_sessions, no_profile, ssh_to, transport, Here, JOB_PATH,
    PRISTINE, RUNNER_PATH,
};
use crate::verbs::deeds::{
    ask, ask_done, ask_text, done, lines, now, plain_talk, reached, say, told, unit_talk, warn,
    within, Deed, DeedView, Line, Outcome, Reply, Said, Talk, TalkView,
};
use crate::verbs::work::{
    landed, make_landing, open, opened, pull_args, pull_once, pulled, report, reported, tally,
    total, wrap, wrapped, Work,
};

verus! {

/// Which of a guest's two commands to run. They differ in what they execute and
/// in nothing else, which is why they share a path.
#[derive(Debug, Clone, Copy, PartialEq, Eq, Structural)]
pub enum Verb {
    Build,
    Run,
}

pub open spec fn label_of(v: Verb) -> Seq<char> {
    match v {
        Verb::Build => "build"@,
        Verb::Run => "run"@,
    }
}

impl Verb {
    pub fn label(self) -> (r: &'static str)
        ensures
            r@ == label_of(self),
    {
        match self {
            Verb::Build => "build",
            Verb::Run => "run",
        }
    }
}

// ---------------------------------------------------------------------------
// What is to be run
// ---------------------------------------------------------------------------

/// The profile that was asked for.
pub open spec fn profile_of(m: Manifest, name: Option<Seq<char>>) -> Result<
    Option<Profile>,
    Seq<char>,
> {
    match name {
        None => Ok(None),
        Some(n) => match find(m.profiles@, n) {
            Some(p) => Ok(Some(p)),
            None => Err(no_profile(m, n)),
        },
    }
}

/// No guest of the manifest builds.
pub open spec fn builds_nothing(m: Manifest) -> bool {
    forall|i: int| 0 <= i < m.guests@.len() ==> (#[trigger] m.guests@[i]).build is None
}

pub fn builds(m: &Manifest) -> (r: bool)
    ensures
        r == !builds_nothing(*m),
{
    let mut i: usize = 0;
    while i < m.guests.len()
        invariant
            i <= m.guests@.len(),
            forall|k: int| 0 <= k < i ==> (#[trigger] m.guests@[k]).build is None,
        decreases m.guests@.len() - i,
    {
        if m.guests[i].build.is_some() {
            return true;
        }
        i += 1;
    }
    false
}

/// What a verb runs on a guest.
pub struct Order {
    pub cmd: Seq<char>,
    pub env: Seq<(Seq<char>, String)>,
    pub image: Option<Seq<char>>,
    pub mode: Exec,
}

/// What a verb runs on a guest; nothing where the guest does not build.
pub open spec fn order(g: Guest, v: Verb) -> Option<Order> {
    match v {
        Verb::Run => Some(
            Order {
                cmd: g.run.cmd@,
                env: g.run.env@,
                image: maybe(g.run.image),
                mode: g.run.mode,
            },
        ),
        Verb::Build => match g.build {
            Some(b) => Some(
                Order { cmd: b.cmd@, env: b.env@, image: maybe(b.image), mode: b.mode },
            ),
            None => None,
        },
    }
}

/// A cold profile still names every cache; what changes is that the runner
/// gives it an empty one.
pub open spec fn is_warm(p: Option<Profile>) -> bool {
    match p {
        Some(x) => x.warm_cache != Some(false),
        None => true,
    }
}

pub open spec fn environment(o: Order, p: Option<Profile>) -> Seq<(Seq<char>, String)> {
    match p {
        Some(x) => laid_over(o.env, x.env@),
        None => o.env,
    }
}

pub open spec fn script_of(o: Order, p: Option<Profile>) -> Seq<char> {
    preamble() + exports(environment(o, p)) + o.cmd + "\n"@
}

pub open spec fn cache_options(caches: Seq<Seq<char>>) -> Seq<char>
    decreases caches.len(),
{
    if caches.len() == 0 {
        Seq::empty()
    } else {
        cache_options(caches.drop_last()) + " --cache "@ + caches.last()
    }
}

pub open spec fn caches_of(g: Guest) -> Seq<Seq<char>> {
    match g.build {
        Some(b) => texts(b.cache@),
        None => Seq::empty(),
    }
}

/// The image that a command runs in: only under container execution.
pub open spec fn image_option(o: Order) -> Seq<char> {
    match o.mode {
        Exec::Container => " --image "@ + o.image->0,
        Exec::Host => Seq::empty(),
    }
}

pub open spec fn command_of(m: Manifest, g: Guest, o: Order, warm: bool) -> Seq<char> {
    RUNNER_PATH@ + " exec --project "@ + m.project@ + " --job "@ + JOB_PATH@ + image_option(o)
        + cache_options(caches_of(g)) + (if warm {
        Seq::empty()
    } else {
        " --cold"@
    })
}

// ---------------------------------------------------------------------------
// One session
// ---------------------------------------------------------------------------

pub open spec fn pristine_deed(name: Seq<char>, a: Address, dataset: Seq<char>) -> DeedView {
    Deed::Run {
        session: name,
        address: a,
        command: RUNNER_PATH@ + " snapshot --dataset "@ + dataset + " --name "@ + PRISTINE@
            + " --if-absent"@,
        what: "taking the pristine snapshot"@,
    }
}

/// Taking the pristine snapshot after a run, if the tenant wants resets and has
/// none yet: the state *after* the whole run. A failure is not fatal. The run
/// succeeded, and that is what was asked for.
pub open spec fn pristine_taken(
    name: Seq<char>,
    a: Address,
    datasets: Seq<Seq<char>>,
    r: Seq<Reply>,
    i: int,
    said: Said,
) -> TalkView<()>
    decreases datasets.len(),
{
    if datasets.len() == 0 {
        TalkView::Done((), i, said)
    } else {
        let d = datasets[0];
        match told(r, i, ask(said, 0, pristine_deed(name, a, d))) {
            TalkView::Ask(q) => TalkView::Ask(q),
            TalkView::Done(o, n, t) => pristine_taken(
                name,
                a,
                datasets.skip(1),
                r,
                n,
                pristine_words(t, name, d, o),
            ),
        }
    }
}

pub open spec fn pristine_words(
    said: Said,
    name: Seq<char>,
    d: Seq<char>,
    o: Result<Seq<char>, Seq<char>>,
) -> Said {
    match o {
        Ok(out) => if contains(out, "snapshot="@) {
            said.push(
                (
                    false,
                    name + ": "@ + d + " snapshotted as "@ + PRISTINE@
                        + " -- as it stands now, after this run. `reaper snapshot` names an earlier point if you want one"@,
                ),
            )
        } else {
            said
        },
        Err(e) => said.push((true, name + ": could not take "@ + PRISTINE@ + ": "@ + e)),
    }
}

/// What a command and the last pass of its results came to. The last pass
/// happens whatever the command did, and before its failure is reported: a
/// failed run is exactly when its trace matters.
pub open spec fn concluded(
    w: Work,
    x: Session,
    v: Verb,
    a: Address,
    ran: Outcome,
    last: Outcome,
    r: Seq<Reply>,
    i: int,
    said: Said,
) -> TalkView<Outcome> {
    match (ran, last) {
        (Err(e), Ok(_)) => TalkView::Done(Err(e), i, said),
        (Err(e), Err(p)) => TalkView::Done(
            Err(e),
            i,
            said.push((true, x.name@ + ": results could not be collected: "@ + p)),
        ),
        (Ok(_), Err(p)) => TalkView::Done(Err(p), i, said),
        (Ok(_), Ok(_)) => {
            let s = said.push((false, x.name@ + ": "@ + label_of(v) + " finished"@));
            if v == Verb::Run {
                match pristine_taken(x.name@, a, texts(w.manifest.reset@), r, i, s) {
                    TalkView::Ask(q) => TalkView::Ask(q),
                    TalkView::Done(_, n, t) => TalkView::Done(Ok(()), n, t),
                }
            } else {
                TalkView::Done(Ok(()), i, s)
            }
        },
    }
}

/// Running the command itself, with results flowing back meanwhile. A failure
/// trace must never exist only on a machine scheduled for destruction.
pub open spec fn ran(
    w: Work,
    x: Session,
    g: Guest,
    v: Verb,
    o: Order,
    warm: bool,
    a: Address,
    rsh: Seq<char>,
    out: Seq<char>,
    r: Seq<Reply>,
    i: int,
    said: Said,
) -> TalkView<Outcome> {
    let ssh = transport(*w.cfg, w.store@, x.name@, a);
    let s = said.push(
        (
            false,
            x.name@ + ": "@ + label_of(v) + " on "@ + g.name@ + (if warm {
                Seq::empty()
            } else {
                " (cold)"@
            }),
        ),
    );
    match done(
        r,
        i,
        ask(
            s,
            0,
            Deed::RunCollecting {
                session: x.name@,
                address: a,
                command: command_of(*w.manifest, g, o, warm),
                what: label_of(v),
                program: w.cfg.session.rsync_command@,
                args: pull_args(ssh, rsh, out, w.tree@),
            },
        ),
    ) {
        TalkView::Ask(q) => TalkView::Ask(q),
        TalkView::Done(outcome, n, t) => match pulled(
            *w.cfg,
            ssh,
            rsh,
            out,
            w.tree@,
            r,
            n,
            t,
        ) {
            TalkView::Ask(q) => TalkView::Ask(q),
            TalkView::Done(last, n, t) => concluded(w, x, v, a, outcome, last, r, n, t),
        },
    }
}

/// Everything that running a command in one session takes.
#[verifier::opaque]
pub open spec fn attempted(
    w: Work,
    x: Session,
    g: Guest,
    v: Verb,
    o: Order,
    p: Option<Profile>,
    r: Seq<Reply>,
    i: int,
    said: Said,
) -> TalkView<Outcome> {
    match opened(x, w.manifest.project@, r, i, said) {
        TalkView::Ask(q) => TalkView::Ask(q),
        TalkView::Done(Err(e), n, t) => TalkView::Done(Err(e), n, t),
        TalkView::Done(Ok(at), n, t) => match done(
            r,
            n,
            ask(
                t,
                0,
                Deed::UploadJob { session: x.name@, address: at.0, script: script_of(o, p) },
            ),
        ) {
            TalkView::Ask(q) => TalkView::Ask(q),
            TalkView::Done(Err(e), n, t) => TalkView::Done(Err(e), n, t),
            TalkView::Done(Ok(_), n, t) => match wrapped(
                *w.cfg,
                w.store@,
                x.name@,
                at.0,
                r,
                n,
                t,
            ) {
                TalkView::Ask(q) => TalkView::Ask(q),
                TalkView::Done(Err(e), n, t) => TalkView::Done(Err(e), n, t),
                TalkView::Done(Ok(rsh), n, t) => match landed(w.tree@, r, n, t) {
                    TalkView::Ask(q) => TalkView::Ask(q),
                    TalkView::Done(Err(e), n, t) => TalkView::Done(Err(e), n, t),
                    TalkView::Done(Ok(_), n, t) => ran(
                        w,
                        x,
                        g,
                        v,
                        o,
                        is_warm(p),
                        at.0,
                        rsh,
                        at.2,
                        r,
                        n,
                        t,
                    ),
                },
            },
        },
    }
}

/// Why a verb cannot be run in a session at all, if it cannot.
pub open spec fn obstacle(m: Manifest, x: Session, v: Verb) -> Option<Seq<char>> {
    if x.synced_at is None {
        // Nothing has ever been pushed, so the workspace is empty.
        Some(
            x.name@ + ": nothing has been synced into it yet, so there is nothing to "@ + label_of(
                v,
            )
                + ". `reaper sync` pushes the tree (and `reaper test` does all of this in order)"@,
        )
    } else {
        match guest_named(m.guests@, x.guest@) {
            None => Some(
                "this session runs on "@ + debug_text(x.guest@)
                    + ", and the manifest no longer names that guest. Take the session down, or put the guest back"@,
            ),
            Some(g) => match order(g, v) {
                None => None,
                Some(o) => if o.mode == Exec::Container && o.image is None {
                    Some(g.name@ + ": container execution with no image"@)
                } else {
                    None
                },
            },
        }
    }
}

/// Each session, to the end. One dead machine must not cancel every other
/// session's run.
pub open spec fn all_executed(
    w: Work,
    v: Verb,
    p: Option<Profile>,
    all: Seq<Session>,
    failures: nat,
    r: Seq<Reply>,
    i: int,
    said: Said,
) -> TalkView<Outcome>
    decreases all.len(),
{
    if all.len() == 0 {
        TalkView::Done(tally(failures, " session(s) failed to "@ + label_of(v)), i, said)
    } else {
        let x = all[0];
        let g = guest_named(w.manifest.guests@, x.guest@)->0;
        match obstacle(*w.manifest, x, v) {
            Some(e) => TalkView::Done(Err(e), i, said),
            None => match order(g, v) {
                // A skip, not a failure: building is per guest, and a manifest
                // mixing a compiled guest with an interpreted one is legal.
                None => all_executed(
                    w,
                    v,
                    p,
                    all.skip(1),
                    failures,
                    r,
                    i,
                    said.push(
                        (
                            false,
                            x.name@ + ": "@ + g.name@ + " declares no build; skipping"@,
                        ),
                    ),
                ),
                Some(o) => match attempted(w, x, g, v, o, p, r, i, said) {
                    TalkView::Ask(q) => TalkView::Ask(q),
                    TalkView::Done(Ok(_), n, t) => all_executed(
                        w,
                        v,
                        p,
                        all.skip(1),
                        failures,
                        r,
                        n,
                        t,
                    ),
                    TalkView::Done(Err(e), n, t) => all_executed(
                        w,
                        v,
                        p,
                        all.skip(1),
                        failures + 1,
                        r,
                        n,
                        reported(
                            t,
                            x,
                            x.name@ + ": "@ + label_of(v) + " failed: "@ + e,
                            reached(r, n, w.start),
                        ),
                    ),
                },
            },
        }
    }
}

pub open spec fn nothing_to_build(m: Manifest) -> Seq<char> {
    m.project@
        + " declares no build for any guest, so there is nothing to build. A project whose test command needs no build step is ordinary; run it instead"@
}

/// `build` and `run`.
pub open spec fn executed(
    w: Work,
    v: Verb,
    session: Option<Seq<char>>,
    profile: Option<Seq<char>>,
    r: Seq<Reply>,
    i: int,
    said: Said,
) -> TalkView<Outcome> {
    match profile_of(*w.manifest, profile) {
        Err(e) => TalkView::Done(Err(e), i, said),
        Ok(p) => if v == Verb::Build && builds_nothing(*w.manifest) {
            TalkView::Done(Err(nothing_to_build(*w.manifest)), i, said)
        } else {
            match implied(session, Some(w.manifest.project@), Here::Absent, r, i, said) {
                TalkView::Ask(q) => TalkView::Ask(q),
                TalkView::Done(Err(e), n, t) => TalkView::Done(Err(e), n, t),
                TalkView::Done(Ok(all), n, t) => all_executed(w, v, p, all, 0, r, n, t),
            }
        },
    }
}

// ---------------------------------------------------------------------------
// Running
// ---------------------------------------------------------------------------

fn take_pristine(
    name: &str,
    a: Address,
    datasets: &Vec<String>,
    r: &Vec<Reply>,
    i: usize,
    said: Vec<Line>,
) -> (t: Talk<()>)
    requires
        i <= r@.len(),
    ensures
        plain_talk(t) == pristine_taken(name@, a, texts(datasets@), r@, i as int, lines(said@)),
        within(t, i, r@),
{
    let ghost all = texts(datasets@);
    let ghost whole = pristine_taken(name@, a, all, r@, i as int, lines(said@));
    let mut at: usize = i;
    let mut lately: Vec<Line> = said;
    let mut k: usize = 0;
    assert(all.skip(0) =~= all);
    while k < datasets.len()
        invariant
            k <= datasets@.len(),
            i <= at <= r@.len(),
            all == texts(datasets@),
            whole == pristine_taken(name@, a, all, r@, i as int, lines(said@)),
            whole == pristine_taken(
                name@,
                a,
                all.skip(k as int),
                r@,
                at as int,
                lines(lately@),
            ),
        decreases datasets@.len() - k,
    {
        assert(all.skip(k as int)[0] == datasets@[k as int]@);
        assert(all.skip(k as int).skip(1) =~= all.skip(k + 1));
        let d = &datasets[k];
        let deed = Deed::Run {
            session: name.to_string(),
            address: a,
            command: RUNNER_PATH.to_string().concat(" snapshot --dataset ").concat(
                d.as_str(),
            ).concat(" --name ").concat(PRISTINE).concat(" --if-absent"),
            what: "taking the pristine snapshot".to_string(),
        };
        match ask_text(r, at, lately, 0, deed) {
            Talk::Ask(q) => {
                return Talk::Ask(q);
            },
            Talk::Done(o, n, t) => {
                at = n;
                lately = match o {
                    Ok(out) => {
                        if holds(out.as_str(), "snapshot=") {
                            say(
                                t,
                                name.to_string().concat(": ").concat(d.as_str()).concat(
                                    " snapshotted as ",
                                ).concat(PRISTINE).concat(
                                    " -- as it stands now, after this run. `reaper snapshot` names an earlier point if you want one",
                                ),
                            )
                        } else {
                            t
                        }
                    },
                    Err(e) => warn(
                        t,
                        name.to_string().concat(": could not take ").concat(PRISTINE).concat(
                            ": ",
                        ).concat(e.as_str()),
                    ),
                };
            },
        }
        k += 1;
    }
    Talk::Done((), at, lately)
}

fn conclude(
    w: &Work,
    x: &Session,
    v: Verb,
    a: Address,
    ran: Result<(), String>,
    last: Result<(), String>,
    r: &Vec<Reply>,
    i: usize,
    said: Vec<Line>,
) -> (t: Talk<Result<(), String>>)
    requires
        i <= r@.len(),
    ensures
        unit_talk(t) == concluded(
            *w,
            *x,
            v,
            a,
            crate::verbs::deeds::outcome(ran),
            crate::verbs::deeds::outcome(last),
            r@,
            i as int,
            lines(said@),
        ),
        within(t, i, r@),
{
    match (ran, last) {
        (Err(e), Ok(_)) => Talk::Done(Err(e), i, said),
        (Err(e), Err(p)) => {
            let line = x.name.clone().concat(": results could not be collected: ").concat(
                p.as_str(),
            );
            Talk::Done(Err(e), i, warn(said, line))
        },
        (Ok(_), Err(p)) => Talk::Done(Err(p), i, said),
        (Ok(_), Ok(_)) => {
            let s = say(said, x.name.clone().concat(": ").concat(v.label()).concat(" finished"));
            match v {
                Verb::Run => match take_pristine(
                    x.name.as_str(),
                    a,
                    &w.manifest.reset,
                    r,
                    i,
                    s,
                ) {
                    Talk::Ask(q) => Talk::Ask(q),
                    Talk::Done(_, n, t) => Talk::Done(Ok(()), n, t),
                },
                Verb::Build => Talk::Done(Ok(()), i, s),
            }
        },
    }
}

fn cache_words(caches: &Vec<String>) -> (r: String)
    ensures
        r@ == cache_options(texts(caches@)),
{
    let ghost all = texts(caches@);
    let mut out = String::new();
    let mut i: usize = 0;
    assert(out@ =~= Seq::empty());
    while i < caches.len()
        invariant
            i <= caches@.len(),
            all == texts(caches@),
            out@ == cache_options(all.take(i as int)),
        decreases caches@.len() - i,
    {
        assert(all.take(i + 1).drop_last() =~= all.take(i as int));
        assert(all.take(i + 1).last() == caches@[i as int]@);
        out = out.concat(" --cache ").concat(caches[i].as_str());
        i += 1;
    }
    assert(all.take(caches@.len() as int) =~= all);
    out
}

/// The command that hands a job to the runner.
fn command_for(m: &Manifest, g: &Guest, image: Option<&String>, warm: bool, Ghost(o): Ghost<Order>) -> (r:
    String)
    requires
        o.mode == Exec::Container ==> image is Some && o.image == Some(image->0@),
        o.mode == Exec::Host ==> image is None,
    ensures
        r@ == command_of(*m, *g, o, warm),
{
    let caches = match &g.build {
        Some(b) => cache_words(&b.cache),
        None => String::new(),
    };
    assert(caches@ =~= cache_options(caches_of(*g)));
    let pinned = match image {
        Some(i) => " --image ".to_string().concat(i.as_str()),
        None => String::new(),
    };
    assert(pinned@ =~= image_option(o));
    let cold = if warm {
        String::new()
    } else {
        " --cold".to_string()
    };
    assert(warm ==> cold@ =~= Seq::empty());
    RUNNER_PATH.to_string().concat(" exec --project ").concat(m.project.as_str()).concat(
        " --job ",
    ).concat(JOB_PATH).concat(pinned.as_str()).concat(caches.as_str()).concat(cold.as_str())
}

fn run_it(
    w: &Work,
    x: &Session,
    g: &Guest,
    v: Verb,
    command: String,
    warm: bool,
    a: Address,
    rsh: &str,
    out: &str,
    r: &Vec<Reply>,
    i: usize,
    said: Vec<Line>,
    Ghost(o): Ghost<Order>,
) -> (t: Talk<Result<(), String>>)
    requires
        i <= r@.len(),
        command@ == command_of(*w.manifest, *g, o, warm),
    ensures
        unit_talk(t) == ran(*w, *x, *g, v, o, warm, a, rsh@, out@, r@, i as int, lines(said@)),
        within(t, i, r@),
{
    let ssh = ssh_to(w.cfg, w.store, x.name.as_str(), a);
    let local = results_dir(w.tree);
    let plan = pull(w.cfg.session.rsync_command.as_str(), rsh, &ssh, out, local.as_str());
    let cold = if warm {
        String::new()
    } else {
        " (cold)".to_string()
    };
    assert(warm ==> cold@ =~= Seq::empty());
    let s = say(
        said,
        x.name.clone().concat(": ").concat(v.label()).concat(" on ").concat(
            g.name.as_str(),
        ).concat(cold.as_str()),
    );
    let deed = Deed::RunCollecting {
        session: x.name.clone(),
        address: a,
        command,
        what: v.label().to_string(),
        program: plan.program,
        args: plan.args,
    };
    match ask_done(r, i, s, 0, deed) {
        Talk::Ask(q) => Talk::Ask(q),
        Talk::Done(outcome, n, t) => match pull_once(
            w.cfg,
            w.store,
            x.name.as_str(),
            a,
            rsh,
            out,
            w.tree,
            r,
            n,
            t,
        ) {
            Talk::Ask(q) => Talk::Ask(q),
            Talk::Done(last, n, t) => conclude(w, x, v, a, outcome, last, r, n, t),
        },
    }
}

fn attempt(
    w: &Work,
    x: &Session,
    g: &Guest,
    v: Verb,
    cmd: &str,
    env: &Dict<String>,
    image: Option<&String>,
    profile: Option<&Profile>,
    r: &Vec<Reply>,
    i: usize,
    said: Vec<Line>,
    Ghost(o): Ghost<Order>,
) -> (t: Talk<Result<(), String>>)
    requires
        i <= r@.len(),
        o.cmd == cmd@,
        o.env == env@,
        o.mode == Exec::Container ==> image is Some && o.image == Some(image->0@),
        o.mode == Exec::Host ==> image is None,
    ensures
        unit_talk(t) == attempted(
            *w,
            *x,
            *g,
            v,
            o,
            match profile {
                Some(p) => Some(*p),
                None => None,
            },
            r@,
            i as int,
            lines(said@),
        ),
        within(t, i, r@),
{
    proof {
        reveal(attempted);
    }
    let warm = match profile {
        Some(p) => match p.warm_cache {
            Some(b) => b,
            None => true,
        },
        None => true,
    };
    let all = match profile {
        Some(p) => overlay(env, Some(&p.env)),
        None => overlay(env, None),
    };
    let script = render(cmd, &all);
    let (a, out, n, t) = match open(x, w.manifest.project.as_str(), r, i, said) {
        Talk::Ask(q) => {
            return Talk::Ask(q);
        },
        Talk::Done(v, n, t) => match v {
            Err(e) => {
                return Talk::Done(Err(e), n, t);
            },
            Ok((a, _, o)) => (a, o, n, t),
        },
    };
    // Over stdin, as a file. Never as a quoted argument: a command containing
    // an apostrophe passed inline closes the quote.
    let deed = Deed::UploadJob { session: x.name.clone(), address: a, script };
    let (n, t) = match ask_done(r, n, t, 0, deed) {
        Talk::Ask(q) => {
            return Talk::Ask(q);
        },
        Talk::Done(v, n, t) => match v {
            Err(e) => {
                return Talk::Done(Err(e), n, t);
            },
            Ok(_) => (n, t),
        },
    };
    let (rsh, n, t) = match wrap(w.cfg, w.store, x.name.as_str(), a, r, n, t) {
        Talk::Ask(q) => {
            return Talk::Ask(q);
        },
        Talk::Done(v, n, t) => match v {
            Err(e) => {
                return Talk::Done(Err(e), n, t);
            },
            Ok(p) => (p, n, t),
        },
    };
    let (n, t) = match make_landing(w.tree, r, n, t) {
        Talk::Ask(q) => {
            return Talk::Ask(q);
        },
        Talk::Done(v, n, t) => match v {
            Err(e) => {
                return Talk::Done(Err(e), n, t);
            },
            Ok(_) => (n, t),
        },
    };
    let command = command_for(w.manifest, g, image, warm, Ghost(o));
    run_it(
        w,
        x,
        g,
        v,
        command,
        warm,
        a,
        rsh.as_str(),
        out.as_str(),
        r,
        n,
        t,
        Ghost(o),
    )
}

/// What one session's turn came to: the verb ends, or the session succeeded, or
/// it failed.
pub enum Turn {
    Stop(String),
    Passed,
    Failed,
}

pub open spec fn turn(
    w: Work,
    v: Verb,
    p: Option<Profile>,
    all: Seq<Session>,
    failures: nat,
    r: Seq<Reply>,
    t: Talk<Turn>,
) -> TalkView<Outcome> {
    match t {
        Talk::Ask(q) => TalkView::Ask(q@),
        Talk::Done(Turn::Stop(e), n, s) => TalkView::Done(Err(e@), n as int, lines(s@)),
        Talk::Done(Turn::Passed, n, s) => all_executed(
            w,
            v,
            p,
            all.skip(1),
            failures,
            r,
            n as int,
            lines(s@),
        ),
        Talk::Done(Turn::Failed, n, s) => all_executed(
            w,
            v,
            p,
            all.skip(1),
            failures + 1,
            r,
            n as int,
            lines(s@),
        ),
    }
}

fn take_turn(
    w: &Work,
    v: Verb,
    profile: Option<&Profile>,
    x: &Session,
    r: &Vec<Reply>,
    i: usize,
    said: Vec<Line>,
    Ghost(all): Ghost<Seq<Session>>,
    Ghost(failures): Ghost<nat>,
) -> (t: Talk<Turn>)
    requires
        i <= r@.len(),
        all.len() > 0,
        all[0] == *x,
    ensures
        turn(
            *w,
            v,
            match profile {
                Some(p) => Some(*p),
                None => None,
            },
            all,
            failures,
            r@,
            t,
        ) == all_executed(
            *w,
            v,
            match profile {
                Some(p) => Some(*p),
                None => None,
            },
            all,
            failures,
            r@,
            i as int,
            lines(said@),
        ),
        within(t, i, r@),
{
    if x.synced_at.is_none() {
        return Talk::Done(
            Turn::Stop(
                x.name.clone().concat(
                    ": nothing has been synced into it yet, so there is nothing to ",
                ).concat(v.label()).concat(
                    ". `reaper sync` pushes the tree (and `reaper test` does all of this in order)",
                ),
            ),
            i,
            said,
        );
    }
    let g = match w.manifest.guest(x.guest.as_str()) {
        Some(g) => g,
        None => {
            return Talk::Done(
                Turn::Stop(
                    "this session runs on ".to_string().concat(
                        quoted(x.guest.as_str()).as_str(),
                    ).concat(
                        ", and the manifest no longer names that guest. Take the session down, or put the guest back",
                    ),
                ),
                i,
                said,
            );
        },
    };
    let (cmd, env, image, mode) = match v {
        Verb::Run => (&g.run.cmd, &g.run.env, &g.run.image, g.run.mode),
        Verb::Build => match &g.build {
            Some(b) => (&b.cmd, &b.env, &b.image, b.mode),
            None => {
                let line = x.name.clone().concat(": ").concat(g.name.as_str()).concat(
                    " declares no build; skipping",
                );
                return Talk::Done(Turn::Passed, i, say(said, line));
            },
        },
    };
    let ghost o = order(*g, v)->0;
    // The schema guarantees that mode and image agree. Asserting it here turns
    // an impossible state into a sentence.
    let pinned = match mode {
        Exec::Container => match image {
            Some(p) => Some(p),
            None => {
                return Talk::Done(
                    Turn::Stop(g.name.clone().concat(": container execution with no image")),
                    i,
                    said,
                );
            },
        },
        Exec::Host => None,
    };
    match attempt(w, x, g, v, cmd.as_str(), env, pinned, profile, r, i, said, Ghost(o)) {
        Talk::Ask(q) => Talk::Ask(q),
        Talk::Done(outcome, n, t) => match outcome {
            Ok(_) => Talk::Done(Turn::Passed, n, t),
            Err(e) => {
                let text = x.name.clone().concat(": ").concat(v.label()).concat(
                    " failed: ",
                ).concat(e.as_str());
                let when = now(r, n, &w.start);
                Talk::Done(Turn::Failed, n, report(t, x, text, &when))
            },
        },
    }
}

fn execute_all(
    w: &Work,
    v: Verb,
    profile: Option<&Profile>,
    all: &Vec<Session>,
    r: &Vec<Reply>,
    i: usize,
    said: Vec<Line>,
) -> (t: Talk<Result<(), String>>)
    requires
        i <= r@.len(),
    ensures
        unit_talk(t) == all_executed(
            *w,
            v,
            match profile {
                Some(p) => Some(*p),
                None => None,
            },
            all@,
            0,
            r@,
            i as int,
            lines(said@),
        ),
        within(t, i, r@),
{
    let ghost p = match profile {
        Some(p) => Some(*p),
        None => None,
    };
    let ghost whole = all_executed(*w, v, p, all@, 0, r@, i as int, lines(said@));
    let mut at: usize = i;
    let mut lately: Vec<Line> = said;
    let mut failures: u64 = 0;
    let mut k: usize = 0;
    assert(all@.skip(0) =~= all@);
    while k < all.len()
        invariant
            k <= all@.len(),
            failures <= k,
            i <= at <= r@.len(),
            p == (match profile {
                Some(p) => Some(*p),
                None => None,
            }),
            whole == all_executed(*w, v, p, all@, 0, r@, i as int, lines(said@)),
            whole == all_executed(
                *w,
                v,
                p,
                all@.skip(k as int),
                failures as nat,
                r@,
                at as int,
                lines(lately@),
            ),
        decreases all@.len() - k,
    {
        assert(all@.skip(k as int)[0] == all@[k as int]);
        assert(all@.skip(k as int).skip(1) =~= all@.skip(k + 1));
        match take_turn(
            w,
            v,
            profile,
            &all[k],
            r,
            at,
            lately,
            Ghost(all@.skip(k as int)),
            Ghost(failures as nat),
        ) {
            Talk::Ask(q) => {
                return Talk::Ask(q);
            },
            Talk::Done(o, n, t) => {
                match o {
                    Turn::Stop(e) => {
                        return Talk::Done(Err(e), n, t);
                    },
                    Turn::Passed => {},
                    Turn::Failed => {
                        failures += 1;
                    },
                }
                at = n;
                lately = t;
            },
        }
        k += 1;
    }
    let words = " session(s) failed to ".to_string().concat(v.label());
    Talk::Done(total(failures, words.as_str()), at, lately)
}

/// Run one of the project's commands in its sessions.
pub fn execute(
    w: &Work,
    v: Verb,
    session: &Option<String>,
    profile: &Option<String>,
    r: &Vec<Reply>,
    i: usize,
    said: Vec<Line>,
) -> (t: Talk<Result<(), String>>)
    requires
        i <= r@.len(),
    ensures
        unit_talk(t) == executed(
            *w,
            v,
            maybe(*session),
            maybe(*profile),
            r@,
            i as int,
            lines(said@),
        ),
        within(t, i, r@),
{
    let chosen = match profile {
        None => None,
        Some(name) => match w.manifest.profiles.get(name.as_str()) {
            Some(p) => Some(p),
            None => {
                return Talk::Done(Err(complain_of_profile(w.manifest, name.as_str())), i, said);
            },
        },
    };
    // Refused up front, so that skipping guest by guest can never add up to a
    // silent no-op.
    if v == Verb::Build && !builds(w.manifest) {
        return Talk::Done(
            Err(
                w.manifest.project.clone().concat(
                    " declares no build for any guest, so there is nothing to build. A project whose test command needs no build step is ordinary; run it instead",
                ),
            ),
            i,
            said,
        );
    }
    let project = Some(w.manifest.project.clone());
    match implied_sessions(session, &project, &Here::Absent, r, i, said) {
        Talk::Ask(q) => Talk::Ask(q),
        Talk::Done(o, n, t) => match o {
            Err(e) => Talk::Done(Err(e), n, t),
            Ok(all) => execute_all(w, v, chosen, &all, r, n, t),
        },
    }
}

// ---------------------------------------------------------------------------
// What running promises
// ---------------------------------------------------------------------------

/// A run that fails takes no snapshot: after it nothing more is asked of the
/// session.
pub proof fn law_a_failed_run_takes_no_snapshot(
    w: Work,
    x: Session,
    v: Verb,
    a: Address,
    ran: Outcome,
    last: Outcome,
    r: Seq<Reply>,
    i: int,
    said: Said,
)
    requires
        ran is Err || last is Err || v == Verb::Build,
    ensures
        concluded(w, x, v, a, ran, last, r, i, said) matches TalkView::Done(_, n, _) && n == i,
{
}

/// Results are collected once more whatever the command did, and the command's
/// failure is what is reported.
pub proof fn law_results_are_collected_whatever_happened(
    w: Work,
    x: Session,
    g: Guest,
    v: Verb,
    o: Order,
    warm: bool,
    a: Address,
    rsh: Seq<char>,
    out: Seq<char>,
    r: Seq<Reply>,
    i: int,
    said: Said,
)
    requires
        0 <= i,
        i + 1 == r.len(),
        crate::verbs::deeds::unit_of(r[i].event) is Some,
    ensures
        ran(w, x, g, v, o, warm, a, rsh, out, r, i, said) matches TalkView::Ask(q) && q.deed
            == crate::verbs::work::pull_deed(
            *w.cfg,
            transport(*w.cfg, w.store@, x.name@, a),
            rsh,
            out,
            w.tree@,
        ),
{
}

/// A session into which nothing was pushed runs nothing: the verb ends there
/// with nothing asked of it.
pub proof fn law_nothing_runs_on_an_empty_workspace(
    w: Work,
    v: Verb,
    p: Option<Profile>,
    all: Seq<Session>,
    failures: nat,
    r: Seq<Reply>,
    i: int,
    said: Said,
)
    requires
        all.len() > 0,
        all[0].synced_at is None,
    ensures
        all_executed(w, v, p, all, failures, r, i, said) matches TalkView::Done(o, n, _) && o is Err
            && n == i,
{
}

/// A profile that wants cold caches still names every cache.
pub proof fn law_a_cold_run_names_every_cache(m: Manifest, g: Guest, o: Order)
    ensures
        command_of(m, g, o, false) == command_of(m, g, o, true) + " --cold"@,
{
    assert(command_of(m, g, o, false) =~= command_of(m, g, o, true) + " --cold"@);
}

}
