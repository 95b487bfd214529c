//! Bringing a session up.
use vstd::prelude::*;
use vstd::string::*;

use crate::address::{address_text, Address};
use crate::config::{registry, Config};
use crate::dict::{find, names};
use crate::duration::{exact, format_rough, rough};
use crate::manifest::{guest_named, Guest, Manifest};
use crate::paths::maybe;
use crate::provider::{is_listed, lists};
use crate::session::{Session, SessionView};
use crate::text::{debug_text, dec, decimal, join, join_text, quoted, same, texts};
use crate::time::{Duration, SystemTime};
use crate::verbs::common::{
    all_images, declared_images, later, later_than, missing_key, missing_ssh_key, name_of, ordered,
    session_name, ttl_for, ttl_of, unregistered, unregistered_guest, RUNNER_PATH,
};
use crate::verbs::deeds::{
    ask, ask_address, ask_done, ask_flag, ask_found, ask_list, ask_machine, ask_machines, ask_pid,
    ask_text, done, flagged, found, lines, listed, located, machines, made, now, plain_talk,
    reached, say, silence, started, told, unit_talk, value_talk, warn, within, Deed, Line, Outcome,
    Reply, Said, Talk, TalkView, Whereabouts,
};

verus! {

/// Everything that bringing a session up goes by.
pub struct Site<'a> {
    pub cfg: &'a Config,
    pub manifest: &'a Manifest,
    /// When the verb began.
    pub start: SystemTime,
}

// ---------------------------------------------------------------------------
// Reusing a session
// ---------------------------------------------------------------------------

pub open spec fn name_taken(name: Seq<char>, owner: Seq<char>, project: Seq<char>) -> Seq<char> {
    name + ": that session name is taken by project "@ + debug_text(owner)
        + ", whose naming collides with "@ + debug_text(project)
        + " here. Rename one of the two projects, or take the other session down first"@
}

pub open spec fn never_ready(name: Seq<char>) -> Seq<char> {
    name
        + ": a session by this name exists but never became ready, so there is nothing to reuse. `reaper down "@
        + name + "` clears it"@
}

pub open spec fn collected(name: Seq<char>) -> Seq<char> {
    name
        + ": its machine is gone (the sweeper collects anything past its expiry). `reaper down "@
        + name + "` clears the record, and the next `reaper up` starts fresh"@
}

pub open spec fn restarted(name: Seq<char>, pid: Option<u32>) -> Seq<char> {
    match pid {
        Some(p) => name + ": its heartbeat was dead; restarted as pid "@ + dec(p as nat)
            + ", which runs until `reaper down`"@,
        None => name + ": its heartbeat was dead; restarted"@,
    }
}

pub open spec fn reusing(name: Seq<char>, s: Session, at: SystemTime) -> Seq<char> {
    let age = if at@ < s.created_at@ {
        0
    } else {
        at@ - s.created_at@
    };
    name + ": already up on "@ + address_text(s.address->0) + " since "@ + rough(
        (age / 1_000_000_000) as nat,
    ) + " ago -- reusing it"@
}

/// Is the heartbeat that was recorded alive?
pub open spec fn beating(s: Session, r: Seq<Reply>, i: int, said: Said) -> TalkView<bool> {
    match s.heartbeat_pid {
        None => TalkView::Done(false, i, said),
        Some(p) => flagged(r, i, ask(said, 0, Deed::Alive(p))),
    }
}

/// A heartbeat that died is started again, or the session would be a machine on
/// a fixed countdown.
pub open spec fn revived(
    name: Seq<char>,
    alive: bool,
    r: Seq<Reply>,
    i: int,
    said: Said,
) -> TalkView<Outcome> {
    if alive {
        TalkView::Done(Ok(()), i, said)
    } else {
        match started(r, i, ask(said, 0, Deed::StartHeartbeat(name))) {
            TalkView::Ask(a) => TalkView::Ask(a),
            TalkView::Done(Err(e), n, s) => TalkView::Done(Err(e), n, s),
            TalkView::Done(Ok(pid), n, s) => match done(
                r,
                n,
                ask(s, 0, Deed::RecordHeartbeat(name, pid)),
            ) {
                TalkView::Ask(a) => TalkView::Ask(a),
                TalkView::Done(Err(e), n, s) => TalkView::Done(Err(e), n, s),
                TalkView::Done(Ok(_), n, s) => TalkView::Done(
                    Ok(()),
                    n,
                    s.push((false, restarted(name, pid))),
                ),
            },
        }
    }
}

/// A session by this name is there already.
pub open spec fn reused(
    site: Site,
    name: Seq<char>,
    x: Session,
    r: Seq<Reply>,
    i: int,
    said: Said,
) -> TalkView<Outcome> {
    if x.project@ != site.manifest.project@ {
        TalkView::Done(Err(name_taken(name, x.project@, site.manifest.project@)), i, said)
    } else if x.address is None {
        TalkView::Done(Err(never_ready(name)), i, said)
    } else {
        match machines(r, i, ask(said, 0, Deed::Machines)) {
            TalkView::Ask(a) => TalkView::Ask(a),
            TalkView::Done(Err(e), n, s) => TalkView::Done(Err(e), n, s),
            TalkView::Done(Ok(live), n, s) => if !lists(live@, x.machine@) {
                TalkView::Done(Err(collected(name)), n, s)
            } else {
                match beating(x, r, n, s) {
                    TalkView::Ask(a) => TalkView::Ask(a),
                    TalkView::Done(alive, n, s) => match revived(name, alive, r, n, s) {
                        TalkView::Ask(a) => TalkView::Ask(a),
                        TalkView::Done(Err(e), n, s) => TalkView::Done(Err(e), n, s),
                        TalkView::Done(Ok(_), n, s) => TalkView::Done(
                            Ok(()),
                            n,
                            s.push((false, reusing(name, x, reached(r, n, site.start)))),
                        ),
                    },
                }
            },
        }
    }
}

fn is_beating(x: &Session, r: &Vec<Reply>, i: usize, said: Vec<Line>) -> (t: Talk<bool>)
    requires
        i <= r@.len(),
    ensures
        plain_talk(t) == beating(*x, r@, i as int, lines(said@)),
        within(t, i, r@),
{
    match x.heartbeat_pid {
        None => Talk::Done(false, i, said),
        Some(p) => ask_flag(r, i, said, 0, Deed::Alive(p)),
    }
}

fn revive(name: &str, alive: bool, r: &Vec<Reply>, i: usize, said: Vec<Line>) -> (t: Talk<
    Result<(), String>,
>)
    requires
        i <= r@.len(),
    ensures
        unit_talk(t) == revived(name@, alive, r@, i as int, lines(said@)),
        within(t, i, r@),
{
    if alive {
        return Talk::Done(Ok(()), i, said);
    }
    match ask_pid(r, i, said, Deed::StartHeartbeat(name.to_string())) {
        Talk::Ask(a) => Talk::Ask(a),
        Talk::Done(v, n, s) => match v {
            Err(e) => Talk::Done(Err(e), n, s),
            Ok(pid) => match ask_done(r, n, s, 0, Deed::RecordHeartbeat(name.to_string(), pid)) {
                Talk::Ask(a) => Talk::Ask(a),
                Talk::Done(v, n, s) => match v {
                    Err(e) => Talk::Done(Err(e), n, s),
                    Ok(_) => {
                        let line = match pid {
                            Some(p) => name.to_string().concat(
                                ": its heartbeat was dead; restarted as pid ",
                            ).concat(decimal(p as u64).as_str()).concat(
                                ", which runs until `reaper down`",
                            ),
                            None => name.to_string().concat(
                                ": its heartbeat was dead; restarted",
                            ),
                        };
                        Talk::Done(Ok(()), n, say(s, line))
                    },
                },
            },
        },
    }
}

fn reuse(site: &Site, name: &str, x: &Session, r: &Vec<Reply>, i: usize, said: Vec<Line>) -> (t:
    Talk<Result<(), String>>)
    requires
        i <= r@.len(),
    ensures
        unit_talk(t) == reused(*site, name@, *x, r@, i as int, lines(said@)),
        within(t, i, r@),
{
    // Whose record is this? Session names are {project}-{guest} (or the bare
    // project), so distinct projects can mint the same name.
    if !same(x.project.as_str(), site.manifest.project.as_str()) {
        return Talk::Done(
            Err(
                name.to_string().concat(": that session name is taken by project ").concat(
                    quoted(x.project.as_str()).as_str(),
                ).concat(", whose naming collides with ").concat(
                    quoted(site.manifest.project.as_str()).as_str(),
                ).concat(
                    " here. Rename one of the two projects, or take the other session down first",
                ),
            ),
            i,
            said,
        );
    }
    // A record with no address is an `up` that never finished; there is nothing
    // here to reuse and no way to resume it.
    let address = match &x.address {
        Some(a) => a,
        None => {
            return Talk::Done(
                Err(
                    name.to_string().concat(
                        ": a session by this name exists but never became ready, so there is nothing to reuse. `reaper down ",
                    ).concat(name).concat("` clears it"),
                ),
                i,
                said,
            );
        },
    };
    // The record says up; the cluster may know better.
    let (n, s) = match ask_machines(r, i, said, 0) {
        Talk::Ask(a) => {
            return Talk::Ask(a);
        },
        Talk::Done(v, n, s) => match v {
            Err(e) => {
                return Talk::Done(Err(e), n, s);
            },
            Ok(live) => {
                if !is_listed(live, &x.machine) {
                    return Talk::Done(
                        Err(
                            name.to_string().concat(
                                ": its machine is gone (the sweeper collects anything past its expiry). `reaper down ",
                            ).concat(name).concat(
                                "` clears the record, and the next `reaper up` starts fresh",
                            ),
                        ),
                        n,
                        s,
                    );
                }
                (n, s)
            },
        },
    };
    match is_beating(x, r, n, s) {
        Talk::Ask(a) => Talk::Ask(a),
        Talk::Done(alive, n, s) => match revive(name, alive, r, n, s) {
            Talk::Ask(a) => Talk::Ask(a),
            Talk::Done(v, n, s) => match v {
                Err(e) => Talk::Done(Err(e), n, s),
                Ok(_) => {
                    let age = x.age(now(r, n, &site.start));
                    age.bounds();
                    let line = name.to_string().concat(": already up on ").concat(
                        address.text().as_str(),
                    ).concat(" since ").concat(format_rough(age).as_str()).concat(
                        " ago -- reusing it",
                    );
                    Talk::Done(Ok(()), n, say(s, line))
                },
            },
        },
    }
}

// ---------------------------------------------------------------------------
// Waiting for a machine to answer
// ---------------------------------------------------------------------------

pub open spec fn destroyed_meanwhile(name: Seq<char>, grace: Duration) -> Seq<char> {
    name
        + ": the machine was destroyed while waiting for it to answer. The usual reason is the readiness grace ("@
        + exact((grace@ / 1_000_000_000) as nat)
        + ") running out and the sweeper collecting it -- a slow clone eats most of the grace, and session.ready_grace in the site config is the knob -- but anything with access may have destroyed it"@
}

/// What stands between a machine and use, said once per distinct reason: a
/// machine that is still booting gives the same refusal every few seconds.
pub open spec fn note(said: Said, name: Seq<char>, last: Option<Seq<char>>, text: Seq<char>) -> Said {
    if last == Some(text) {
        said
    } else {
        said.push((false, name + ": waiting -- "@ + text))
    }
}

/// Waiting until the machine has an address that actually answers.
///
/// Having an address and being reachable at it are different claims. A
/// dual-stacked guest often reports an IPv6 address first, and if the path from
/// here carries none, every later step fails on a machine that was working
/// perfectly. So the address is asked for again on every attempt, and the test
/// is a real command over the real transport.
pub open spec fn reachable(
    site: Site,
    name: Seq<char>,
    machine: Seq<char>,
    deadline: int,
    r: Seq<Reply>,
    i: int,
    said: Said,
    last: Option<Seq<char>>,
    pause: u64,
) -> TalkView<Result<Option<Address>, Seq<char>>>
    decreases r.len() - i,
{
    match located(r, i, ask(said, pause, Deed::AddressOf(machine))) {
        TalkView::Ask(a) => TalkView::Ask(a),
        TalkView::Done(Whereabouts::Gone(_), n, s) => TalkView::Done(
            Err(destroyed_meanwhile(name, site.cfg.session.ready_grace)),
            n,
            s,
        ),
        TalkView::Done(Whereabouts::Failed(e), n, s) => TalkView::Done(Err(e), n, s),
        TalkView::Done(Whereabouts::At(None), n, s) => if reached(r, n, site.start)@ >= deadline {
            TalkView::Done(Ok(None), n, s)
        } else {
            reachable(site, name, machine, deadline, r, n, s, last, 3)
        },
        TalkView::Done(Whereabouts::At(Some(a)), n, s) => match told(
            r,
            n,
            ask(
                s,
                0,
                Deed::Run {
                    session: name,
                    address: a,
                    command: "true"@,
                    what: "reaching the machine"@,
                },
            ),
        ) {
            TalkView::Ask(q) => TalkView::Ask(q),
            TalkView::Done(Ok(_), k, s) => TalkView::Done(Ok(Some(a)), k, s),
            TalkView::Done(Err(e), k, s) => {
                let text = address_text(a) + ": "@ + e;
                let s2 = note(s, name, last, text);
                if reached(r, k, site.start)@ >= deadline {
                    TalkView::Done(Ok(None), k, s2)
                } else {
                    reachable(site, name, machine, deadline, r, k, s2, Some(text), 3)
                }
            },
        },
    }
}

fn wait_until_reachable(
    site: &Site,
    name: &str,
    machine: &str,
    deadline: &SystemTime,
    r: &Vec<Reply>,
    from: usize,
    said: Vec<Line>,
) -> (t: Talk<Result<Option<Address>, String>>)
    requires
        from <= r@.len(),
    ensures
        value_talk(t) == reachable(
            *site,
            name@,
            machine@,
            deadline@,
            r@,
            from as int,
            lines(said@),
            None,
            0,
        ),
        within(t, from, r@),
{
    let ghost whole = reachable(
        *site,
        name@,
        machine@,
        deadline@,
        r@,
        from as int,
        lines(said@),
        None,
        0,
    );
    let mut i: usize = from;
    let mut lately: Vec<Line> = said;
    let mut last: Option<String> = None;
    let mut pause: u64 = 0;
    loop
        invariant
            from <= i <= r@.len(),
            whole == reachable(
                *site,
                name@,
                machine@,
                deadline@,
                r@,
                from as int,
                lines(said@),
                None,
                0,
            ),
            whole == reachable(
                *site,
                name@,
                machine@,
                deadline@,
                r@,
                i as int,
                lines(lately@),
                maybe(last),
                pause,
            ),
        decreases r@.len() - i,
    {
        let (a, n, s) = match ask_address(
            r,
            i,
            lately,
            pause,
            Deed::AddressOf(machine.to_string()),
        ) {
            Talk::Ask(a) => {
                return Talk::Ask(a);
            },
            Talk::Done(v, n, s) => match v {
                // Gone mid-wait means collected: the grace expired while we
                // were still polling.
                Whereabouts::Gone(_) => {
                    return Talk::Done(
                        Err(
                            name.to_string().concat(
                                ": the machine was destroyed while waiting for it to answer. The usual reason is the readiness grace (",
                            ).concat(
                                crate::duration::format(site.cfg.session.ready_grace).as_str(),
                            ).concat(
                                ") running out and the sweeper collecting it -- a slow clone eats most of the grace, and session.ready_grace in the site config is the knob -- but anything with access may have destroyed it",
                            ),
                        ),
                        n,
                        s,
                    );
                },
                Whereabouts::Failed(e) => {
                    return Talk::Done(Err(e), n, s);
                },
                Whereabouts::At(a) => (a, n, s),
            },
        };
        match a {
            None => {
                if !now(r, n, &site.start).is_before(deadline) {
                    return Talk::Done(Ok(None), n, s);
                }
                i = n;
                lately = s;
                pause = 3;
            },
            Some(address) => match ask_text(
                r,
                n,
                s,
                0,
                Deed::Run {
                    session: name.to_string(),
                    address,
                    command: "true".to_string(),
                    what: "reaching the machine".to_string(),
                },
            ) {
                Talk::Ask(q) => {
                    return Talk::Ask(q);
                },
                Talk::Done(v, k, s) => match v {
                    Ok(_) => {
                        return Talk::Done(Ok(Some(address)), k, s);
                    },
                    Err(e) => {
                        let text = address.text().concat(": ").concat(e.as_str());
                        let repeated = match &last {
                            Some(l) => same(l.as_str(), text.as_str()),
                            None => false,
                        };
                        let s2 = if repeated {
                            s
                        } else {
                            say(
                                s,
                                name.to_string().concat(": waiting -- ").concat(text.as_str()),
                            )
                        };
                        if !now(r, k, &site.start).is_before(deadline) {
                            return Talk::Done(Ok(None), k, s2);
                        }
                        i = k;
                        lately = s2;
                        last = Some(text);
                        pause = 3;
                    },
                },
            },
        }
    }
}

// ---------------------------------------------------------------------------
// Making a machine ready
// ---------------------------------------------------------------------------

pub open spec fn run_deed(session: Seq<char>, address: Address, command: Seq<char>, what: Seq<char>) -> crate::verbs::deeds::DeedView {
    Deed::Run { session, address, command, what }
}

pub open spec fn describe(cfg: Config, address: Address) -> Seq<char> {
    cfg.session.ssh_user@ + "@"@ + address_text(address)
}

/// Delivering the runner and building the session's storage. A machine that can
/// be reached is not yet a machine anyone can use: it has no pool.
pub open spec fn prepared(
    site: Site,
    name: Seq<char>,
    a: Address,
    r: Seq<Reply>,
    i: int,
    said: Said,
) -> TalkView<Outcome> {
    let s0 = said.push(
        (false, name + ": preparing storage on "@ + describe(*site.cfg, a)),
    );
    match done(r, i, ask(s0, 0, Deed::UploadRunner { session: name, address: a })) {
        TalkView::Ask(q) => TalkView::Ask(q),
        TalkView::Done(Err(e), n, s) => TalkView::Done(Err(e), n, s),
        TalkView::Done(Ok(_), n, s) => match told(
            r,
            n,
            ask(s, 0, run_deed(name, a, RUNNER_PATH@ + " firstboot"@, "firstboot"@)),
        ) {
            TalkView::Ask(q) => TalkView::Ask(q),
            TalkView::Done(Err(e), n, s) => TalkView::Done(Err(e), n, s),
            TalkView::Done(Ok(_), n, s) => TalkView::Done(Ok(()), n, s),
        },
    }
}

/// Fetching what the manifest declared. A failure does not cost a session: a
/// registry outage should cost a slow first build and never a machine that took
/// minutes to clone.
pub open spec fn prefetched(
    name: Seq<char>,
    a: Address,
    images: Seq<Seq<char>>,
    r: Seq<Reply>,
    i: int,
    said: Said,
) -> TalkView<()> {
    if images.len() == 0 {
        TalkView::Done((), i, said)
    } else {
        let s0 = said.push(
            (false, name + ": fetching "@ + dec(images.len()) + " declared image(s)"@),
        );
        match done(
            r,
            i,
            ask(
                s0,
                0,
                Deed::RunLive {
                    session: name,
                    address: a,
                    command: RUNNER_PATH@ + " pull "@ + join(images, " "@),
                    what: "pre-pulling images"@,
                },
            ),
        ) {
            TalkView::Ask(q) => TalkView::Ask(q),
            TalkView::Done(Ok(_), n, s) => TalkView::Done((), n, s),
            TalkView::Done(Err(e), n, s) => TalkView::Done(
                (),
                n,
                s.push(
                    (
                        true,
                        name + ": could not pre-fetch images: "@ + e
                            + ". The session is up and usable; the first build will fetch them itself."@,
                    ),
                ),
            ),
        }
    }
}

/// Starting the in-guest reset trigger, where the project has anything to reset.
pub open spec fn triggered(
    site: Site,
    name: Seq<char>,
    a: Address,
    r: Seq<Reply>,
    i: int,
    said: Said,
) -> TalkView<Outcome> {
    if site.manifest.reset@.len() == 0 {
        TalkView::Done(Ok(()), i, said)
    } else {
        match told(
            r,
            i,
            ask(
                said,
                0,
                run_deed(
                    name,
                    a,
                    RUNNER_PATH@ + " control --project "@ + site.manifest.project@ + " start"@,
                    "starting the reset trigger"@,
                ),
            ),
        ) {
            TalkView::Ask(q) => TalkView::Ask(q),
            TalkView::Done(Err(e), n, s) => TalkView::Done(Err(e), n, s),
            TalkView::Done(Ok(_), n, s) => TalkView::Done(Ok(()), n, s),
        }
    }
}

fn prepare(site: &Site, name: &str, a: Address, r: &Vec<Reply>, i: usize, said: Vec<Line>) -> (t:
    Talk<Result<(), String>>)
    requires
        i <= r@.len(),
    ensures
        unit_talk(t) == prepared(*site, name@, a, r@, i as int, lines(said@)),
        within(t, i, r@),
{
    let s0 = say(
        said,
        name.to_string().concat(": preparing storage on ").concat(
            site.cfg.session.ssh_user.clone().concat("@").concat(a.text().as_str()).as_str(),
        ),
    );
    match ask_done(r, i, s0, 0, Deed::UploadRunner { session: name.to_string(), address: a }) {
        Talk::Ask(q) => Talk::Ask(q),
        Talk::Done(v, n, s) => match v {
            Err(e) => Talk::Done(Err(e), n, s),
            Ok(_) => match ask_text(
                r,
                n,
                s,
                0,
                Deed::Run {
                    session: name.to_string(),
                    address: a,
                    command: RUNNER_PATH.to_string().concat(" firstboot"),
                    what: "firstboot".to_string(),
                },
            ) {
                Talk::Ask(q) => Talk::Ask(q),
                Talk::Done(v, n, s) => match v {
                    Err(e) => Talk::Done(Err(e), n, s),
                    Ok(_) => Talk::Done(Ok(()), n, s),
                },
            },
        },
    }
}

fn prepull(name: &str, a: Address, images: &Vec<String>, r: &Vec<Reply>, i: usize, said: Vec<Line>) -> (t:
    Talk<()>)
    requires
        i <= r@.len(),
    ensures
        plain_talk(t) == prefetched(name@, a, texts(images@), r@, i as int, lines(said@)),
        within(t, i, r@),
{
    assert(texts(images@).len() == images@.len());
    if images.len() == 0 {
        return Talk::Done((), i, said);
    }
    let s0 = say(
        said,
        name.to_string().concat(": fetching ").concat(
            decimal(images.len() as u64).as_str(),
        ).concat(" declared image(s)"),
    );
    let deed = Deed::RunLive {
        session: name.to_string(),
        address: a,
        command: RUNNER_PATH.to_string().concat(" pull ").concat(join_text(images, " ").as_str()),
        what: "pre-pulling images".to_string(),
    };
    match ask_done(r, i, s0, 0, deed) {
        Talk::Ask(q) => Talk::Ask(q),
        Talk::Done(v, n, s) => match v {
            Ok(_) => Talk::Done((), n, s),
            Err(e) => {
                let line = name.to_string().concat(": could not pre-fetch images: ").concat(
                    e.as_str(),
                ).concat(
                    ". The session is up and usable; the first build will fetch them itself.",
                );
                Talk::Done((), n, warn(s, line))
            },
        },
    }
}

fn start_control(site: &Site, name: &str, a: Address, r: &Vec<Reply>, i: usize, said: Vec<Line>) -> (t:
    Talk<Result<(), String>>)
    requires
        i <= r@.len(),
    ensures
        unit_talk(t) == triggered(*site, name@, a, r@, i as int, lines(said@)),
        within(t, i, r@),
{
    if site.manifest.reset.len() == 0 {
        return Talk::Done(Ok(()), i, said);
    }
    let deed = Deed::Run {
        session: name.to_string(),
        address: a,
        command: RUNNER_PATH.to_string().concat(" control --project ").concat(
            site.manifest.project.as_str(),
        ).concat(" start"),
        what: "starting the reset trigger".to_string(),
    };
    match ask_text(r, i, said, 0, deed) {
        Talk::Ask(q) => Talk::Ask(q),
        Talk::Done(v, n, s) => match v {
            Err(e) => Talk::Done(Err(e), n, s),
            Ok(_) => Talk::Done(Ok(()), n, s),
        },
    }
}

// ---------------------------------------------------------------------------
// A session that has become ready
// ---------------------------------------------------------------------------

/// Starting the heartbeat of a session that is recorded. One that does not start
/// costs the renewals, not the session.
pub open spec fn renewing(name: Seq<char>, r: Seq<Reply>, i: int, said: Said) -> TalkView<
    Result<Option<u32>, Seq<char>>,
> {
    match started(r, i, ask(said, 0, Deed::StartHeartbeat(name))) {
        TalkView::Ask(q) => TalkView::Ask(q),
        TalkView::Done(Err(e), n, s) => TalkView::Done(
            Ok(None),
            n,
            s.push(
                (
                    true,
                    name + ": could not start the renewal heartbeat: "@ + e
                        + ". The session works but its expiry will not move; `reaper renew` extends it by hand"@,
                ),
            ),
        ),
        TalkView::Done(Ok(pid), n, s) => match done(
            r,
            n,
            ask(s, 0, Deed::RecordHeartbeat(name, pid)),
        ) {
            TalkView::Ask(q) => TalkView::Ask(q),
            TalkView::Done(Err(e), n, s) => TalkView::Done(Err(e), n, s),
            TalkView::Done(Ok(_), n, s) => TalkView::Done(Ok(pid), n, s),
        },
    }
}

pub open spec fn farewell(name: Seq<char>, a: Address, ttl: int, pid: Option<u32>, said: Said) -> Said {
    let s = said.push(
        (
            false,
            name + ": up at "@ + address_text(a) + ", expires in "@ + exact(
                (ttl / 1_000_000_000) as nat,
            ),
        ),
    );
    match pid {
        Some(p) => s.push(
            (
                false,
                name + ": renewing in the background as pid "@ + dec(p as nat)
                    + ". That process runs until `reaper down`; `up` itself is finished here"@,
            ),
        ),
        None => s,
    }
}

/// What is left once the machine is ready: its real expiry, on the machine and
/// in the record, and its heartbeat.
///
/// The ready session is recorded before the heartbeat starts: a heartbeat that
/// does not start must not leave a record that still says "no address, expiring
/// on the grace".
pub open spec fn readied(
    site: Site,
    new: SessionView,
    a: Address,
    ttl: int,
    r: Seq<Reply>,
    i: int,
    said: Said,
) -> TalkView<Outcome> {
    let ready_at = reached(r, i, site.start)@;
    if ready_at + ttl > crate::time::last_moment() {
        TalkView::Done(
            Err("that moment is further away than any clock can show"@),
            i,
            said,
        )
    } else {
        match done(r, i, ask(said, 0, Deed::SetExpiry(new.machine, ready_at + ttl))) {
            TalkView::Ask(q) => TalkView::Ask(q),
            TalkView::Done(Err(e), n, s) => TalkView::Done(Err(e), n, s),
            TalkView::Done(Ok(_), n, s) => match done(
                r,
                n,
                ask(
                    s,
                    0,
                    Deed::Put(
                        SessionView {
                            address: Some(a),
                            ready_at: Some(ready_at),
                            expires_at: ready_at + ttl,
                            ..new
                        },
                    ),
                ),
            ) {
                TalkView::Ask(q) => TalkView::Ask(q),
                TalkView::Done(Err(e), n, s) => TalkView::Done(Err(e), n, s),
                TalkView::Done(Ok(_), n, s) => match renewing(new.name, r, n, s) {
                    TalkView::Ask(q) => TalkView::Ask(q),
                    TalkView::Done(Err(e), n, s) => TalkView::Done(Err(e), n, s),
                    TalkView::Done(Ok(pid), n, s) => TalkView::Done(
                        Ok(()),
                        n,
                        farewell(new.name, a, ttl, pid, s),
                    ),
                },
            },
        }
    }
}

fn renew(name: &str, r: &Vec<Reply>, i: usize, said: Vec<Line>) -> (t: Talk<
    Result<Option<u32>, String>,
>)
    requires
        i <= r@.len(),
    ensures
        value_talk(t) == renewing(name@, r@, i as int, lines(said@)),
        within(t, i, r@),
{
    match ask_pid(r, i, said, Deed::StartHeartbeat(name.to_string())) {
        Talk::Ask(q) => Talk::Ask(q),
        Talk::Done(v, n, s) => match v {
            Err(e) => {
                let line = name.to_string().concat(
                    ": could not start the renewal heartbeat: ",
                ).concat(e.as_str()).concat(
                    ". The session works but its expiry will not move; `reaper renew` extends it by hand",
                );
                Talk::Done(Ok(None), n, warn(s, line))
            },
            Ok(pid) => match ask_done(r, n, s, 0, Deed::RecordHeartbeat(name.to_string(), pid)) {
                Talk::Ask(q) => Talk::Ask(q),
                Talk::Done(v, n, s) => match v {
                    Err(e) => Talk::Done(Err(e), n, s),
                    Ok(_) => Talk::Done(Ok(pid), n, s),
                },
            },
        },
    }
}

fn ready(
    site: &Site,
    new: Session,
    a: Address,
    ttl: &Duration,
    r: &Vec<Reply>,
    i: usize,
    said: Vec<Line>,
) -> (t: Talk<Result<(), String>>)
    requires
        i <= r@.len(),
    ensures
        unit_talk(t) == readied(*site, new@, a, ttl@, r@, i as int, lines(said@)),
        within(t, i, r@),
{
    let ready_at = now(r, i, &site.start);
    let expires_at = match later(&ready_at, ttl) {
        Ok(t) => t,
        Err(e) => {
            return Talk::Done(Err(e), i, said);
        },
    };
    let ghost was = new@;
    let mut session = new;
    let name = session.name.clone();
    let (n, s) = match ask_done(
        r,
        i,
        said,
        0,
        Deed::SetExpiry(session.machine.0.clone(), expires_at),
    ) {
        Talk::Ask(q) => {
            return Talk::Ask(q);
        },
        Talk::Done(v, n, s) => match v {
            Err(e) => {
                return Talk::Done(Err(e), n, s);
            },
            Ok(_) => (n, s),
        },
    };
    session.address = Some(a);
    session.ready_at = Some(ready_at);
    session.expires_at = expires_at;
    assert(session@ =~= SessionView {
        address: Some(a),
        ready_at: Some(ready_at@),
        expires_at: ready_at@ + ttl@,
        ..was
    });
    let (n, s) = match ask_done(r, n, s, 0, Deed::Put(session)) {
        Talk::Ask(q) => {
            return Talk::Ask(q);
        },
        Talk::Done(v, n, s) => match v {
            Err(e) => {
                return Talk::Done(Err(e), n, s);
            },
            Ok(_) => (n, s),
        },
    };
    match renew(name.as_str(), r, n, s) {
        Talk::Ask(q) => Talk::Ask(q),
        Talk::Done(v, n, s) => match v {
            Err(e) => Talk::Done(Err(e), n, s),
            Ok(pid) => {
                ttl.bounds();
                let s = say(
                    s,
                    name.clone().concat(": up at ").concat(a.text().as_str()).concat(
                        ", expires in ",
                    ).concat(crate::duration::format(*ttl).as_str()),
                );
                // Named, because `up` leaves a second reaper process behind.
                let s = match pid {
                    Some(p) => say(
                        s,
                        name.concat(": renewing in the background as pid ").concat(
                            decimal(p as u64).as_str(),
                        ).concat(
                            ". That process runs until `reaper down`; `up` itself is finished here",
                        ),
                    ),
                    None => s,
                };
                Talk::Done(Ok(()), n, s)
            },
        },
    }
}

// ---------------------------------------------------------------------------
// A new session
// ---------------------------------------------------------------------------

/// How many of the sessions on the provider are somebody else's, as far as this
/// workstation knows.
pub open spec fn not_mine(live: nat, mine: nat) -> nat {
    if live > mine {
        (live - mine) as nat
    } else {
        0
    }
}

pub open spec fn over_cap(cfg: Config, live: nat, mine: nat) -> Seq<char> {
    dec(live) + " session(s) are already up on this provider and it allows "@ + dec(
        cfg.session.max_concurrent as nat,
    ) + (if not_mine(live, mine) > 0 {
        " -- "@ + dec(not_mine(live, mine)) + " of them not yours"@
    } else {
        Seq::empty()
    }) + ". Take one down, or raise session.max_concurrent in "@ + cfg.path@
}

/// The session as it is recorded before anything slow happens. Its first expiry
/// is the readiness grace, not its time to live: a full-copy clone can take
/// minutes.
pub open spec fn newborn(
    site: Site,
    g: Guest,
    name: Seq<char>,
    template: Seq<char>,
    machine: Seq<char>,
    created: int,
    ttl: int,
) -> SessionView {
    SessionView {
        name,
        project: site.manifest.project@,
        guest: g.name@,
        template,
        machine,
        address: None,
        created_at: created,
        ready_at: None,
        expires_at: created + site.cfg.session.ready_grace@,
        ttl,
        heartbeat_pid: None,
        synced_at: None,
    }
}

pub open spec fn template_of(cfg: Config, g: Guest) -> Seq<char> {
    find(registry(cfg.guests@), g.name@)->0
}

pub open spec fn birth(
    site: Site,
    g: Guest,
    name: Seq<char>,
    created: int,
) -> crate::verbs::deeds::DeedView {
    Deed::Create {
        name,
        template: template_of(*site.cfg, g),
        cores: g.resources.cores,
        ram_gb: g.resources.ram_gb,
        disk_gb: Some(
            match g.resources.disk_gb {
                Some(d) => d,
                None => site.cfg.session.default_disk_gb,
            },
        ),
        expires_at: created + site.cfg.session.ready_grace@,
    }
}

/// What is done with a machine that answers.
pub open spec fn completed(
    site: Site,
    g: Guest,
    new: SessionView,
    a: Address,
    r: Seq<Reply>,
    i: int,
    said: Said,
) -> TalkView<Outcome> {
    match prepared(site, new.name, a, r, i, said) {
        TalkView::Ask(q) => TalkView::Ask(q),
        TalkView::Done(Err(e), n, s) => TalkView::Done(Err(e), n, s),
        TalkView::Done(Ok(_), n, s) => match prefetched(
            new.name,
            a,
            names(ordered(all_images(g))),
            r,
            n,
            s,
        ) {
            TalkView::Ask(q) => TalkView::Ask(q),
            TalkView::Done(_, n, s) => match triggered(site, new.name, a, r, n, s) {
                TalkView::Ask(q) => TalkView::Ask(q),
                TalkView::Done(Err(e), n, s) => TalkView::Done(Err(e), n, s),
                TalkView::Done(Ok(_), n, s) => readied(site, new, a, new.ttl, r, n, s),
            },
        },
    }
}

/// What is done with a machine that was made: it is recorded before anything
/// else, so that an interrupted `up` leaves a session `down` can find.
pub open spec fn raised(
    site: Site,
    g: Guest,
    new: SessionView,
    r: Seq<Reply>,
    i: int,
    said: Said,
) -> TalkView<Outcome> {
    match done(r, i, ask(said, 0, Deed::Put(new))) {
        TalkView::Ask(q) => TalkView::Ask(q),
        TalkView::Done(Err(e), n, s) => TalkView::Done(Err(e), n, s),
        TalkView::Done(Ok(_), n, s) => match done(r, n, ask(s, 0, Deed::Start(new.machine))) {
            TalkView::Ask(q) => TalkView::Ask(q),
            TalkView::Done(Err(e), n, s) => TalkView::Done(Err(e), n, s),
            TalkView::Done(Ok(_), n, s) => match done(
                r,
                n,
                ask(s, 0, Deed::ForgetHosts(new.name)),
            ) {
                TalkView::Ask(q) => TalkView::Ask(q),
                TalkView::Done(Err(e), n, s) => TalkView::Done(Err(e), n, s),
                TalkView::Done(Ok(_), n, s) => match reachable(
                    site,
                    new.name,
                    new.machine,
                    new.expires_at,
                    r,
                    n,
                    s,
                    None,
                    0,
                ) {
                    TalkView::Ask(q) => TalkView::Ask(q),
                    TalkView::Done(Err(e), n, s) => TalkView::Done(Err(e), n, s),
                    TalkView::Done(Ok(Some(a)), n, s) => completed(site, g, new, a, r, n, s),
                    TalkView::Done(Ok(None), n, s) => TalkView::Done(
                        Ok(()),
                        n,
                        s.push((false, unanswered(site, new.name))),
                    ),
                },
            },
        },
    }
}

/// The machine exists and carries its grace expiry, so nothing is leaked
/// whatever happens next.
pub open spec fn unanswered(site: Site, name: Seq<char>) -> Seq<char> {
    name + ": created, but nothing answered on it within "@ + exact(
        (site.cfg.session.ready_grace@ / 1_000_000_000) as nat,
    ) + ". It is tagged to expire; `reaper list` will show it, and `reaper down "@ + name
        + "` will remove it."@
}

/// Bringing up a session that is not there yet.
///
/// The cap is counted from the provider, not from this workstation's session
/// file. The resources a cap protects are the cluster's.
pub open spec fn fresh(
    site: Site,
    g: Guest,
    name: Seq<char>,
    ttl: int,
    r: Seq<Reply>,
    i: int,
    said: Said,
) -> TalkView<Outcome> {
    match machines(r, i, ask(said, 0, Deed::Machines)) {
        TalkView::Ask(q) => TalkView::Ask(q),
        TalkView::Done(Err(e), n, s) => TalkView::Done(Err(e), n, s),
        TalkView::Done(Ok(live), n, s) => if live@.len() >= site.cfg.session.max_concurrent {
            match listed(r, n, ask(s, 0, Deed::List)) {
                TalkView::Ask(q) => TalkView::Ask(q),
                TalkView::Done(Err(e), n, s) => TalkView::Done(Err(e), n, s),
                TalkView::Done(Ok(mine), n, s) => TalkView::Done(
                    Err(over_cap(*site.cfg, live@.len(), mine@.len())),
                    n,
                    s,
                ),
            }
        } else {
            let created = reached(r, n, site.start);
            match later_than(created, site.cfg.session.ready_grace) {
                Err(e) => TalkView::Done(Err(e), n, s),
                Ok(_) => match made(
                    r,
                    n,
                    ask(
                        s.push((false, name + ": creating on "@ + g.name@)),
                        0,
                        birth(site, g, name, created@),
                    ),
                ) {
                    TalkView::Ask(q) => TalkView::Ask(q),
                    TalkView::Done(Err(e), n, s) => TalkView::Done(Err(e), n, s),
                    TalkView::Done(Ok(machine), n, s) => raised(
                        site,
                        g,
                        newborn(
                            site,
                            g,
                            name,
                            template_of(*site.cfg, g),
                            machine.0@,
                            created@,
                            ttl,
                        ),
                        r,
                        n,
                        s,
                    ),
                },
            }
        },
    }
}

/// Bringing up the session of one guest.
#[verifier::opaque]
pub open spec fn one_up(
    site: Site,
    g: Guest,
    ttl: int,
    r: Seq<Reply>,
    i: int,
    said: Said,
) -> TalkView<Outcome> {
    // From the manifest, not the selection: one guest of a manifest with two
    // must get the same name a plain `up` would give it.
    let name = name_of(
        site.manifest.project@,
        g.name@,
        site.manifest.guests@.len() == 1,
    );
    match found(r, i, ask(said, 0, Deed::Get(name))) {
        TalkView::Ask(q) => TalkView::Ask(q),
        TalkView::Done(Err(e), n, s) => TalkView::Done(Err(e), n, s),
        TalkView::Done(Ok(Some(x)), n, s) => reused(site, name, x, r, n, s),
        TalkView::Done(Ok(None), n, s) => fresh(site, g, name, ttl, r, n, s),
    }
}

/// Bringing up the sessions of guests, one after another.
pub open spec fn all_up(
    site: Site,
    wanted: Seq<Guest>,
    ttl: int,
    r: Seq<Reply>,
    i: int,
    said: Said,
) -> TalkView<Outcome>
    decreases wanted.len(),
{
    if wanted.len() == 0 {
        TalkView::Done(Ok(()), i, said)
    } else {
        match one_up(site, wanted[0], ttl, r, i, said) {
            TalkView::Ask(q) => TalkView::Ask(q),
            TalkView::Done(Err(e), n, s) => TalkView::Done(Err(e), n, s),
            TalkView::Done(Ok(_), n, s) => all_up(site, wanted.skip(1), ttl, r, n, s),
        }
    }
}

/// The guests to bring up: the one that was named, or every one.
pub open spec fn wanted_of(m: Manifest, guest: Option<Seq<char>>) -> Result<Seq<Guest>, Seq<char>> {
    match guest {
        None => Ok(m.guests@),
        Some(name) => match guest_named(m.guests@, name) {
            Some(g) => Ok(seq![g]),
            None => Err(
                "the manifest does not name a guest "@ + debug_text(name) + "; it names: "@ + join(
                    guest_names(m.guests@),
                    ", "@,
                ),
            ),
        },
    }
}

pub open spec fn guest_names(g: Seq<Guest>) -> Seq<Seq<char>> {
    g.map_values(|x: Guest| x.name@)
}

/// The sentence for the first of the guests that the site does not register.
pub open spec fn first_unregistered(cfg: Config, wanted: Seq<Guest>) -> Option<Seq<char>>
    decreases wanted.len(),
{
    if wanted.len() == 0 {
        None
    } else {
        match unregistered(cfg, wanted[0].name@) {
            Some(m) => Some(m),
            None => first_unregistered(cfg, wanted.skip(1)),
        }
    }
}

/// `up`: every guest is resolved against the registry before anything is
/// created, and what is cheap to look at is looked at before anything is spent.
pub open spec fn brought_up(
    site: Site,
    guest: Option<Seq<char>>,
    profile: Option<Seq<char>>,
    ttl: Option<Seq<char>>,
    key_present: bool,
    r: Seq<Reply>,
) -> TalkView<Outcome> {
    match wanted_of(*site.manifest, guest) {
        Err(e) => TalkView::Done(Err(e), 0, Seq::empty()),
        Ok(wanted) => match first_unregistered(*site.cfg, wanted) {
            Some(e) => TalkView::Done(Err(e), 0, Seq::empty()),
            None => match done(r, 0, ask(Seq::empty(), 0, Deed::ProbeStore)) {
                TalkView::Ask(q) => TalkView::Ask(q),
                TalkView::Done(Err(e), n, s) => TalkView::Done(Err(e), n, s),
                TalkView::Done(Ok(_), n, s) => match missing_key(*site.cfg, key_present) {
                    Some(e) => TalkView::Done(Err(e), n, s),
                    None => match ttl_of(*site.cfg, *site.manifest, profile, ttl) {
                        Err(e) => TalkView::Done(Err(e), n, s),
                        Ok(t) => match done(r, n, ask(s, 0, Deed::Provider)) {
                            TalkView::Ask(q) => TalkView::Ask(q),
                            TalkView::Done(Err(e), n, s) => TalkView::Done(Err(e), n, s),
                            TalkView::Done(Ok(_), n, s) => all_up(site, wanted, t, r, n, s),
                        },
                    },
                },
            },
        },
    }
}

fn complete(
    site: &Site,
    g: &Guest,
    new: Session,
    a: Address,
    ttl: &Duration,
    r: &Vec<Reply>,
    i: usize,
    said: Vec<Line>,
) -> (t: Talk<Result<(), String>>)
    requires
        i <= r@.len(),
        new@.ttl == ttl@,
    ensures
        unit_talk(t) == completed(*site, *g, new@, a, r@, i as int, lines(said@)),
        within(t, i, r@),
{
    match prepare(site, new.name.as_str(), a, r, i, said) {
        Talk::Ask(q) => Talk::Ask(q),
        Talk::Done(v, n, s) => match v {
            Err(e) => Talk::Done(Err(e), n, s),
            Ok(_) => {
                let images = declared_images(g);
                match prepull(new.name.as_str(), a, &images, r, n, s) {
                    Talk::Ask(q) => Talk::Ask(q),
                    Talk::Done(_, n, s) => match start_control(
                        site,
                        new.name.as_str(),
                        a,
                        r,
                        n,
                        s,
                    ) {
                        Talk::Ask(q) => Talk::Ask(q),
                        Talk::Done(v, n, s) => match v {
                            Err(e) => Talk::Done(Err(e), n, s),
                            Ok(_) => ready(site, new, a, ttl, r, n, s),
                        },
                    },
                }
            },
        },
    }
}

fn raise(
    site: &Site,
    g: &Guest,
    new: Session,
    ttl: &Duration,
    r: &Vec<Reply>,
    i: usize,
    said: Vec<Line>,
) -> (t: Talk<Result<(), String>>)
    requires
        i <= r@.len(),
        new@.ttl == ttl@,
    ensures
        unit_talk(t) == raised(*site, *g, new@, r@, i as int, lines(said@)),
        within(t, i, r@),
{
    let (n, s) = match ask_done(r, i, said, 0, Deed::Put(new.copy())) {
        Talk::Ask(q) => {
            return Talk::Ask(q);
        },
        Talk::Done(v, n, s) => match v {
            Err(e) => {
                return Talk::Done(Err(e), n, s);
            },
            Ok(_) => (n, s),
        },
    };
    let (n, s) = match ask_done(r, n, s, 0, Deed::Start(new.machine.0.clone())) {
        Talk::Ask(q) => {
            return Talk::Ask(q);
        },
        Talk::Done(v, n, s) => match v {
            Err(e) => {
                return Talk::Done(Err(e), n, s);
            },
            Ok(_) => (n, s),
        },
    };
    // Cleared once. A session starts with no history, so it cannot inherit a
    // stale key from an address that has been recycled.
    let (n, s) = match ask_done(r, n, s, 0, Deed::ForgetHosts(new.name.clone())) {
        Talk::Ask(q) => {
            return Talk::Ask(q);
        },
        Talk::Done(v, n, s) => match v {
            Err(e) => {
                return Talk::Done(Err(e), n, s);
            },
            Ok(_) => (n, s),
        },
    };
    match wait_until_reachable(
        site,
        new.name.as_str(),
        new.machine.0.as_str(),
        &new.expires_at,
        r,
        n,
        s,
    ) {
        Talk::Ask(q) => Talk::Ask(q),
        Talk::Done(v, n, s) => match v {
            Err(e) => Talk::Done(Err(e), n, s),
            Ok(Some(a)) => complete(site, g, new, a, ttl, r, n, s),
            Ok(None) => {
                site.cfg.session.ready_grace.bounds();
                let line = new.name.clone().concat(
                    ": created, but nothing answered on it within ",
                ).concat(
                    crate::duration::format(site.cfg.session.ready_grace).as_str(),
                ).concat(
                    ". It is tagged to expire; `reaper list` will show it, and `reaper down ",
                ).concat(new.name.as_str()).concat("` will remove it.");
                Talk::Done(Ok(()), n, say(s, line))
            },
        },
    }
}

fn complain_of_cap(cfg: &Config, live: usize, mine: usize) -> (r: String)
    ensures
        r@ == over_cap(*cfg, live as nat, mine as nat),
{
    let others = if live > mine {
        " -- ".to_string().concat(decimal((live - mine) as u64).as_str()).concat(
            " of them not yours",
        )
    } else {
        String::new()
    };
    assert(live <= mine ==> others@ =~= Seq::empty());
    decimal(live as u64).concat(
        " session(s) are already up on this provider and it allows ",
    ).concat(decimal(cfg.session.max_concurrent as u64).as_str()).concat(others.as_str()).concat(
        ". Take one down, or raise session.max_concurrent in ",
    ).concat(cfg.path.as_str())
}

fn begin(
    site: &Site,
    g: &Guest,
    name: &str,
    ttl: &Duration,
    r: &Vec<Reply>,
    i: usize,
    said: Vec<Line>,
) -> (t: Talk<Result<(), String>>)
    requires
        i <= r@.len(),
        find(registry(site.cfg.guests@), g.name@) is Some,
    ensures
        unit_talk(t) == fresh(*site, *g, name@, ttl@, r@, i as int, lines(said@)),
        within(t, i, r@),
{
    let (n, s) = match ask_machines(r, i, said, 0) {
        Talk::Ask(q) => {
            return Talk::Ask(q);
        },
        Talk::Done(v, n, s) => match v {
            Err(e) => {
                return Talk::Done(Err(e), n, s);
            },
            Ok(live) => {
                if live.len() >= site.cfg.session.max_concurrent {
                    return match ask_list(r, n, s) {
                        Talk::Ask(q) => Talk::Ask(q),
                        Talk::Done(v, n, s) => match v {
                            Err(e) => Talk::Done(Err(e), n, s),
                            Ok(mine) => Talk::Done(
                                Err(complain_of_cap(site.cfg, live.len(), mine.len())),
                                n,
                                s,
                            ),
                        },
                    };
                }
                (n, s)
            },
        },
    };
    let template = match site.cfg.template_for(g.name.as_str()) {
        Some(t) => t.to_string(),
        None => String::new(),
    };
    let created = now(r, n, &site.start);
    let expires_at = match later(&created, &site.cfg.session.ready_grace) {
        Ok(t) => t,
        Err(e) => {
            return Talk::Done(Err(e), n, s);
        },
    };
    let disk: u32 = match g.resources.disk_gb {
        Some(d) => d,
        None => site.cfg.session.default_disk_gb,
    };
    let s = say(s, name.to_string().concat(": creating on ").concat(g.name.as_str()));
    let deed = Deed::Create {
        name: name.to_string(),
        template: template.clone(),
        cores: g.resources.cores,
        ram_gb: g.resources.ram_gb,
        disk_gb: Some(disk),
        expires_at,
    };
    match ask_machine(r, n, s, deed) {
        Talk::Ask(q) => Talk::Ask(q),
        Talk::Done(v, n, s) => match v {
            Err(e) => Talk::Done(Err(e), n, s),
            Ok(machine) => {
                let new = Session {
                    name: name.to_string(),
                    project: site.manifest.project.clone(),
                    guest: g.name.clone(),
                    template,
                    machine: machine.copy(),
                    address: None,
                    created_at: created,
                    ready_at: None,
                    expires_at,
                    ttl: *ttl,
                    heartbeat_pid: None,
                    synced_at: None,
                };
                assert(new@ =~= newborn(
                    *site,
                    *g,
                    name@,
                    template_of(*site.cfg, *g),
                    machine.0@,
                    created@,
                    ttl@,
                ));
                raise(site, g, new, ttl, r, n, s)
            },
        },
    }
}

fn up_one(site: &Site, g: &Guest, ttl: &Duration, r: &Vec<Reply>, i: usize, said: Vec<Line>) -> (t:
    Talk<Result<(), String>>)
    requires
        i <= r@.len(),
        find(registry(site.cfg.guests@), g.name@) is Some,
    ensures
        unit_talk(t) == one_up(*site, *g, ttl@, r@, i as int, lines(said@)),
        within(t, i, r@),
{
    proof {
        reveal(one_up);
    }
    let name = session_name(
        site.manifest.project.as_str(),
        g.name.as_str(),
        site.manifest.guests.len() == 1,
    );
    match ask_found(r, i, said, Deed::Get(name.clone())) {
        Talk::Ask(q) => Talk::Ask(q),
        Talk::Done(v, n, s) => match v {
            Err(e) => Talk::Done(Err(e), n, s),
            Ok(Some(x)) => reuse(site, name.as_str(), x, r, n, s),
            Ok(None) => begin(site, g, name.as_str(), ttl, r, n, s),
        },
    }
}

fn names_in(g: &Vec<Guest>) -> (r: Vec<String>)
    ensures
        texts(r@) == guest_names(g@),
{
    let mut out: Vec<String> = Vec::new();
    let mut i: usize = 0;
    while i < g.len()
        invariant
            i <= g@.len(),
            out@.len() == i,
            forall|k: int| 0 <= k < i ==> (#[trigger] out@[k])@ == g@[k].name@,
        decreases g@.len() - i,
    {
        out.push(g[i].name.clone());
        i += 1;
    }
    assert(texts(out@) =~= guest_names(g@));
    out
}

/// The position of the guest with a name.
fn position_of(g: &Vec<Guest>, name: &str) -> (r: Option<usize>)
    ensures
        match r {
            Some(i) => i < g@.len() && guest_named(g@, name@) == Some(g@[i as int]),
            None => guest_named(g@, name@) is None,
        },
{
    let mut i: usize = 0;
    assert(g@.skip(0) =~= g@);
    while i < g.len()
        invariant
            i <= g@.len(),
            guest_named(g@, name@) == guest_named(g@.skip(i as int), name@),
        decreases g@.len() - i,
    {
        assert(g@.skip(i as int)[0] == g@[i as int]);
        if same(g[i].name.as_str(), name) {
            return Some(i);
        }
        assert(g@.skip(i as int).skip(1) =~= g@.skip(i + 1));
        i += 1;
    }
    None
}

fn check_registered(cfg: &Config, all: &Vec<Guest>, from: usize, to: usize) -> (r: Option<String>)
    requires
        from <= to <= all@.len(),
    ensures
        maybe(r) == first_unregistered(*cfg, all@.subrange(from as int, to as int)),
        r is None ==> forall|j: int|
            from <= j < to ==> find(registry(cfg.guests@), (#[trigger] all@[j]).name@) is Some,
{
    let ghost wanted = all@.subrange(from as int, to as int);
    let mut k: usize = from;
    assert(wanted.skip(0) =~= wanted);
    while k < to
        invariant
            from <= k <= to <= all@.len(),
            wanted == all@.subrange(from as int, to as int),
            first_unregistered(*cfg, wanted) == first_unregistered(*cfg, wanted.skip(k - from)),
            forall|j: int|
                from <= j < k ==> find(registry(cfg.guests@), (#[trigger] all@[j]).name@) is Some,
        decreases to - k,
    {
        assert(wanted.skip(k - from)[0] == all@[k as int]);
        match unregistered_guest(cfg, all[k].name.as_str()) {
            Some(e) => {
                return Some(e);
            },
            None => {},
        }
        assert(wanted.skip(k - from).skip(1) =~= wanted.skip(k + 1 - from));
        k += 1;
    }
    None
}

fn up_all(
    site: &Site,
    all: &Vec<Guest>,
    from: usize,
    to: usize,
    ttl: &Duration,
    r: &Vec<Reply>,
    i: usize,
    said: Vec<Line>,
) -> (t: Talk<Result<(), String>>)
    requires
        i <= r@.len(),
        from <= to <= all@.len(),
        forall|j: int|
            from <= j < to ==> find(
                registry(site.cfg.guests@),
                (#[trigger] all@[j]).name@,
            ) is Some,
    ensures
        unit_talk(t) == all_up(
            *site,
            all@.subrange(from as int, to as int),
            ttl@,
            r@,
            i as int,
            lines(said@),
        ),
        within(t, i, r@),
{
    let ghost wanted = all@.subrange(from as int, to as int);
    let ghost whole = all_up(*site, wanted, ttl@, r@, i as int, lines(said@));
    let mut at: usize = i;
    let mut lately: Vec<Line> = said;
    let mut k: usize = from;
    assert(wanted.skip(0) =~= wanted);
    while k < to
        invariant
            from <= k <= to <= all@.len(),
            i <= at <= r@.len(),
            wanted == all@.subrange(from as int, to as int),
            whole == all_up(*site, wanted, ttl@, r@, i as int, lines(said@)),
            whole == all_up(*site, wanted.skip(k - from), ttl@, r@, at as int, lines(lately@)),
            forall|j: int|
                from <= j < to ==> find(
                    registry(site.cfg.guests@),
                    (#[trigger] all@[j]).name@,
                ) is Some,
        decreases to - k,
    {
        assert(wanted.skip(k - from)[0] == all@[k as int]);
        assert(wanted.skip(k - from).skip(1) =~= wanted.skip(k + 1 - from));
        match up_one(site, &all[k], ttl, r, at, lately) {
            Talk::Ask(q) => {
                return Talk::Ask(q);
            },
            Talk::Done(v, n, s) => match v {
                Err(e) => {
                    return Talk::Done(Err(e), n, s);
                },
                Ok(_) => {
                    at = n;
                    lately = s;
                },
            },
        }
        k += 1;
    }
    Talk::Done(Ok(()), at, lately)
}

/// Bring up a session for each guest that is wanted.
pub fn up(
    site: &Site,
    guest: &Option<String>,
    profile: &Option<String>,
    ttl: &Option<String>,
    key_present: bool,
    r: &Vec<Reply>,
) -> (t: Talk<Result<(), String>>)
    ensures
        unit_talk(t) == brought_up(
            *site,
            maybe(*guest),
            maybe(*profile),
            maybe(*ttl),
            key_present,
            r@,
        ),
{
    let all = &site.manifest.guests;
    let count: usize = all.len();
    let (from, to): (usize, usize) = match guest {
        None => (0, count),
        Some(name) => match position_of(all, name.as_str()) {
            Some(k) => (k, k + 1),
            None => {
                return Talk::Done(
                    Err(
                        "the manifest does not name a guest ".to_string().concat(
                            quoted(name.as_str()).as_str(),
                        ).concat("; it names: ").concat(
                            join_text(&names_in(all), ", ").as_str(),
                        ),
                    ),
                    0,
                    silence(),
                );
            },
        },
    };
    proof {
        let wanted = all@.subrange(from as int, to as int);
        if guest is Some {
            assert(wanted =~= seq![all@[from as int]]);
        } else {
            assert(wanted =~= all@);
        }
        assert(wanted_of(*site.manifest, maybe(*guest)) == Ok::<Seq<Guest>, Seq<char>>(wanted));
    }
    // Resolve every guest against the registry before creating anything. A typo
    // should cost nothing.
    match check_registered(site.cfg, all, from, to) {
        Some(e) => {
            return Talk::Done(Err(e), 0, silence());
        },
        None => {},
    }
    // Cheap checks before expensive spending: a machine created ahead of these
    // failing is a machine wasted.
    let (n, s) = match ask_done(r, 0, silence(), 0, Deed::ProbeStore) {
        Talk::Ask(q) => {
            return Talk::Ask(q);
        },
        Talk::Done(v, n, s) => match v {
            Err(e) => {
                return Talk::Done(Err(e), n, s);
            },
            Ok(_) => (n, s),
        },
    };
    match missing_ssh_key(site.cfg, key_present) {
        Some(e) => {
            return Talk::Done(Err(e), n, s);
        },
        None => {},
    }
    let span = match ttl_for(site.cfg, site.manifest, profile, ttl) {
        Ok(d) => d,
        Err(e) => {
            return Talk::Done(Err(e), n, s);
        },
    };
    match ask_done(r, n, s, 0, Deed::Provider) {
        Talk::Ask(q) => Talk::Ask(q),
        Talk::Done(v, n, s) => match v {
            Err(e) => Talk::Done(Err(e), n, s),
            Ok(_) => up_all(site, all, from, to, &span, r, n, s),
        },
    }
}

// ---------------------------------------------------------------------------
// What bringing up promises
// ---------------------------------------------------------------------------

/// A guest that the site does not register costs nothing: nothing at all is
/// asked for.
pub proof fn law_a_typo_costs_nothing(
    site: Site,
    guest: Option<Seq<char>>,
    profile: Option<Seq<char>>,
    ttl: Option<Seq<char>>,
    key_present: bool,
    r: Seq<Reply>,
)
    requires
        wanted_of(*site.manifest, guest) matches Ok(wanted) ==> first_unregistered(
            *site.cfg,
            wanted,
        ) is Some,
    ensures
        brought_up(site, guest, profile, ttl, key_present, r) matches TalkView::Done(o, n, s)
            && o is Err && n == 0 && s.len() == 0,
{
}

/// Nothing is made before the store was found writable, the key was found and
/// the time to live was read.
pub proof fn law_cheap_checks_come_first(
    site: Site,
    guest: Option<Seq<char>>,
    profile: Option<Seq<char>>,
    ttl: Option<Seq<char>>,
    key_present: bool,
    r: Seq<Reply>,
)
    requires
        r.len() == 0 || unit_of_first(r) is Err || missing_key(*site.cfg, key_present) is Some
            || ttl_of(*site.cfg, *site.manifest, profile, ttl) is Err,
    ensures
        brought_up(site, guest, profile, ttl, key_present, r) matches TalkView::Ask(a)
            ==> a.deed is ProbeStore,
{
}

/// What came of the first deed.
pub open spec fn unit_of_first(r: Seq<Reply>) -> Outcome {
    match crate::verbs::deeds::unit_of(r[0].event) {
        Some(o) => o,
        None => Ok(()),
    }
}

/// Where the provider has as many machines as the site allows, none is made:
/// all that is still asked for is whose they are.
pub proof fn law_the_cap_holds(
    site: Site,
    g: Guest,
    name: Seq<char>,
    ttl: int,
    r: Seq<Reply>,
    i: int,
    said: Said,
)
    requires
        0 <= i < r.len(),
        r[i].event is Machines,
        r[i].event->Machines_0@.len() >= site.cfg.session.max_concurrent,
    ensures
        match fresh(site, g, name, ttl, r, i, said) {
            TalkView::Ask(a) => a.deed is List,
            TalkView::Done(o, _, _) => o is Err,
        },
{
}

/// A machine is made with the readiness grace as its expiry, on the provider
/// and in the record, and recorded before anything else is done with it.
pub proof fn law_a_new_machine_is_recorded_first(
    site: Site,
    g: Guest,
    name: Seq<char>,
    ttl: int,
    r: Seq<Reply>,
    i: int,
    said: Said,
)
    requires
        0 <= i,
        i + 2 == r.len(),
        r[i].event is Machines,
        r[i].event->Machines_0@.len() < site.cfg.session.max_concurrent,
        later_than(r[i].at, site.cfg.session.ready_grace) is Ok,
        r[i + 1].event is Machine,
    ensures
        fresh(site, g, name, ttl, r, i, said) matches TalkView::Ask(a) && a.deed == Deed::<
            Seq<char>,
            Seq<Seq<char>>,
            SessionView,
            int,
            int,
        >::Put(
            newborn(
                site,
                g,
                name,
                template_of(*site.cfg, g),
                r[i + 1].event->Machine_0.0@,
                r[i].at@,
                ttl,
            ),
        ),
        fresh(site, g, name, ttl, r.take(i + 1), i, said) matches TalkView::Ask(a) && a.deed
            == birth(site, g, name, r[i].at@),
{
    assert(r.take(i + 1)[i] == r[i]);
}

/// Another project's session is never reused, whatever the names: nothing is
/// asked for.
pub proof fn law_no_project_takes_anothers_session(
    site: Site,
    name: Seq<char>,
    x: Session,
    r: Seq<Reply>,
    i: int,
    said: Said,
)
    requires
        x.project@ != site.manifest.project@,
    ensures
        reused(site, name, x, r, i, said) matches TalkView::Done(o, n, s) && o is Err && n == i,
{
}

}
