//! Showing sessions, renewing them, and taking them down.
use vstd::prelude::*;
use vstd::string::*;

use crate::address::address_text;
use crate::config::Config;
use crate::duration::{exact, format_rough, rough};
use crate::paths::maybe;
use crate::session::Session;
use crate::text::{dec, decimal, same};
use crate::time::SystemTime;
use crate::verbs::common::{implied, implied_sessions, later, read_span, span, Here};
use crate::verbs::deeds::{
    ask, ask_done, ask_fate, ask_flag, ask_found, ask_list, ask_verdict, done, fared, flagged,
    found, found_of, judged, lines, listed, now, plain_talk, reached, say, silence, unit_talk, warn, within,
    Deed, Fate, Line, Outcome, Reply, Said, Talk, TalkView,
};
use crate::verbs::work::{collect_last_results, collected, tally, total};

verus! {

// ---------------------------------------------------------------------------
// list
// ---------------------------------------------------------------------------

/// A text with blanks after it, up to a width.
pub open spec fn padded(s: Seq<char>, width: nat) -> Seq<char> {
    if s.len() >= width {
        s
    } else {
        s + Seq::new((width - s.len()) as nat, |i: int| ' ')
    }
}

fn pad(s: String, width: usize) -> (r: String)
    ensures
        r@ == padded(s@, width as nat),
{
    let mut v = crate::text::chars_of(s.as_str());
    let ghost start = v@;
    while v.len() < width
        invariant
            start.len() <= v@.len(),
            start.len() >= width ==> v@ == start,
            start.len() < width ==> v@.len() <= width && v@ == start + Seq::new(
                (v@.len() - start.len()) as nat,
                |i: int| ' ',
            ),
        decreases width - v@.len(),
    {
        let ghost was = v@;
        v.push(' ');
        assert(v@ =~= start + Seq::new((v@.len() - start.len()) as nat, |i: int| ' '));
    }
    assert(v@ =~= padded(start, width as nat));
    crate::text::text_of(&v)
}

pub open spec fn row(
    name: Seq<char>,
    guest: Seq<char>,
    age: Seq<char>,
    expires: Seq<char>,
    address: Seq<char>,
    heartbeat: Seq<char>,
) -> Seq<char> {
    padded(name, 24) + " "@ + padded(guest, 16) + " "@ + padded(age, 8) + " "@ + padded(expires, 10)
        + " "@ + padded(address, 16) + " "@ + heartbeat
}

fn write_row(
    name: String,
    guest: String,
    age: String,
    expires: String,
    address: String,
    heartbeat: String,
) -> (r: String)
    ensures
        r@ == row(name@, guest@, age@, expires@, address@, heartbeat@),
{
    pad(name, 24).concat(" ").concat(pad(guest, 16).as_str()).concat(" ").concat(
        pad(age, 8).as_str(),
    ).concat(" ").concat(pad(expires, 10).as_str()).concat(" ").concat(
        pad(address, 16).as_str(),
    ).concat(" ").concat(heartbeat.as_str())
}

pub open spec fn age_secs(x: Session, at: SystemTime) -> nat {
    if at@ < x.created_at@ {
        0
    } else {
        ((at@ - x.created_at@) / 1_000_000_000) as nat
    }
}

/// Not a cosmetic state: the sweeper may take an expired machine at any moment.
pub open spec fn expires_words(x: Session, at: SystemTime) -> Seq<char> {
    if x.expires_at@ < at@ {
        "EXPIRED"@
    } else {
        rough(((x.expires_at@ - at@) / 1_000_000_000) as nat)
    }
}

/// A process that is alive and verifiably the heartbeat is vouched for; a pid
/// that the system has recycled for a stranger is a dead heartbeat wearing a
/// number.
pub open spec fn heartbeat_words(pid: Option<u32>, ours: bool) -> Seq<char> {
    match pid {
        None => "none"@,
        Some(p) => if ours {
            dec(p as nat)
        } else {
            dec(p as nat) + " DEAD"@
        },
    }
}

pub open spec fn session_row(x: Session, at: SystemTime, ours: bool) -> Seq<char> {
    row(
        x.name@,
        x.guest@,
        rough(age_secs(x, at)),
        expires_words(x, at),
        match x.address {
            Some(a) => address_text(a),
            None => "-"@,
        },
        heartbeat_words(x.heartbeat_pid, ours),
    )
}

/// Is the recorded heartbeat alive and ours?
pub open spec fn vouched(x: Session, r: Seq<Reply>, i: int, said: Said) -> TalkView<bool> {
    match x.heartbeat_pid {
        None => TalkView::Done(false, i, said),
        Some(p) => match judged(r, i, ask(said, 0, Deed::IsHeartbeat(p))) {
            TalkView::Ask(q) => TalkView::Ask(q),
            TalkView::Done(v, n, t) => TalkView::Done(v == Some(true), n, t),
        },
    }
}

pub open spec fn rows(
    v: Seq<Session>,
    at: SystemTime,
    r: Seq<Reply>,
    i: int,
    said: Said,
) -> TalkView<Outcome>
    decreases v.len(),
{
    if v.len() == 0 {
        TalkView::Done(Ok(()), i, said)
    } else {
        match vouched(v[0], r, i, said) {
            TalkView::Ask(q) => TalkView::Ask(q),
            TalkView::Done(ours, n, t) => rows(
                v.skip(1),
                at,
                r,
                n,
                t.push((false, session_row(v[0], at, ours))),
            ),
        }
    }
}

/// `list`: what is up, how long it has left, whether its heartbeat is alive.
pub open spec fn list_talk(start: SystemTime, r: Seq<Reply>) -> TalkView<Outcome> {
    match listed(r, 0, ask(Seq::empty(), 0, Deed::List)) {
        TalkView::Ask(q) => TalkView::Ask(q),
        TalkView::Done(Err(e), n, t) => TalkView::Done(Err(e), n, t),
        TalkView::Done(Ok(v), n, t) => if v@.len() == 0 {
            TalkView::Done(Ok(()), n, t.push((false, "no sessions"@)))
        } else {
            rows(
                v@,
                reached(r, n, start),
                r,
                n,
                t.push(
                    (
                        false,
                        row(
                            "SESSION"@,
                            "GUEST"@,
                            "AGE"@,
                            "EXPIRES"@,
                            "ADDRESS"@,
                            "HEARTBEAT"@,
                        ),
                    ),
                ),
            )
        },
    }
}

pub fn vouch(x: &Session, r: &Vec<Reply>, i: usize, said: Vec<Line>) -> (t: Talk<bool>)
    requires
        i <= r@.len(),
    ensures
        plain_talk(t) == vouched(*x, r@, i as int, lines(said@)),
        within(t, i, r@),
{
    match x.heartbeat_pid {
        None => Talk::Done(false, i, said),
        Some(p) => match ask_verdict(r, i, said, 0, Deed::IsHeartbeat(p)) {
            Talk::Ask(q) => Talk::Ask(q),
            Talk::Done(v, n, t) => {
                let ours = match v {
                    Some(b) => b,
                    None => false,
                };
                Talk::Done(ours, n, t)
            },
        },
    }
}

fn describe(x: &Session, at: &SystemTime, ours: bool) -> (r: String)
    ensures
        r@ == session_row(*x, *at, ours),
{
    let age = x.age(*at);
    age.bounds();
    let expires = match x.remaining(*at) {
        Some(d) => {
            d.bounds();
            format_rough(d)
        },
        None => "EXPIRED".to_string(),
    };
    let address = match &x.address {
        Some(a) => a.text(),
        None => "-".to_string(),
    };
    let heartbeat = match x.heartbeat_pid {
        None => "none".to_string(),
        Some(p) => {
            if ours {
                decimal(p as u64)
            } else {
                decimal(p as u64).concat(" DEAD")
            }
        },
    };
    write_row(x.name.clone(), x.guest.clone(), format_rough(age), expires, address, heartbeat)
}

/// Show live sessions.
pub fn list(start: &SystemTime, r: &Vec<Reply>) -> (t: Talk<Result<(), String>>)
    ensures
        unit_talk(t) == list_talk(*start, r@),
{
    let (v, n, t) = match ask_list(r, 0, silence()) {
        Talk::Ask(q) => {
            return Talk::Ask(q);
        },
        Talk::Done(o, n, t) => match o {
            Err(e) => {
                return Talk::Done(Err(e), n, t);
            },
            Ok(v) => (v, n, t),
        },
    };
    if v.len() == 0 {
        return Talk::Done(Ok(()), n, say(t, "no sessions".to_string()));
    }
    let when = now(r, n, start);
    let header = write_row(
        "SESSION".to_string(),
        "GUEST".to_string(),
        "AGE".to_string(),
        "EXPIRES".to_string(),
        "ADDRESS".to_string(),
        "HEARTBEAT".to_string(),
    );
    let mut at: usize = n;
    let mut lately: Vec<Line> = say(t, header);
    let ghost whole = rows(v@, when, r@, at as int, lines(lately@));
    let mut k: usize = 0;
    assert(v@.skip(0) =~= v@);
    while k < v.len()
        invariant
            k <= v@.len(),
            at <= r@.len(),
            whole == list_talk(*start, r@),
            whole == rows(v@.skip(k as int), when, r@, at as int, lines(lately@)),
        decreases v@.len() - k,
    {
        assert(v@.skip(k as int)[0] == v@[k as int]);
        assert(v@.skip(k as int).skip(1) =~= v@.skip(k + 1));
        match vouch(&v[k], r, at, lately) {
            Talk::Ask(q) => {
                return Talk::Ask(q);
            },
            Talk::Done(ours, n, t) => {
                at = n;
                lately = say(t, describe(&v[k], &when, ours));
            },
        }
        k += 1;
    }
    Talk::Done(Ok(()), at, lately)
}

// ---------------------------------------------------------------------------
// renew
// ---------------------------------------------------------------------------

/// The project that a verb was pointed at, if it was pointed at one; or why the
/// manifest it was pointed at cannot be read.
pub open spec fn pointed(p: Result<Option<String>, String>) -> Result<
    Option<Seq<char>>,
    Seq<char>,
> {
    match p {
        Ok(x) => Ok(maybe(x)),
        Err(e) => Err(e@),
    }
}

/// How long a renewal lasts: what was asked for, or what it lasted before.
pub open spec fn renewal(x: Session, ttl: Option<Seq<char>>) -> Result<int, Seq<char>> {
    match ttl {
        Some(t) => span(t),
        None => Ok(x.ttl@),
    }
}

/// Each session, to the end: one machine the sweeper took must not leave its
/// siblings unrenewed.
pub open spec fn all_renewed(
    v: Seq<Session>,
    ttl: Option<Seq<char>>,
    start: SystemTime,
    failures: nat,
    r: Seq<Reply>,
    i: int,
    said: Said,
) -> TalkView<Outcome>
    decreases v.len(),
{
    if v.len() == 0 {
        TalkView::Done(tally(failures, " session(s) could not be renewed"@), i, said)
    } else {
        let x = v[0];
        let at = reached(r, i, start);
        match renewal(x, ttl) {
            Err(e) => TalkView::Done(Err(e), i, said),
            Ok(d) => if at@ + d > crate::time::last_moment() {
                TalkView::Done(
                    Err("that moment is further away than any clock can show"@),
                    i,
                    said,
                )
            } else {
                match fared(r, i, ask(said, 0, Deed::SetExpiry(x.machine.0@, at@ + d))) {
                    TalkView::Ask(q) => TalkView::Ask(q),
                    TalkView::Done(Fate::Well, n, t) => match done(
                        r,
                        n,
                        ask(t, 0, Deed::RecordRenewal(x.name@, at@ + d, d)),
                    ) {
                        TalkView::Ask(q) => TalkView::Ask(q),
                        TalkView::Done(Err(e), n, t) => TalkView::Done(Err(e), n, t),
                        TalkView::Done(Ok(_), n, t) => all_renewed(
                            v.skip(1),
                            ttl,
                            start,
                            failures,
                            r,
                            n,
                            t.push(
                                (
                                    false,
                                    x.name@ + ": expires in "@ + exact(
                                        (d / 1_000_000_000) as nat,
                                    ),
                                ),
                            ),
                        ),
                    },
                    TalkView::Done(Fate::Gone(_), n, t) => all_renewed(
                        v.skip(1),
                        ttl,
                        start,
                        failures + 1,
                        r,
                        n,
                        t.push(
                            (
                                true,
                                x.name@
                                    + ": its machine is gone (the sweeper collects anything past its expiry); there is nothing left to renew. `reaper down "@
                                    + x.name@ + "` clears the record"@,
                            ),
                        ),
                    ),
                    TalkView::Done(Fate::Failed(e), n, t) => all_renewed(
                        v.skip(1),
                        ttl,
                        start,
                        failures + 1,
                        r,
                        n,
                        t.push((true, x.name@ + ": could not renew: "@ + e)),
                    ),
                }
            },
        }
    }
}

/// `renew`: pushing sessions' expiries further out.
pub open spec fn renew_talk(
    session: Option<Seq<char>>,
    ttl: Option<Seq<char>>,
    project: Result<Option<Seq<char>>, Seq<char>>,
    here: Here,
    start: SystemTime,
    r: Seq<Reply>,
) -> TalkView<Outcome> {
    match done(r, 0, ask(Seq::empty(), 0, Deed::Provider)) {
        TalkView::Ask(q) => TalkView::Ask(q),
        TalkView::Done(Err(e), n, t) => TalkView::Done(Err(e), n, t),
        TalkView::Done(Ok(_), n, t) => match project {
            Err(e) => TalkView::Done(Err(e), n, t),
            Ok(p) => match implied(session, p, here, r, n, t) {
                TalkView::Ask(q) => TalkView::Ask(q),
                TalkView::Done(Err(e), n, t) => TalkView::Done(Err(e), n, t),
                TalkView::Done(Ok(v), n, t) => all_renewed(v, ttl, start, 0, r, n, t),
            },
        },
    }
}

fn renew_all(
    v: &Vec<Session>,
    ttl: &Option<String>,
    start: &SystemTime,
    r: &Vec<Reply>,
    i: usize,
    said: Vec<Line>,
) -> (t: Talk<Result<(), String>>)
    requires
        i <= r@.len(),
    ensures
        unit_talk(t) == all_renewed(v@, maybe(*ttl), *start, 0, r@, i as int, lines(said@)),
        within(t, i, r@),
{
    let ghost whole = all_renewed(v@, maybe(*ttl), *start, 0, r@, i as int, lines(said@));
    let mut at: usize = i;
    let mut lately: Vec<Line> = said;
    let mut failures: u64 = 0;
    let mut k: usize = 0;
    assert(v@.skip(0) =~= v@);
    while k < v.len()
        invariant
            k <= v@.len(),
            failures <= k,
            i <= at <= r@.len(),
            whole == all_renewed(v@, maybe(*ttl), *start, 0, r@, i as int, lines(said@)),
            whole == all_renewed(
                v@.skip(k as int),
                maybe(*ttl),
                *start,
                failures as nat,
                r@,
                at as int,
                lines(lately@),
            ),
        decreases v@.len() - k,
    {
        assert(v@.skip(k as int)[0] == v@[k as int]);
        assert(v@.skip(k as int).skip(1) =~= v@.skip(k + 1));
        let x = &v[k];
        let d = match ttl {
            Some(t) => match read_span(t.as_str()) {
                Ok(d) => d,
                Err(e) => {
                    return Talk::Done(Err(e), at, lately);
                },
            },
            None => x.ttl,
        };
        let when = now(r, at, start);
        let expires_at = match later(&when, &d) {
            Ok(t) => t,
            Err(e) => {
                return Talk::Done(Err(e), at, lately);
            },
        };
        match ask_fate(r, at, lately, 0, Deed::SetExpiry(x.machine.0.clone(), expires_at)) {
            Talk::Ask(q) => {
                return Talk::Ask(q);
            },
            Talk::Done(f, n, t) => match f {
                Fate::Well => match ask_done(
                    r,
                    n,
                    t,
                    0,
                    Deed::RecordRenewal(x.name.clone(), expires_at, d),
                ) {
                    Talk::Ask(q) => {
                        return Talk::Ask(q);
                    },
                    Talk::Done(o, n, t) => match o {
                        Err(e) => {
                            return Talk::Done(Err(e), n, t);
                        },
                        Ok(_) => {
                            at = n;
                            d.bounds();
                            lately = say(
                                t,
                                x.name.clone().concat(": expires in ").concat(
                                    crate::duration::format(d).as_str(),
                                ),
                            );
                        },
                    },
                },
                Fate::Gone(_) => {
                    failures += 1;
                    at = n;
                    lately = warn(
                        t,
                        x.name.clone().concat(
                            ": its machine is gone (the sweeper collects anything past its expiry); there is nothing left to renew. `reaper down ",
                        ).concat(x.name.as_str()).concat("` clears the record"),
                    );
                },
                Fate::Failed(e) => {
                    failures += 1;
                    at = n;
                    lately = warn(
                        t,
                        x.name.clone().concat(": could not renew: ").concat(e.as_str()),
                    );
                },
            },
        }
        k += 1;
    }
    Talk::Done(total(failures, " session(s) could not be renewed"), at, lately)
}

/// Push a session's expiry further out.
pub fn renew(
    session: &Option<String>,
    ttl: &Option<String>,
    project: &Result<Option<String>, String>,
    here: &Here,
    start: &SystemTime,
    r: &Vec<Reply>,
) -> (t: Talk<Result<(), String>>)
    ensures
        unit_talk(t) == renew_talk(
            maybe(*session),
            maybe(*ttl),
            pointed(*project),
            *here,
            *start,
            r@,
        ),
{
    let (n, t) = match ask_done(r, 0, silence(), 0, Deed::Provider) {
        Talk::Ask(q) => {
            return Talk::Ask(q);
        },
        Talk::Done(o, n, t) => match o {
            Err(e) => {
                return Talk::Done(Err(e), n, t);
            },
            Ok(_) => (n, t),
        },
    };
    let p = match project {
        Err(e) => {
            return Talk::Done(Err(e.clone()), n, t);
        },
        Ok(p) => p,
    };
    match implied_sessions(session, p, here, r, n, t) {
        Talk::Ask(q) => Talk::Ask(q),
        Talk::Done(o, n, t) => match o {
            Err(e) => Talk::Done(Err(e), n, t),
            Ok(v) => renew_all(&v, ttl, start, r, n, t),
        },
    }
}

// ---------------------------------------------------------------------------
// down
// ---------------------------------------------------------------------------

/// Everything that taking sessions down goes by.
pub struct Site<'a> {
    pub cfg: &'a Config,
    /// Where the session store is.
    pub store: &'a str,
    /// The project that is stood in or was pointed at, and where its tree is.
    pub standing: Option<(String, String)>,
    pub start: SystemTime,
}

/// The tree that belongs to a session, if it is stood in.
pub open spec fn tree_of(site: Site, x: Session) -> Option<Seq<char>> {
    match site.standing {
        Some(p) => if p.0@ == x.project@ {
            Some(p.1@)
        } else {
            None
        },
        None => None,
    }
}

/// Stopping a session's heartbeat. The pid is verified before anything is
/// signalled: it was recorded by a different process, possibly days ago, and
/// the system reuses identifiers.
pub open spec fn silenced(x: Session, r: Seq<Reply>, i: int, said: Said) -> TalkView<()> {
    match x.heartbeat_pid {
        None => TalkView::Done((), i, said),
        Some(p) => match judged(r, i, ask(said, 0, Deed::IsHeartbeat(p))) {
            TalkView::Ask(q) => TalkView::Ask(q),
            TalkView::Done(None, n, t) => TalkView::Done((), n, t),
            TalkView::Done(Some(false), n, t) => TalkView::Done(
                (),
                n,
                t.push(
                    (
                        true,
                        x.name@ + ": pid "@ + dec(p as nat)
                            + " is no longer the heartbeat (reused after a reboot?); leaving it alone"@,
                    ),
                ),
            ),
            TalkView::Done(Some(true), n, t) => match flagged(
                r,
                n,
                ask(t, 0, Deed::StopProcess(p)),
            ) {
                TalkView::Ask(q) => TalkView::Ask(q),
                TalkView::Done(true, n, t) => TalkView::Done((), n, t),
                TalkView::Done(false, n, t) => TalkView::Done(
                    (),
                    n,
                    t.push(
                        (
                            true,
                            x.name@ + ": heartbeat "@ + dec(p as nat) + " would not stop"@,
                        ),
                    ),
                ),
            },
        },
    }
}

/// Forgetting a session whose machine is no more.
pub open spec fn forgotten(x: Session, words: Seq<char>, r: Seq<Reply>, i: int, said: Said) -> TalkView<
    Result<bool, Seq<char>>,
> {
    match done(r, i, ask(said, 0, Deed::Remove(x.name@))) {
        TalkView::Ask(q) => TalkView::Ask(q),
        TalkView::Done(Err(e), n, t) => TalkView::Done(Err(e), n, t),
        TalkView::Done(Ok(_), n, t) => match done(r, n, ask(t, 0, Deed::ForgetFiles(x.name@))) {
            TalkView::Ask(q) => TalkView::Ask(q),
            TalkView::Done(_, n, t) => TalkView::Done(
                Ok(true),
                n,
                t.push((false, x.name@ + words)),
            ),
        },
    }
}

/// Destroying a session's machine. One that is gone already is the happy case:
/// the session outlived its expiry and the sweeper did its job. One that cannot
/// be destroyed keeps its record: forgetting it would hide a machine that still
/// exists.
pub open spec fn destroyed(x: Session, r: Seq<Reply>, i: int, said: Said) -> TalkView<
    Result<bool, Seq<char>>,
> {
    match fared(r, i, ask(said, 0, Deed::Destroy(x.machine.0@))) {
        TalkView::Ask(q) => TalkView::Ask(q),
        TalkView::Done(Fate::Well, n, t) => forgotten(x, ": destroyed"@, r, n, t),
        TalkView::Done(Fate::Gone(_), n, t) => forgotten(
            x,
            ": already gone; forgotten"@,
            r,
            n,
            t,
        ),
        TalkView::Done(Fate::Failed(e), n, t) => TalkView::Done(
            Ok(false),
            n,
            t.push(
                (
                    true,
                    x.name@ + ": could not destroy "@ + x.machine.0@ + ": "@ + e
                        + ". The session is kept so it stays visible; its expiry means it will be collected regardless"@,
                ),
            ),
        ),
    }
}

/// Taking one session down: its results first, and before its heartbeat stops,
/// because collecting takes time and the expiry should keep moving while it
/// does; then its heartbeat; then its machine.
#[verifier::opaque]
pub open spec fn one_down(site: Site, x: Session, r: Seq<Reply>, i: int, said: Said) -> TalkView<
    Result<bool, Seq<char>>,
> {
    match collected(*site.cfg, site.store@, x, tree_of(site, x), site.start, r, i, said) {
        TalkView::Ask(q) => TalkView::Ask(q),
        TalkView::Done(_, n, t) => match silenced(x, r, n, t) {
            TalkView::Ask(q) => TalkView::Ask(q),
            TalkView::Done(_, n, t) => destroyed(x, r, n, t),
        },
    }
}

pub open spec fn all_down(
    site: Site,
    v: Seq<Session>,
    failures: nat,
    r: Seq<Reply>,
    i: int,
    said: Said,
) -> TalkView<Outcome>
    decreases v.len(),
{
    if v.len() == 0 {
        TalkView::Done(tally(failures, " session(s) could not be destroyed"@), i, said)
    } else {
        match one_down(site, v[0], r, i, said) {
            TalkView::Ask(q) => TalkView::Ask(q),
            TalkView::Done(Err(e), n, t) => TalkView::Done(Err(e), n, t),
            TalkView::Done(Ok(gone), n, t) => all_down(
                site,
                v.skip(1),
                if gone {
                    failures
                } else {
                    failures + 1
                },
                r,
                n,
                t,
            ),
        }
    }
}

/// The sessions that go: every one, or those that are implied.
pub open spec fn targets(
    all: bool,
    session: Option<Seq<char>>,
    project: Result<Option<Seq<char>>, Seq<char>>,
    here: Here,
    r: Seq<Reply>,
    i: int,
    said: Said,
) -> TalkView<Result<Seq<Session>, Seq<char>>> {
    if all {
        match listed(r, i, ask(said, 0, Deed::List)) {
            TalkView::Ask(q) => TalkView::Ask(q),
            TalkView::Done(Err(e), n, t) => TalkView::Done(Err(e), n, t),
            TalkView::Done(Ok(v), n, t) => TalkView::Done(Ok(v@), n, t),
        }
    } else {
        match project {
            Err(e) => TalkView::Done(Err(e), i, said),
            Ok(p) => implied(session, p, here, r, i, said),
        }
    }
}

/// `down`: destroying sessions and their machines.
pub open spec fn down_talk(
    site: Site,
    all: bool,
    session: Option<Seq<char>>,
    project: Result<Option<Seq<char>>, Seq<char>>,
    here: Here,
    r: Seq<Reply>,
) -> TalkView<Outcome> {
    match done(r, 0, ask(Seq::empty(), 0, Deed::Provider)) {
        TalkView::Ask(q) => TalkView::Ask(q),
        TalkView::Done(Err(e), n, t) => TalkView::Done(Err(e), n, t),
        TalkView::Done(Ok(_), n, t) => match targets(all, session, project, here, r, n, t) {
            TalkView::Ask(q) => TalkView::Ask(q),
            TalkView::Done(Err(e), n, t) => TalkView::Done(Err(e), n, t),
            TalkView::Done(Ok(v), n, t) => if v.len() == 0 {
                TalkView::Done(Ok(()), n, t.push((false, "no sessions"@)))
            } else {
                all_down(site, v, 0, r, n, t)
            },
        },
    }
}

fn silence_heartbeat(x: &Session, r: &Vec<Reply>, i: usize, said: Vec<Line>) -> (t: Talk<()>)
    requires
        i <= r@.len(),
    ensures
        plain_talk(t) == silenced(*x, r@, i as int, lines(said@)),
        within(t, i, r@),
{
    let p = match x.heartbeat_pid {
        None => {
            return Talk::Done((), i, said);
        },
        Some(p) => p,
    };
    match ask_verdict(r, i, said, 0, Deed::IsHeartbeat(p)) {
        Talk::Ask(q) => Talk::Ask(q),
        Talk::Done(v, n, t) => match v {
            None => Talk::Done((), n, t),
            Some(false) => {
                let line = x.name.clone().concat(": pid ").concat(
                    decimal(p as u64).as_str(),
                ).concat(
                    " is no longer the heartbeat (reused after a reboot?); leaving it alone",
                );
                Talk::Done((), n, warn(t, line))
            },
            Some(true) => match ask_flag(r, n, t, 0, Deed::StopProcess(p)) {
                Talk::Ask(q) => Talk::Ask(q),
                Talk::Done(stopped, n, t) => {
                    if stopped {
                        Talk::Done((), n, t)
                    } else {
                        let line = x.name.clone().concat(": heartbeat ").concat(
                            decimal(p as u64).as_str(),
                        ).concat(" would not stop");
                        Talk::Done((), n, warn(t, line))
                    }
                },
            },
        },
    }
}

pub open spec fn gone_talk(t: Talk<Result<bool, String>>) -> TalkView<Result<bool, Seq<char>>> {
    crate::verbs::deeds::value_talk(t)
}

fn forget(x: &Session, words: &str, r: &Vec<Reply>, i: usize, said: Vec<Line>) -> (t: Talk<
    Result<bool, String>,
>)
    requires
        i <= r@.len(),
    ensures
        gone_talk(t) == forgotten(*x, words@, r@, i as int, lines(said@)),
        within(t, i, r@),
{
    match ask_done(r, i, said, 0, Deed::Remove(x.name.clone())) {
        Talk::Ask(q) => Talk::Ask(q),
        Talk::Done(o, n, t) => match o {
            Err(e) => Talk::Done(Err(e), n, t),
            Ok(_) => match ask_done(r, n, t, 0, Deed::ForgetFiles(x.name.clone())) {
                Talk::Ask(q) => Talk::Ask(q),
                Talk::Done(_, n, t) => Talk::Done(
                    Ok(true),
                    n,
                    say(t, x.name.clone().concat(words)),
                ),
            },
        },
    }
}

fn destroy(x: &Session, r: &Vec<Reply>, i: usize, said: Vec<Line>) -> (t: Talk<
    Result<bool, String>,
>)
    requires
        i <= r@.len(),
    ensures
        gone_talk(t) == destroyed(*x, r@, i as int, lines(said@)),
        within(t, i, r@),
{
    match ask_fate(r, i, said, 0, Deed::Destroy(x.machine.0.clone())) {
        Talk::Ask(q) => Talk::Ask(q),
        Talk::Done(f, n, t) => match f {
            Fate::Well => forget(x, ": destroyed", r, n, t),
            Fate::Gone(_) => forget(x, ": already gone; forgotten", r, n, t),
            Fate::Failed(e) => {
                let line = x.name.clone().concat(": could not destroy ").concat(
                    x.machine.0.as_str(),
                ).concat(": ").concat(e.as_str()).concat(
                    ". The session is kept so it stays visible; its expiry means it will be collected regardless",
                );
                Talk::Done(Ok(false), n, warn(t, line))
            },
        },
    }
}

fn down_one(site: &Site, x: &Session, r: &Vec<Reply>, i: usize, said: Vec<Line>) -> (t: Talk<
    Result<bool, String>,
>)
    requires
        i <= r@.len(),
    ensures
        gone_talk(t) == one_down(*site, *x, r@, i as int, lines(said@)),
        within(t, i, r@),
{
    proof {
        reveal(one_down);
    }
    let tree = match &site.standing {
        Some(p) => {
            if same(p.0.as_str(), x.project.as_str()) {
                Some(p.1.as_str())
            } else {
                None
            }
        },
        None => None,
    };
    match collect_last_results(site.cfg, site.store, x, tree, &site.start, r, i, said) {
        Talk::Ask(q) => Talk::Ask(q),
        Talk::Done(_, n, t) => match silence_heartbeat(x, r, n, t) {
            Talk::Ask(q) => Talk::Ask(q),
            Talk::Done(_, n, t) => destroy(x, r, n, t),
        },
    }
}

fn down_all(site: &Site, v: &Vec<Session>, r: &Vec<Reply>, i: usize, said: Vec<Line>) -> (t: Talk<
    Result<(), String>,
>)
    requires
        i <= r@.len(),
    ensures
        unit_talk(t) == all_down(*site, v@, 0, r@, i as int, lines(said@)),
        within(t, i, r@),
{
    let ghost whole = all_down(*site, v@, 0, r@, i as int, lines(said@));
    let mut at: usize = i;
    let mut lately: Vec<Line> = said;
    let mut failures: u64 = 0;
    let mut k: usize = 0;
    assert(v@.skip(0) =~= v@);
    while k < v.len()
        invariant
            k <= v@.len(),
            failures <= k,
            i <= at <= r@.len(),
            whole == all_down(*site, v@, 0, r@, i as int, lines(said@)),
            whole == all_down(
                *site,
                v@.skip(k as int),
                failures as nat,
                r@,
                at as int,
                lines(lately@),
            ),
        decreases v@.len() - k,
    {
        assert(v@.skip(k as int)[0] == v@[k as int]);
        assert(v@.skip(k as int).skip(1) =~= v@.skip(k + 1));
        match down_one(site, &v[k], r, at, lately) {
            Talk::Ask(q) => {
                return Talk::Ask(q);
            },
            Talk::Done(o, n, t) => match o {
                Err(e) => {
                    return Talk::Done(Err(e), n, t);
                },
                Ok(gone) => {
                    if !gone {
                        failures += 1;
                    }
                    at = n;
                    lately = t;
                },
            },
        }
        k += 1;
    }
    Talk::Done(total(failures, " session(s) could not be destroyed"), at, lately)
}

/// Destroy a session and its machine.
pub fn down(
    site: &Site,
    all: bool,
    session: &Option<String>,
    project: &Result<Option<String>, String>,
    here: &Here,
    r: &Vec<Reply>,
) -> (t: Talk<Result<(), String>>)
    ensures
        unit_talk(t) == down_talk(*site, all, maybe(*session), pointed(*project), *here, r@),
{
    let (n, t) = match ask_done(r, 0, silence(), 0, Deed::Provider) {
        Talk::Ask(q) => {
            return Talk::Ask(q);
        },
        Talk::Done(o, n, t) => match o {
            Err(e) => {
                return Talk::Done(Err(e), n, t);
            },
            Ok(_) => (n, t),
        },
    };
    if all {
        return match ask_list(r, n, t) {
            Talk::Ask(q) => Talk::Ask(q),
            Talk::Done(o, n, t) => match o {
                Err(e) => Talk::Done(Err(e), n, t),
                Ok(v) => {
                    if v.len() == 0 {
                        Talk::Done(Ok(()), n, say(t, "no sessions".to_string()))
                    } else {
                        down_all(site, v, r, n, t)
                    }
                },
            },
        };
    }
    let p = match project {
        Err(e) => {
            return Talk::Done(Err(e.clone()), n, t);
        },
        Ok(p) => p,
    };
    match implied_sessions(session, p, here, r, n, t) {
        Talk::Ask(q) => Talk::Ask(q),
        Talk::Done(o, n, t) => match o {
            Err(e) => Talk::Done(Err(e), n, t),
            Ok(v) => {
                if v.len() == 0 {
                    Talk::Done(Ok(()), n, say(t, "no sessions".to_string()))
                } else {
                    down_all(site, &v, r, n, t)
                }
            },
        },
    }
}

// ---------------------------------------------------------------------------
// heartbeat
// ---------------------------------------------------------------------------

/// Renewing one session's expiry until the session goes away.
///
/// This is the live half of the dead-man's switch. If it stops the expiry stops
/// moving and the sweeper collects the machine. A store that cannot be read, or
/// a single failed renewal, does not end it: only the session or its machine
/// being gone does.
pub open spec fn beats(
    name: Seq<char>,
    interval: u64,
    start: SystemTime,
    r: Seq<Reply>,
    i: int,
    said: Said,
    pause: u64,
) -> TalkView<Outcome>
    decreases r.len() - i,
{
    match found(r, i, ask(said, pause, Deed::Get(name))) {
        TalkView::Ask(q) => TalkView::Ask(q),
        TalkView::Done(Ok(None), n, t) => TalkView::Done(Ok(()), n, t),
        TalkView::Done(Err(e), n, t) => beats(
            name,
            interval,
            start,
            r,
            n,
            t.push((true, name + ": could not read the session store: "@ + e)),
            interval,
        ),
        TalkView::Done(Ok(Some(x)), n, t) => {
            let at = reached(r, n, start);
            if at@ + x.ttl@ > crate::time::last_moment() {
                TalkView::Done(
                    Err("that moment is further away than any clock can show"@),
                    n,
                    t,
                )
            } else {
                match fared(r, n, ask(t, 0, Deed::SetExpiry(x.machine.0@, at@ + x.ttl@))) {
                    TalkView::Ask(q) => TalkView::Ask(q),
                    TalkView::Done(Fate::Gone(_), n, t) => TalkView::Done(
                        Ok(()),
                        n,
                        t.push(
                            (
                                true,
                                name
                                    + ": its machine is gone; nothing left to renew, so this heartbeat is ending. `reaper down "@
                                    + name + "` clears the record"@,
                            ),
                        ),
                    ),
                    TalkView::Done(Fate::Failed(e), n, t) => beats(
                        name,
                        interval,
                        start,
                        r,
                        n,
                        t.push((true, name + ": renewal failed: "@ + e)),
                        interval,
                    ),
                    TalkView::Done(Fate::Well, n, t) => match done(
                        r,
                        n,
                        ask(t, 0, Deed::RecordExpiry(name, at@ + x.ttl@)),
                    ) {
                        TalkView::Ask(q) => TalkView::Ask(q),
                        TalkView::Done(Ok(_), n, t) => beats(
                            name,
                            interval,
                            start,
                            r,
                            n,
                            t,
                            interval,
                        ),
                        TalkView::Done(Err(e), n, t) => beats(
                            name,
                            interval,
                            start,
                            r,
                            n,
                            t.push(
                                (true, name + ": renewed, but could not record it: "@ + e),
                            ),
                            interval,
                        ),
                    },
                }
            }
        },
    }
}

/// `heartbeat`: making the provider ready, and renewing from then on.
pub open spec fn heartbeat_talk(
    name: Seq<char>,
    interval: u64,
    start: SystemTime,
    r: Seq<Reply>,
) -> TalkView<Outcome> {
    match done(r, 0, ask(Seq::empty(), 0, Deed::Provider)) {
        TalkView::Ask(q) => TalkView::Ask(q),
        TalkView::Done(Err(e), n, t) => TalkView::Done(Err(e), n, t),
        TalkView::Done(Ok(_), n, t) => beats(name, interval, start, r, n, t, 0),
    }
}

/// Renew a session's expiry until it goes away.
pub fn heartbeat(name: &str, cfg: &Config, start: &SystemTime, r: &Vec<Reply>) -> (t: Talk<
    Result<(), String>,
>)
    ensures
        unit_talk(t) == heartbeat_talk(
            name@,
            (cfg.session.heartbeat_interval@ / 1_000_000_000) as u64,
            *start,
            r@,
        ),
{
    cfg.session.heartbeat_interval.bounds();
    let interval: u64 = cfg.session.heartbeat_interval.as_secs();
    let ghost whole = heartbeat_talk(name@, interval, *start, r@);
    let (n, t) = match ask_done(r, 0, silence(), 0, Deed::Provider) {
        Talk::Ask(q) => {
            return Talk::Ask(q);
        },
        Talk::Done(o, n, t) => match o {
            Err(e) => {
                return Talk::Done(Err(e), n, t);
            },
            Ok(_) => (n, t),
        },
    };
    let mut at: usize = n;
    let mut lately: Vec<Line> = t;
    let mut pause: u64 = 0;
    loop
        invariant
            at <= r@.len(),
            interval == (cfg.session.heartbeat_interval@ / 1_000_000_000) as u64,
            whole == heartbeat_talk(name@, interval, *start, r@),
            whole == beats(name@, interval, *start, r@, at as int, lines(lately@), pause),
        decreases r@.len() - at,
    {
        // Waiting is asked for with the reading that follows it.
        let (x, n, t) = match ask_read(r, at, lately, pause, Deed::Get(name.to_string())) {
            Talk::Ask(q) => {
                return Talk::Ask(q);
            },
            Talk::Done(o, n, t) => match o {
                Ok(None) => {
                    return Talk::Done(Ok(()), n, t);
                },
                Err(e) => {
                    at = n;
                    lately = warn(
                        t,
                        name.to_string().concat(": could not read the session store: ").concat(
                            e.as_str(),
                        ),
                    );
                    pause = interval;
                    continue ;
                },
                Ok(Some(x)) => (x, n, t),
            },
        };
        let when = now(r, n, start);
        let expires_at = match later(&when, &x.ttl) {
            Ok(t) => t,
            Err(e) => {
                return Talk::Done(Err(e), n, t);
            },
        };
        match ask_fate(r, n, t, 0, Deed::SetExpiry(x.machine.0.clone(), expires_at)) {
            Talk::Ask(q) => {
                return Talk::Ask(q);
            },
            Talk::Done(f, n, t) => match f {
                Fate::Gone(_) => {
                    let line = name.to_string().concat(
                        ": its machine is gone; nothing left to renew, so this heartbeat is ending. `reaper down ",
                    ).concat(name).concat("` clears the record");
                    return Talk::Done(Ok(()), n, warn(t, line));
                },
                // Keep going. A single failed renewal is survivable precisely
                // because the interval fits several times into the TTL.
                Fate::Failed(e) => {
                    at = n;
                    lately = warn(
                        t,
                        name.to_string().concat(": renewal failed: ").concat(e.as_str()),
                    );
                },
                Fate::Well => match ask_done(
                    r,
                    n,
                    t,
                    0,
                    Deed::RecordExpiry(name.to_string(), expires_at),
                ) {
                    Talk::Ask(q) => {
                        return Talk::Ask(q);
                    },
                    Talk::Done(o, n, t) => {
                        at = n;
                        lately = match o {
                            Ok(_) => t,
                            Err(e) => warn(
                                t,
                                name.to_string().concat(
                                    ": renewed, but could not record it: ",
                                ).concat(e.as_str()),
                            ),
                        };
                    },
                },
            },
        }
        pause = interval;
    }
}

fn ask_read(r: &Vec<Reply>, i: usize, said: Vec<Line>, pause: u64, deed: Deed) -> (t: Talk<
    Result<Option<&Session>, String>,
>)
    requires
        i <= r@.len(),
    ensures
        read_talk(t) == found(r@, i as int, ask(lines(said@), pause, deed@)),
        within(t, i, r@),
{
    match ask_found(r, i, said, deed) {
        Talk::Ask(q) => {
            let mut later = q;
            later.pause = pause;
            Talk::Ask(later)
        },
        Talk::Done(o, n, t) => match o {
            Err(e) => Talk::Done(Err(e), n, t),
            Ok(x) => match x {
                Some(s) => Talk::Done(Ok(Some(s)), n, t),
                None => Talk::Done(Ok(None), n, t),
            },
        },
    }
}

pub open spec fn read_talk(t: Talk<Result<Option<&Session>, String>>) -> TalkView<
    Result<Option<Session>, Seq<char>>,
> {
    match t {
        Talk::Ask(a) => TalkView::Ask(a@),
        Talk::Done(v, n, s) => TalkView::Done(
            match v {
                Ok(Some(x)) => Ok(Some(*x)),
                Ok(None) => Ok(None),
                Err(e) => Err(e@),
            },
            n as int,
            lines(s@),
        ),
    }
}

// ---------------------------------------------------------------------------
// What these verbs promise
// ---------------------------------------------------------------------------

/// The same conversation with so many more replies before it.
pub open spec fn after(t: TalkView<Outcome>, more: int) -> TalkView<Outcome> {
    match t {
        TalkView::Ask(q) => TalkView::Ask(q),
        TalkView::Done(v, n, s) => TalkView::Done(v, n + more, s),
    }
}

proof fn lemma_beats_shift(
    name: Seq<char>,
    interval: u64,
    start: SystemTime,
    r: Seq<Reply>,
    i: int,
    q: Seq<Reply>,
    j: int,
    said: Said,
    pause: u64,
)
    requires
        0 <= i <= r.len(),
        0 <= j <= q.len(),
        r.len() - i == q.len() - j,
        forall|k: int| i <= k < r.len() ==> #[trigger] r[k] == q[k - i + j],
    ensures
        beats(name, interval, start, r, i, said, pause) == after(
            beats(name, interval, start, q, j, said, pause),
            i - j,
        ),
    decreases r.len() - i,
{
    if i < r.len() {
        assert(r[i] == q[j]);
        if i + 1 < r.len() {
            assert(r[i + 1] == q[j + 1]);
        }
        if i + 2 < r.len() {
            assert(r[i + 2] == q[j + 2]);
        }
        match found(r, i, ask(said, pause, Deed::Get(name))) {
            TalkView::Done(Err(e), n, t) => {
                lemma_beats_shift(
                    name,
                    interval,
                    start,
                    r,
                    n,
                    q,
                    j + 1,
                    t.push((true, name + ": could not read the session store: "@ + e)),
                    interval,
                );
            },
            TalkView::Done(Ok(Some(x)), n, t) => {
                let at = reached(r, n, start);
                match fared(r, n, ask(t, 0, Deed::SetExpiry(x.machine.0@, at@ + x.ttl@))) {
                    TalkView::Done(Fate::Failed(e), n, t) => {
                        lemma_beats_shift(
                            name,
                            interval,
                            start,
                            r,
                            n,
                            q,
                            j + 2,
                            t.push((true, name + ": renewal failed: "@ + e)),
                            interval,
                        );
                    },
                    TalkView::Done(Fate::Well, n, t) => match done(
                        r,
                        n,
                        ask(t, 0, Deed::RecordExpiry(name, at@ + x.ttl@)),
                    ) {
                        TalkView::Done(Ok(_), n, t) => {
                            lemma_beats_shift(
                                name,
                                interval,
                                start,
                                r,
                                n,
                                q,
                                j + 3,
                                t,
                                interval,
                            );
                        },
                        TalkView::Done(Err(e), n, t) => {
                            lemma_beats_shift(
                                name,
                                interval,
                                start,
                                r,
                                n,
                                q,
                                j + 3,
                                t.push(
                                    (true, name + ": renewed, but could not record it: "@ + e),
                                ),
                                interval,
                            );
                        },
                        _ => {},
                    },
                    _ => {},
                }
            },
            _ => {},
        }
    }
}

/// A heartbeat needs no memory: once the record was read again, everything goes
/// on as though the rounds before had not been, so that their replies may be
/// forgotten.
pub proof fn law_a_heartbeat_needs_no_memory(
    name: Seq<char>,
    interval: u64,
    start: SystemTime,
    r: Seq<Reply>,
    i: int,
    said: Said,
    pause: u64,
)
    requires
        1 <= i < r.len(),
        r[0].event is Done,
        found_of(r[i].event) is Some,
    ensures
        beats(name, interval, start, r, i, said, pause) == after(
            heartbeat_talk(name, interval, start, seq![r[0]] + r.skip(i)),
            i - 1,
        ),
{
    let q = seq![r[0]] + r.skip(i);
    assert(q[0] == r[0] && q[1] == r[i]);
    lemma_beats_shift(name, interval, start, r, i, q, 1, said, pause);
    assert(beats(name, interval, start, q, 1, said, pause) == beats(
        name,
        interval,
        start,
        q,
        1,
        Seq::empty(),
        0,
    ));
}

/// A machine is destroyed only once its results have been collected, or could
/// not be; collecting never destroys, and nothing that collecting comes to
/// keeps the machine.
pub proof fn law_results_come_before_destruction(
    site: Site,
    x: Session,
    r: Seq<Reply>,
    i: int,
    said: Said,
)
    ensures
        one_down(site, x, r, i, said) matches TalkView::Ask(q) && q.deed is Destroy ==> collected(
            *site.cfg,
            site.store@,
            x,
            tree_of(site, x),
            site.start,
            r,
            i,
            said,
        ) is Done,
{
    reveal(one_down);
}

/// A session whose machine could not be destroyed keeps its record: nothing
/// more is done with it, and it counts as a failure.
pub proof fn law_a_machine_that_stays_keeps_its_record(
    x: Session,
    r: Seq<Reply>,
    i: int,
    said: Said,
)
    requires
        0 <= i < r.len(),
        r[i].event is Failed,
    ensures
        destroyed(x, r, i, said) matches TalkView::Done(o, n, _) && o == Ok::<bool, Seq<char>>(
            false,
        ) && n == i + 1,
{
}

/// Taking down a session whose machine is gone already succeeds, and forgets
/// the session.
pub proof fn law_taking_down_twice_succeeds(x: Session, r: Seq<Reply>, i: int, said: Said)
    requires
        0 <= i,
        i + 3 == r.len(),
        r[i].event is Gone,
        r[i + 1].event is Done,
        r[i + 2].event is Done,
    ensures
        destroyed(x, r, i, said) matches TalkView::Done(o, n, _) && o == Ok::<bool, Seq<char>>(
            true,
        ) && n == i + 3,
        destroyed(x, r.take(i + 1), i, said) matches TalkView::Ask(q) && q.deed == Deed::<
            Seq<char>,
            Seq<Seq<char>>,
            crate::session::SessionView,
            int,
            int,
        >::Remove(x.name@),
{
    assert(r.take(i + 1)[i] == r[i]);
}

/// Neither a store that cannot be read nor a renewal that fails ends a
/// heartbeat: it waits for its interval and reads the record again.
pub proof fn law_a_blip_does_not_end_a_heartbeat(
    name: Seq<char>,
    interval: u64,
    start: SystemTime,
    r: Seq<Reply>,
    i: int,
    said: Said,
    pause: u64,
)
    requires
        0 <= i,
        (i + 1 == r.len() && r[i].event is Failed) || (i + 2 == r.len() && r[i].event is Found
            && r[i].event->Found_0 is Some && r[i + 1].event is Failed && r[i].at@
            + r[i].event->Found_0->0.ttl@ <= crate::time::last_moment()),
    ensures
        beats(name, interval, start, r, i, said, pause) matches TalkView::Ask(q) && q.deed == Deed::<
            Seq<char>,
            Seq<Seq<char>>,
            crate::session::SessionView,
            int,
            int,
        >::Get(name) && q.pause == interval,
{
    reveal_with_fuel(beats, 2);
}

/// A session that could not be renewed, its machine gone or not, is counted,
/// and the sessions after it are renewed all the same.
pub proof fn law_one_failure_leaves_no_sibling_unrenewed(
    v: Seq<Session>,
    ttl: Option<Seq<char>>,
    start: SystemTime,
    failures: nat,
    r: Seq<Reply>,
    i: int,
    said: Said,
)
    requires
        v.len() > 0,
        0 <= i < r.len(),
        r[i].event is Failed || r[i].event is Gone,
        renewal(v[0], ttl) matches Ok(d) && reached(r, i, start)@ + d <= crate::time::last_moment(),
    ensures
        exists|t: Said| #[trigger]
            all_renewed(v.skip(1), ttl, start, failures + 1, r, i + 1, t) == all_renewed(
                v,
                ttl,
                start,
                failures,
                r,
                i,
                said,
            ),
{
    let x = v[0];
    let t: Said = match r[i].event {
        crate::verbs::deeds::Event::Gone(_) => Seq::<(bool, Seq<char>)>::empty().push(
            (
                true,
                x.name@
                    + ": its machine is gone (the sweeper collects anything past its expiry); there is nothing left to renew. `reaper down "@
                    + x.name@ + "` clears the record"@,
            ),
        ),
        crate::verbs::deeds::Event::Failed(e) => Seq::<(bool, Seq<char>)>::empty().push(
            (true, x.name@ + ": could not renew: "@ + e@),
        ),
        _ => Seq::empty(),
    };
    assert(all_renewed(v.skip(1), ttl, start, failures + 1, r, i + 1, t) == all_renewed(
        v,
        ttl,
        start,
        failures,
        r,
        i,
        said,
    ));
}

}
