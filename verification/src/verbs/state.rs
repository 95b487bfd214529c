//! Naming points in a project's state, rolling back to them, and the whole
//! loop.
use vstd::prelude::*;
use vstd::string::*;

use crate::address::Address;
use crate::duration::{format_rough, rough};
use crate::job::{word, word_of};
use crate::manifest::Manifest;
use crate::paths::maybe;
use crate::scan::{blank, is_blank, occurs};
use crate::session::Session;
use crate::sync::RESULTS;
use crate::text::{chars_of, debug_text, dec, decimal, join, join_text, quoted, same_chars, texts};
use crate::time::{Duration, SystemTime};
use crate::verbs::common::{
    implied, implied_sessions, Here, PRISTINE, RUNNER_PATH,
};
use crate::verbs::deeds::{
    ask, ask_count, ask_done, ask_text, counted, done, lines, now, reached, say, silence, told,
    unit_talk, value_talk, warn, within, Deed, DeedView, Line, Outcome, Reply, Said, Talk, TalkView,
};
use crate::verbs::execute::{builds, builds_nothing, execute, executed, Verb};
use crate::verbs::work::{deliver_runner, delivered, sync, sync_talk, Work};

verus! {

// ---------------------------------------------------------------------------
// snapshot
// ---------------------------------------------------------------------------

/// The name is the one free-text argument on this line, so it is quoted where
/// it has to be: the remote shell parses the string before the runner can look
/// at it.
pub open spec fn snapshot_deed(x: Session, a: Address, dataset: Seq<char>, name: Seq<char>) -> DeedView {
    Deed::Run {
        session: x.name@,
        address: a,
        command: RUNNER_PATH@ + " snapshot --dataset "@ + dataset + " --name "@ + word_of(name),
        what: "taking a snapshot"@,
    }
}

pub open spec fn all_snapshotted(
    x: Session,
    a: Address,
    datasets: Seq<Seq<char>>,
    name: Seq<char>,
    r: Seq<Reply>,
    i: int,
    said: Said,
) -> TalkView<Outcome>
    decreases datasets.len(),
{
    if datasets.len() == 0 {
        TalkView::Done(Ok(()), i, said)
    } else {
        match told(r, i, ask(said, 0, snapshot_deed(x, a, datasets[0], name))) {
            TalkView::Ask(q) => TalkView::Ask(q),
            TalkView::Done(Err(e), n, t) => TalkView::Done(Err(e), n, t),
            TalkView::Done(Ok(_), n, t) => all_snapshotted(
                x,
                a,
                datasets.skip(1),
                name,
                r,
                n,
                t,
            ),
        }
    }
}

pub open spec fn sessions_snapshotted(
    w: Work,
    v: Seq<Session>,
    name: Seq<char>,
    r: Seq<Reply>,
    i: int,
    said: Said,
) -> TalkView<Outcome>
    decreases v.len(),
{
    if v.len() == 0 {
        TalkView::Done(Ok(()), i, said)
    } else {
        match delivered(v[0], r, i, said) {
            TalkView::Ask(q) => TalkView::Ask(q),
            TalkView::Done(Err(e), n, t) => TalkView::Done(Err(e), n, t),
            TalkView::Done(Ok(a), n, t) => match all_snapshotted(
                v[0],
                a,
                texts(w.manifest.reset@),
                name,
                r,
                n,
                t,
            ) {
                TalkView::Ask(q) => TalkView::Ask(q),
                TalkView::Done(Err(e), n, t) => TalkView::Done(Err(e), n, t),
                TalkView::Done(Ok(_), n, t) => sessions_snapshotted(
                    w,
                    v.skip(1),
                    name,
                    r,
                    n,
                    t.push(
                        (
                            false,
                            v[0].name@ + ": "@ + join(texts(w.manifest.reset@), ", "@)
                                + " snapshotted as "@ + name,
                        ),
                    ),
                ),
            },
        }
    }
}

/// `snapshot`: naming a point that this project's state can be rolled back to.
pub open spec fn snapshot_talk(
    w: Work,
    name: Seq<char>,
    session: Option<Seq<char>>,
    r: Seq<Reply>,
) -> TalkView<Outcome> {
    if w.manifest.reset@.len() == 0 {
        TalkView::Done(
            Err(
                w.manifest.project@
                    + " declares no reset datasets, so there is no state to name a point in. Add `[reset]` with `datasets = [\"state\"]` to the manifest"@,
            ),
            0,
            Seq::empty(),
        )
    } else {
        match implied(session, Some(w.manifest.project@), Here::Absent, r, 0, Seq::empty()) {
            TalkView::Ask(q) => TalkView::Ask(q),
            TalkView::Done(Err(e), n, t) => TalkView::Done(Err(e), n, t),
            TalkView::Done(Ok(v), n, t) => sessions_snapshotted(w, v, name, r, n, t),
        }
    }
}

fn snapshot_all(
    x: &Session,
    a: Address,
    datasets: &Vec<String>,
    name: &str,
    r: &Vec<Reply>,
    i: usize,
    said: Vec<Line>,
) -> (t: Talk<Result<(), String>>)
    requires
        i <= r@.len(),
    ensures
        unit_talk(t) == all_snapshotted(
            *x,
            a,
            texts(datasets@),
            name@,
            r@,
            i as int,
            lines(said@),
        ),
        within(t, i, r@),
{
    let ghost all = texts(datasets@);
    let ghost whole = all_snapshotted(*x, a, all, name@, r@, i as int, lines(said@));
    let mut at: usize = i;
    let mut lately: Vec<Line> = said;
    let mut k: usize = 0;
    assert(all.skip(0) =~= all);
    while k < datasets.len()
        invariant
            k <= datasets@.len(),
            i <= at <= r@.len(),
            all == texts(datasets@),
            whole == all_snapshotted(*x, a, all, name@, r@, i as int, lines(said@)),
            whole == all_snapshotted(
                *x,
                a,
                all.skip(k as int),
                name@,
                r@,
                at as int,
                lines(lately@),
            ),
        decreases datasets@.len() - k,
    {
        assert(all.skip(k as int)[0] == datasets@[k as int]@);
        assert(all.skip(k as int).skip(1) =~= all.skip(k + 1));
        let deed = Deed::Run {
            session: x.name.clone(),
            address: a,
            command: RUNNER_PATH.to_string().concat(" snapshot --dataset ").concat(
                datasets[k].as_str(),
            ).concat(" --name ").concat(word(name).as_str()),
            what: "taking a snapshot".to_string(),
        };
        match ask_text(r, at, lately, 0, deed) {
            Talk::Ask(q) => {
                return Talk::Ask(q);
            },
            Talk::Done(v, n, t) => match v {
                Err(e) => {
                    return Talk::Done(Err(e), n, t);
                },
                Ok(_) => {
                    at = n;
                    lately = t;
                },
            },
        }
        k += 1;
    }
    Talk::Done(Ok(()), at, lately)
}

fn snapshot_sessions(
    w: &Work,
    v: &Vec<Session>,
    name: &str,
    r: &Vec<Reply>,
    i: usize,
    said: Vec<Line>,
) -> (t: Talk<Result<(), String>>)
    requires
        i <= r@.len(),
    ensures
        unit_talk(t) == sessions_snapshotted(*w, v@, name@, r@, i as int, lines(said@)),
        within(t, i, r@),
{
    let ghost whole = sessions_snapshotted(*w, v@, name@, r@, i as int, lines(said@));
    let mut at: usize = i;
    let mut lately: Vec<Line> = said;
    let mut k: usize = 0;
    assert(v@.skip(0) =~= v@);
    while k < v.len()
        invariant
            k <= v@.len(),
            i <= at <= r@.len(),
            whole == sessions_snapshotted(*w, v@, name@, r@, i as int, lines(said@)),
            whole == sessions_snapshotted(
                *w,
                v@.skip(k as int),
                name@,
                r@,
                at as int,
                lines(lately@),
            ),
        decreases v@.len() - k,
    {
        assert(v@.skip(k as int)[0] == v@[k as int]);
        assert(v@.skip(k as int).skip(1) =~= v@.skip(k + 1));
        let (a, n, t) = match deliver_runner(&v[k], r, at, lately) {
            Talk::Ask(q) => {
                return Talk::Ask(q);
            },
            Talk::Done(o, n, t) => match o {
                Err(e) => {
                    return Talk::Done(Err(e), n, t);
                },
                Ok(a) => (a, n, t),
            },
        };
        match snapshot_all(&v[k], a, &w.manifest.reset, name, r, n, t) {
            Talk::Ask(q) => {
                return Talk::Ask(q);
            },
            Talk::Done(o, n, t) => match o {
                Err(e) => {
                    return Talk::Done(Err(e), n, t);
                },
                Ok(_) => {
                    at = n;
                    lately = say(
                        t,
                        v[k].name.clone().concat(": ").concat(
                            join_text(&w.manifest.reset, ", ").as_str(),
                        ).concat(" snapshotted as ").concat(name),
                    );
                },
            },
        }
        k += 1;
    }
    Talk::Done(Ok(()), at, lately)
}

/// Name a point this project's state can be rolled back to.
pub fn snapshot(w: &Work, name: &str, session: &Option<String>, r: &Vec<Reply>) -> (t: Talk<
    Result<(), String>,
>)
    ensures
        unit_talk(t) == snapshot_talk(*w, name@, maybe(*session), r@),
{
    if w.manifest.reset.len() == 0 {
        return Talk::Done(
            Err(
                w.manifest.project.clone().concat(
                    " declares no reset datasets, so there is no state to name a point in. Add `[reset]` with `datasets = [\"state\"]` to the manifest",
                ),
            ),
            0,
            silence(),
        );
    }
    let project = Some(w.manifest.project.clone());
    match implied_sessions(session, &project, &Here::Absent, r, 0, silence()) {
        Talk::Ask(q) => Talk::Ask(q),
        Talk::Done(v, n, t) => match v {
            Err(e) => Talk::Done(Err(e), n, t),
            Ok(all) => snapshot_sessions(w, &all, name, r, n, t),
        },
    }
}

// ---------------------------------------------------------------------------
// reset
// ---------------------------------------------------------------------------

/// The output goes straight through: the runner announces what it stops and
/// what it rolls back, and that is exactly what somebody watching wants to see.
pub open spec fn rollback_deed(x: Session, a: Address, dataset: Seq<char>, name: Seq<char>) -> DeedView {
    Deed::RunLive {
        session: x.name@,
        address: a,
        command: RUNNER_PATH@ + " rollback --dataset "@ + dataset + " --name "@ + word_of(name),
        what: "rolling back"@,
    }
}

pub open spec fn all_rolled_back(
    x: Session,
    a: Address,
    datasets: Seq<Seq<char>>,
    name: Seq<char>,
    r: Seq<Reply>,
    i: int,
    said: Said,
) -> TalkView<Outcome>
    decreases datasets.len(),
{
    if datasets.len() == 0 {
        TalkView::Done(Ok(()), i, said)
    } else {
        match done(r, i, ask(said, 0, rollback_deed(x, a, datasets[0], name))) {
            TalkView::Ask(q) => TalkView::Ask(q),
            TalkView::Done(Err(e), n, t) => TalkView::Done(Err(e), n, t),
            TalkView::Done(Ok(_), n, t) => all_rolled_back(
                x,
                a,
                datasets.skip(1),
                name,
                r,
                n,
                t,
            ),
        }
    }
}

/// How long it took, never less than nothing.
pub open spec fn elapsed(from: SystemTime, to: SystemTime) -> nat {
    if to@ < from@ {
        0
    } else {
        ((to@ - from@) / 1_000_000_000) as nat
    }
}

pub open spec fn sessions_reset(
    w: Work,
    v: Seq<Session>,
    name: Seq<char>,
    r: Seq<Reply>,
    i: int,
    said: Said,
) -> TalkView<Outcome>
    decreases v.len(),
{
    if v.len() == 0 {
        TalkView::Done(Ok(()), i, said)
    } else {
        match delivered(v[0], r, i, said) {
            TalkView::Ask(q) => TalkView::Ask(q),
            TalkView::Done(Err(e), n, t) => TalkView::Done(Err(e), n, t),
            TalkView::Done(Ok(a), n, t) => {
                let began = reached(r, n, w.start);
                match all_rolled_back(v[0], a, texts(w.manifest.reset@), name, r, n, t) {
                    TalkView::Ask(q) => TalkView::Ask(q),
                    TalkView::Done(Err(e), n, t) => TalkView::Done(Err(e), n, t),
                    TalkView::Done(Ok(_), n, t) => sessions_reset(
                        w,
                        v.skip(1),
                        name,
                        r,
                        n,
                        t.push(
                            (
                                false,
                                v[0].name@ + ": rolled back to "@ + name + " in "@ + rough(
                                    elapsed(began, reached(r, n, w.start)),
                                ),
                            ),
                        ),
                    ),
                }
            },
        }
    }
}

pub open spec fn target(to: Option<Seq<char>>) -> Seq<char> {
    match to {
        Some(n) => n,
        None => PRISTINE@,
    }
}

/// `reset`: rolling this project's state back.
pub open spec fn reset_talk(
    w: Work,
    to: Option<Seq<char>>,
    session: Option<Seq<char>>,
    r: Seq<Reply>,
    i: int,
    said: Said,
) -> TalkView<Outcome> {
    if w.manifest.reset@.len() == 0 {
        TalkView::Done(
            Err(
                w.manifest.project@
                    + " declares no reset datasets, so there is nothing to roll back. Add `[reset]` with `datasets = [\"state\"]` to the manifest"@,
            ),
            i,
            said,
        )
    } else {
        match implied(session, Some(w.manifest.project@), Here::Absent, r, i, said) {
            TalkView::Ask(q) => TalkView::Ask(q),
            TalkView::Done(Err(e), n, t) => TalkView::Done(Err(e), n, t),
            TalkView::Done(Ok(v), n, t) => sessions_reset(w, v, target(to), r, n, t),
        }
    }
}

fn roll_back_all(
    x: &Session,
    a: Address,
    datasets: &Vec<String>,
    name: &str,
    r: &Vec<Reply>,
    i: usize,
    said: Vec<Line>,
) -> (t: Talk<Result<(), String>>)
    requires
        i <= r@.len(),
    ensures
        unit_talk(t) == all_rolled_back(
            *x,
            a,
            texts(datasets@),
            name@,
            r@,
            i as int,
            lines(said@),
        ),
        within(t, i, r@),
{
    let ghost all = texts(datasets@);
    let ghost whole = all_rolled_back(*x, a, all, name@, r@, i as int, lines(said@));
    let mut at: usize = i;
    let mut lately: Vec<Line> = said;
    let mut k: usize = 0;
    assert(all.skip(0) =~= all);
    while k < datasets.len()
        invariant
            k <= datasets@.len(),
            i <= at <= r@.len(),
            all == texts(datasets@),
            whole == all_rolled_back(*x, a, all, name@, r@, i as int, lines(said@)),
            whole == all_rolled_back(
                *x,
                a,
                all.skip(k as int),
                name@,
                r@,
                at as int,
                lines(lately@),
            ),
        decreases datasets@.len() - k,
    {
        assert(all.skip(k as int)[0] == datasets@[k as int]@);
        assert(all.skip(k as int).skip(1) =~= all.skip(k + 1));
        let deed = Deed::RunLive {
            session: x.name.clone(),
            address: a,
            command: RUNNER_PATH.to_string().concat(" rollback --dataset ").concat(
                datasets[k].as_str(),
            ).concat(" --name ").concat(word(name).as_str()),
            what: "rolling back".to_string(),
        };
        match ask_done(r, at, lately, 0, deed) {
            Talk::Ask(q) => {
                return Talk::Ask(q);
            },
            Talk::Done(v, n, t) => match v {
                Err(e) => {
                    return Talk::Done(Err(e), n, t);
                },
                Ok(_) => {
                    at = n;
                    lately = t;
                },
            },
        }
        k += 1;
    }
    Talk::Done(Ok(()), at, lately)
}

fn time_between(from: &SystemTime, to: &SystemTime) -> (r: Duration)
    ensures
        r@ / 1_000_000_000 == elapsed(*from, *to),
        r@ >= 0,
{
    match to.duration_since(from) {
        Some(d) => {
            d.bounds();
            d
        },
        None => Duration::from_secs(0),
    }
}

fn reset_sessions(
    w: &Work,
    v: &Vec<Session>,
    name: &str,
    r: &Vec<Reply>,
    i: usize,
    said: Vec<Line>,
) -> (t: Talk<Result<(), String>>)
    requires
        i <= r@.len(),
    ensures
        unit_talk(t) == sessions_reset(*w, v@, name@, r@, i as int, lines(said@)),
        within(t, i, r@),
{
    let ghost whole = sessions_reset(*w, v@, name@, r@, i as int, lines(said@));
    let mut at: usize = i;
    let mut lately: Vec<Line> = said;
    let mut k: usize = 0;
    assert(v@.skip(0) =~= v@);
    while k < v.len()
        invariant
            k <= v@.len(),
            i <= at <= r@.len(),
            whole == sessions_reset(*w, v@, name@, r@, i as int, lines(said@)),
            whole == sessions_reset(
                *w,
                v@.skip(k as int),
                name@,
                r@,
                at as int,
                lines(lately@),
            ),
        decreases v@.len() - k,
    {
        assert(v@.skip(k as int)[0] == v@[k as int]);
        assert(v@.skip(k as int).skip(1) =~= v@.skip(k + 1));
        let (a, n, t) = match deliver_runner(&v[k], r, at, lately) {
            Talk::Ask(q) => {
                return Talk::Ask(q);
            },
            Talk::Done(o, n, t) => match o {
                Err(e) => {
                    return Talk::Done(Err(e), n, t);
                },
                Ok(a) => (a, n, t),
            },
        };
        let began = now(r, n, &w.start);
        match roll_back_all(&v[k], a, &w.manifest.reset, name, r, n, t) {
            Talk::Ask(q) => {
                return Talk::Ask(q);
            },
            Talk::Done(o, n, t) => match o {
                Err(e) => {
                    return Talk::Done(Err(e), n, t);
                },
                Ok(_) => {
                    at = n;
                    let took = time_between(&began, &now(r, n, &w.start));
                    lately = say(
                        t,
                        v[k].name.clone().concat(": rolled back to ").concat(name).concat(
                            " in ",
                        ).concat(format_rough(took).as_str()),
                    );
                },
            },
        }
        k += 1;
    }
    Talk::Done(Ok(()), at, lately)
}

/// Roll this project's state back.
pub fn reset(
    w: &Work,
    to: &Option<String>,
    session: &Option<String>,
    r: &Vec<Reply>,
    i: usize,
    said: Vec<Line>,
) -> (t: Talk<Result<(), String>>)
    requires
        i <= r@.len(),
    ensures
        unit_talk(t) == reset_talk(
            *w,
            maybe(*to),
            maybe(*session),
            r@,
            i as int,
            lines(said@),
        ),
        within(t, i, r@),
{
    if w.manifest.reset.len() == 0 {
        return Talk::Done(
            Err(
                w.manifest.project.clone().concat(
                    " declares no reset datasets, so there is nothing to roll back. Add `[reset]` with `datasets = [\"state\"]` to the manifest",
                ),
            ),
            i,
            said,
        );
    }
    let name = match to {
        Some(n) => n.as_str(),
        None => PRISTINE,
    };
    let project = Some(w.manifest.project.clone());
    match implied_sessions(session, &project, &Here::Absent, r, i, said) {
        Talk::Ask(q) => Talk::Ask(q),
        Talk::Done(v, n, t) => match v {
            Err(e) => Talk::Done(Err(e), n, t),
            Ok(all) => reset_sessions(w, &all, name, r, n, t),
        },
    }
}

// ---------------------------------------------------------------------------
// Resetting before a run
// ---------------------------------------------------------------------------

/// A word stands in the text at a place, with nothing but blanks or the ends of
/// the text around it.
pub open spec fn word_at(s: Seq<char>, word: Seq<char>, at: int) -> bool {
    &&& occurs(s, word, at)
    &&& at == 0 || blank(s[at - 1])
    &&& at + word.len() == s.len() || blank(s[at + word.len()])
}

/// One of the words of a text, which blanks stand between.
pub open spec fn has_word(s: Seq<char>, word: Seq<char>) -> bool {
    &&& word.len() > 0
    &&& forall|i: int| 0 <= i < word.len() ==> !blank(#[trigger] word[i])
    &&& exists|at: int| word_at(s, word, at)
}

/// Is a name among the words of a reply?
pub fn names_point(reply: &str, name: &str) -> (r: bool)
    ensures
        r == has_word(reply@, name@),
{
    let s = chars_of(reply);
    let p = chars_of(name);
    if p.len() == 0 {
        return false;
    }
    let mut i: usize = 0;
    while i < p.len()
        invariant
            i <= p@.len(),
            p@ == name@,
            forall|k: int| 0 <= k < i ==> !blank(#[trigger] p@[k]),
        decreases p@.len() - i,
    {
        if is_blank(p[i]) {
            return false;
        }
        i += 1;
    }
    if p.len() > s.len() {
        assert forall|at: int| !word_at(s@, p@, at) by {}
        return false;
    }
    let whole: usize = s.len();
    let last: usize = whole - p.len();
    let mut at: usize = 0;
    while at <= last
        invariant
            at <= last + 1,
            last + p@.len() == whole,
            whole == s@.len(),
            s@ == reply@,
            p@ == name@,
            p@.len() > 0,
            forall|k: int| 0 <= k < p@.len() ==> !blank(#[trigger] p@[k]),
            forall|k: int| 0 <= k < at ==> !#[trigger] word_at(s@, p@, k),
        decreases last + 1 - at,
    {
        let here = crate::text::part(&s, at, at + p.len());
        let end: usize = at + p.len();
        if same_chars(&here, &p) && (at == 0 || is_blank(s[at - 1])) && (end == whole
            || is_blank(s[end])) {
            assert(word_at(s@, p@, at as int));
            return true;
        }
        assert(!word_at(s@, p@, at as int));
        at += 1;
    }
    assert forall|k: int| !word_at(s@, p@, k) by {
        if word_at(s@, p@, k) {
            assert(occurs(s@, p@, k));
        }
    }
    false
}

pub open spec fn points_deed(x: Session, a: Address, dataset: Seq<char>) -> DeedView {
    Deed::Run {
        session: x.name@,
        address: a,
        command: RUNNER_PATH@ + " snapshots --dataset "@ + dataset,
        what: "listing snapshots"@,
    }
}

pub open spec fn no_point(x: Session, name: Seq<char>) -> Seq<char> {
    x.name@ + ": there is no "@ + debug_text(name) + " to reset to. `reaper snapshot "@ + name
        + "` names one, or a run can name it for itself through $REAPER_CONTROL/snapshot"@
}

/// Does every dataset of a session have the point?
///
/// A point the tenant asked for by name and that does not exist is a different
/// thing from having no pristine yet: the first is very likely a typo, and
/// skipping it silently would run the command against whatever state happened
/// to be there.
pub open spec fn points_there(
    x: Session,
    a: Address,
    datasets: Seq<Seq<char>>,
    to: Option<Seq<char>>,
    r: Seq<Reply>,
    i: int,
    said: Said,
) -> TalkView<Result<bool, Seq<char>>>
    decreases datasets.len(),
{
    if datasets.len() == 0 {
        TalkView::Done(Ok(true), i, said)
    } else {
        match told(r, i, ask(said, 0, points_deed(x, a, datasets[0]))) {
            TalkView::Ask(q) => TalkView::Ask(q),
            TalkView::Done(Err(e), n, t) => TalkView::Done(Err(e), n, t),
            TalkView::Done(Ok(out), n, t) => if has_word(out, target(to)) {
                points_there(x, a, datasets.skip(1), to, r, n, t)
            } else if to is Some {
                TalkView::Done(Err(no_point(x, to->0)), n, t)
            } else {
                TalkView::Done(
                    Ok(false),
                    n,
                    t.push(
                        (
                            false,
                            x.name@ + ": nothing to reset to yet; this run will take "@
                                + PRISTINE@,
                        ),
                    ),
                )
            },
        }
    }
}

/// Rolling back each session that has somewhere to roll back to. Asked of the
/// session, because "has this project ever completed a run here" is a fact
/// about the machine: a fresh session skipping its first reset must not cancel
/// the rollback its older sibling was owed.
pub open spec fn rolled_where_possible(
    w: Work,
    v: Seq<Session>,
    to: Option<Seq<char>>,
    r: Seq<Reply>,
    i: int,
    said: Said,
) -> TalkView<Outcome>
    decreases v.len(),
{
    if v.len() == 0 {
        TalkView::Done(Ok(()), i, said)
    } else {
        match delivered(v[0], r, i, said) {
            TalkView::Ask(q) => TalkView::Ask(q),
            TalkView::Done(Err(e), n, t) => TalkView::Done(Err(e), n, t),
            TalkView::Done(Ok(a), n, t) => match points_there(
                v[0],
                a,
                texts(w.manifest.reset@),
                to,
                r,
                n,
                t,
            ) {
                TalkView::Ask(q) => TalkView::Ask(q),
                TalkView::Done(Err(e), n, t) => TalkView::Done(Err(e), n, t),
                TalkView::Done(Ok(false), n, t) => rolled_where_possible(
                    w,
                    v.skip(1),
                    to,
                    r,
                    n,
                    t,
                ),
                TalkView::Done(Ok(true), n, t) => match reset_talk(
                    w,
                    to,
                    Some(v[0].name@),
                    r,
                    n,
                    t.push((false, v[0].name@ + ": reset to "@ + target(to))),
                ) {
                    TalkView::Ask(q) => TalkView::Ask(q),
                    TalkView::Done(Err(e), n, t) => TalkView::Done(Err(e), n, t),
                    TalkView::Done(Ok(_), n, t) => rolled_where_possible(
                        w,
                        v.skip(1),
                        to,
                        r,
                        n,
                        t,
                    ),
                },
            },
        }
    }
}

/// Rolling state back before a run, but only where there is somewhere to roll
/// back to.
pub open spec fn reset_first(
    w: Work,
    to: Option<Seq<char>>,
    session: Option<Seq<char>>,
    r: Seq<Reply>,
    i: int,
    said: Said,
) -> TalkView<Outcome> {
    if w.manifest.reset@.len() == 0 {
        TalkView::Done(
            Ok(()),
            i,
            said.push(
                (false, w.manifest.project@ + ": no reset datasets declared; skipping"@),
            ),
        )
    } else {
        match implied(session, Some(w.manifest.project@), Here::Absent, r, i, said) {
            TalkView::Ask(q) => TalkView::Ask(q),
            TalkView::Done(Err(e), n, t) => TalkView::Done(Err(e), n, t),
            TalkView::Done(Ok(v), n, t) => rolled_where_possible(w, v, to, r, n, t),
        }
    }
}

fn has_points(
    x: &Session,
    a: Address,
    datasets: &Vec<String>,
    to: &Option<String>,
    r: &Vec<Reply>,
    i: usize,
    said: Vec<Line>,
) -> (t: Talk<Result<bool, String>>)
    requires
        i <= r@.len(),
    ensures
        value_talk(t) == points_there(
            *x,
            a,
            texts(datasets@),
            maybe(*to),
            r@,
            i as int,
            lines(said@),
        ),
        within(t, i, r@),
{
    let name = match to {
        Some(n) => n.as_str(),
        None => PRISTINE,
    };
    let ghost all = texts(datasets@);
    let ghost whole = points_there(*x, a, all, maybe(*to), r@, i as int, lines(said@));
    let mut at: usize = i;
    let mut lately: Vec<Line> = said;
    let mut k: usize = 0;
    assert(all.skip(0) =~= all);
    while k < datasets.len()
        invariant
            k <= datasets@.len(),
            i <= at <= r@.len(),
            all == texts(datasets@),
            name@ == target(maybe(*to)),
            whole == points_there(*x, a, all, maybe(*to), r@, i as int, lines(said@)),
            whole == points_there(
                *x,
                a,
                all.skip(k as int),
                maybe(*to),
                r@,
                at as int,
                lines(lately@),
            ),
        decreases datasets@.len() - k,
    {
        assert(all.skip(k as int)[0] == datasets@[k as int]@);
        assert(all.skip(k as int).skip(1) =~= all.skip(k + 1));
        let deed = Deed::Run {
            session: x.name.clone(),
            address: a,
            command: RUNNER_PATH.to_string().concat(" snapshots --dataset ").concat(
                datasets[k].as_str(),
            ),
            what: "listing snapshots".to_string(),
        };
        match ask_text(r, at, lately, 0, deed) {
            Talk::Ask(q) => {
                return Talk::Ask(q);
            },
            Talk::Done(v, n, t) => match v {
                Err(e) => {
                    return Talk::Done(Err(e), n, t);
                },
                Ok(out) => {
                    if !names_point(out.as_str(), name) {
                        if to.is_some() {
                            return Talk::Done(
                                Err(
                                    x.name.clone().concat(": there is no ").concat(
                                        quoted(name).as_str(),
                                    ).concat(" to reset to. `reaper snapshot ").concat(
                                        name,
                                    ).concat(
                                        "` names one, or a run can name it for itself through $REAPER_CONTROL/snapshot",
                                    ),
                                ),
                                n,
                                t,
                            );
                        }
                        let line = x.name.clone().concat(
                            ": nothing to reset to yet; this run will take ",
                        ).concat(PRISTINE);
                        return Talk::Done(Ok(false), n, say(t, line));
                    }
                    at = n;
                    lately = t;
                },
            },
        }
        k += 1;
    }
    Talk::Done(Ok(true), at, lately)
}

fn roll_where_possible(
    w: &Work,
    v: &Vec<Session>,
    to: &Option<String>,
    r: &Vec<Reply>,
    i: usize,
    said: Vec<Line>,
) -> (t: Talk<Result<(), String>>)
    requires
        i <= r@.len(),
    ensures
        unit_talk(t) == rolled_where_possible(
            *w,
            v@,
            maybe(*to),
            r@,
            i as int,
            lines(said@),
        ),
        within(t, i, r@),
{
    let name = match to {
        Some(n) => n.as_str(),
        None => PRISTINE,
    };
    let ghost whole = rolled_where_possible(*w, v@, maybe(*to), r@, i as int, lines(said@));
    let mut at: usize = i;
    let mut lately: Vec<Line> = said;
    let mut k: usize = 0;
    assert(v@.skip(0) =~= v@);
    while k < v.len()
        invariant
            k <= v@.len(),
            i <= at <= r@.len(),
            name@ == target(maybe(*to)),
            whole == rolled_where_possible(*w, v@, maybe(*to), r@, i as int, lines(said@)),
            whole == rolled_where_possible(
                *w,
                v@.skip(k as int),
                maybe(*to),
                r@,
                at as int,
                lines(lately@),
            ),
        decreases v@.len() - k,
    {
        assert(v@.skip(k as int)[0] == v@[k as int]);
        assert(v@.skip(k as int).skip(1) =~= v@.skip(k + 1));
        let (a, n, t) = match deliver_runner(&v[k], r, at, lately) {
            Talk::Ask(q) => {
                return Talk::Ask(q);
            },
            Talk::Done(o, n, t) => match o {
                Err(e) => {
                    return Talk::Done(Err(e), n, t);
                },
                Ok(a) => (a, n, t),
            },
        };
        match has_points(&v[k], a, &w.manifest.reset, to, r, n, t) {
            Talk::Ask(q) => {
                return Talk::Ask(q);
            },
            Talk::Done(o, n, t) => match o {
                Err(e) => {
                    return Talk::Done(Err(e), n, t);
                },
                Ok(false) => {
                    at = n;
                    lately = t;
                },
                Ok(true) => {
                    let t2 = say(t, v[k].name.clone().concat(": reset to ").concat(name));
                    let one = Some(v[k].name.clone());
                    match reset(w, to, &one, r, n, t2) {
                        Talk::Ask(q) => {
                            return Talk::Ask(q);
                        },
                        Talk::Done(o, n, t) => match o {
                            Err(e) => {
                                return Talk::Done(Err(e), n, t);
                            },
                            Ok(_) => {
                                at = n;
                                lately = t;
                            },
                        },
                    }
                },
            },
        }
        k += 1;
    }
    Talk::Done(Ok(()), at, lately)
}

pub fn reset_before_run(
    w: &Work,
    to: &Option<String>,
    session: &Option<String>,
    r: &Vec<Reply>,
    i: usize,
    said: Vec<Line>,
) -> (t: Talk<Result<(), String>>)
    requires
        i <= r@.len(),
    ensures
        unit_talk(t) == reset_first(
            *w,
            maybe(*to),
            maybe(*session),
            r@,
            i as int,
            lines(said@),
        ),
        within(t, i, r@),
{
    if w.manifest.reset.len() == 0 {
        return Talk::Done(
            Ok(()),
            i,
            say(
                said,
                w.manifest.project.clone().concat(": no reset datasets declared; skipping"),
            ),
        );
    }
    let project = Some(w.manifest.project.clone());
    match implied_sessions(session, &project, &Here::Absent, r, i, said) {
        Talk::Ask(q) => Talk::Ask(q),
        Talk::Done(v, n, t) => match v {
            Err(e) => Talk::Done(Err(e), n, t),
            Ok(all) => roll_where_possible(w, &all, to, r, n, t),
        },
    }
}

// ---------------------------------------------------------------------------
// test
// ---------------------------------------------------------------------------

pub open spec fn clearing_words(
    said: Said,
    m: Manifest,
    cleared: Result<usize, Seq<char>>,
) -> Said {
    match cleared {
        Ok(n) => if n == 0 {
            said
        } else {
            said.push(
                (
                    false,
                    m.project@ + ": cleared "@ + dec(n as nat) + " entr"@ + (if n == 1 {
                        "y"@
                    } else {
                        "ies"@
                    }) + " from "@ + RESULTS@
                        + "/ -- this run's results, and only this run's, land there"@,
                ),
            )
        },
        // Not fatal: refusing to run the tests over it helps nobody.
        Err(e) => said.push(
            (
                true,
                m.project@ + ": could not clear "@ + RESULTS@ + "/ before this run ("@ + e
                    + "), so it may still hold results from an earlier one"@,
            ),
        ),
    }
}

/// The part of the loop that builds, where anything does.
pub open spec fn built(
    w: Work,
    session: Option<Seq<char>>,
    profile: Option<Seq<char>>,
    r: Seq<Reply>,
    i: int,
    said: Said,
) -> TalkView<Outcome> {
    if builds_nothing(*w.manifest) {
        TalkView::Done(
            Ok(()),
            i,
            said.push((false, w.manifest.project@ + ": no build declared; skipping"@)),
        )
    } else {
        executed(
            w,
            Verb::Build,
            session,
            profile,
            r,
            i,
            said.push((false, w.manifest.project@ + ": build"@)),
        )
    }
}

/// The loop, as one verb: sync, build, reset, run.
///
/// Which sessions it acts on is asked before anything is touched: a loop that
/// could not start must not cost the last one its output. Then the results
/// directory is emptied, once: what a failed run leaves there must not be an
/// earlier run's.
pub open spec fn tested(
    w: Work,
    to: Option<Seq<char>>,
    session: Option<Seq<char>>,
    profile: Option<Seq<char>>,
    r: Seq<Reply>,
) -> TalkView<Outcome> {
    match implied(session, Some(w.manifest.project@), Here::Absent, r, 0, Seq::empty()) {
        TalkView::Ask(q) => TalkView::Ask(q),
        TalkView::Done(Err(e), n, t) => TalkView::Done(Err(e), n, t),
        TalkView::Done(Ok(_), n, t) => match counted(
            r,
            n,
            ask(t, 0, Deed::ClearResults(w.tree@)),
        ) {
            TalkView::Ask(q) => TalkView::Ask(q),
            TalkView::Done(cleared, n, t) => match sync_talk(
                w,
                session,
                r,
                n,
                clearing_words(t, *w.manifest, cleared).push(
                    (false, w.manifest.project@ + ": sync"@),
                ),
            ) {
                TalkView::Ask(q) => TalkView::Ask(q),
                TalkView::Done(Err(e), n, t) => TalkView::Done(Err(e), n, t),
                TalkView::Done(Ok(_), n, t) => match built(w, session, profile, r, n, t) {
                    TalkView::Ask(q) => TalkView::Ask(q),
                    TalkView::Done(Err(e), n, t) => TalkView::Done(Err(e), n, t),
                    TalkView::Done(Ok(_), n, t) => match reset_first(
                        w,
                        to,
                        session,
                        r,
                        n,
                        t,
                    ) {
                        TalkView::Ask(q) => TalkView::Ask(q),
                        TalkView::Done(Err(e), n, t) => TalkView::Done(Err(e), n, t),
                        TalkView::Done(Ok(_), n, t) => executed(
                            w,
                            Verb::Run,
                            session,
                            profile,
                            r,
                            n,
                            t.push((false, w.manifest.project@ + ": run"@)),
                        ),
                    },
                },
            },
        },
    }
}

fn say_cleared(said: Vec<Line>, m: &Manifest, cleared: &Result<usize, String>) -> (r: Vec<Line>)
    ensures
        lines(r@) == clearing_words(
            lines(said@),
            *m,
            match *cleared {
                Ok(n) => Ok(n),
                Err(e) => Err(e@),
            },
        ),
{
    match cleared {
        Ok(n) => {
            if *n == 0 {
                said
            } else {
                say(
                    said,
                    m.project.clone().concat(": cleared ").concat(
                        decimal(*n as u64).as_str(),
                    ).concat(" entr").concat(
                        if *n == 1 {
                            "y"
                        } else {
                            "ies"
                        },
                    ).concat(" from ").concat(RESULTS).concat(
                        "/ -- this run's results, and only this run's, land there",
                    ),
                )
            }
        },
        Err(e) => warn(
            said,
            m.project.clone().concat(": could not clear ").concat(RESULTS).concat(
                "/ before this run (",
            ).concat(e.as_str()).concat("), so it may still hold results from an earlier one"),
        ),
    }
}

fn build(
    w: &Work,
    session: &Option<String>,
    profile: &Option<String>,
    r: &Vec<Reply>,
    i: usize,
    said: Vec<Line>,
) -> (t: Talk<Result<(), String>>)
    requires
        i <= r@.len(),
    ensures
        unit_talk(t) == built(
            *w,
            maybe(*session),
            maybe(*profile),
            r@,
            i as int,
            lines(said@),
        ),
        within(t, i, r@),
{
    // A project with no build step is ordinary -- the smallest legal manifest
    // has none -- so this is a skip rather than a failure.
    if builds(w.manifest) {
        let s = say(said, w.manifest.project.clone().concat(": build"));
        execute(w, Verb::Build, session, profile, r, i, s)
    } else {
        Talk::Done(
            Ok(()),
            i,
            say(said, w.manifest.project.clone().concat(": no build declared; skipping")),
        )
    }
}

/// The whole loop: sync, build, reset, run.
pub fn test(
    w: &Work,
    to: &Option<String>,
    session: &Option<String>,
    profile: &Option<String>,
    r: &Vec<Reply>,
) -> (t: Talk<Result<(), String>>)
    ensures
        unit_talk(t) == tested(*w, maybe(*to), maybe(*session), maybe(*profile), r@),
{
    let project = Some(w.manifest.project.clone());
    let (n, t) = match implied_sessions(session, &project, &Here::Absent, r, 0, silence()) {
        Talk::Ask(q) => {
            return Talk::Ask(q);
        },
        Talk::Done(v, n, t) => match v {
            Err(e) => {
                return Talk::Done(Err(e), n, t);
            },
            Ok(_) => (n, t),
        },
    };
    let (n, t) = match ask_count(r, n, t, Deed::ClearResults(w.tree.to_string())) {
        Talk::Ask(q) => {
            return Talk::Ask(q);
        },
        Talk::Done(cleared, n, t) => (n, say_cleared(t, w.manifest, &cleared)),
    };
    let t = say(t, w.manifest.project.clone().concat(": sync"));
    let (n, t) = match sync(w, session, r, n, t) {
        Talk::Ask(q) => {
            return Talk::Ask(q);
        },
        Talk::Done(v, n, t) => match v {
            Err(e) => {
                return Talk::Done(Err(e), n, t);
            },
            Ok(_) => (n, t),
        },
    };
    let (n, t) = match build(w, session, profile, r, n, t) {
        Talk::Ask(q) => {
            return Talk::Ask(q);
        },
        Talk::Done(v, n, t) => match v {
            Err(e) => {
                return Talk::Done(Err(e), n, t);
            },
            Ok(_) => (n, t),
        },
    };
    let (n, t) = match reset_before_run(w, to, session, r, n, t) {
        Talk::Ask(q) => {
            return Talk::Ask(q);
        },
        Talk::Done(v, n, t) => match v {
            Err(e) => {
                return Talk::Done(Err(e), n, t);
            },
            Ok(_) => (n, t),
        },
    };
    let t = say(t, w.manifest.project.clone().concat(": run"));
    execute(w, Verb::Run, session, profile, r, n, t)
}

// ---------------------------------------------------------------------------
// What resetting promises
// ---------------------------------------------------------------------------

/// On a session that has no pristine yet the reset is skipped, and that is said;
/// a point that was asked for by name and is not there is an error.
pub proof fn law_only_a_named_point_has_to_be_there(
    x: Session,
    a: Address,
    datasets: Seq<Seq<char>>,
    to: Option<Seq<char>>,
    r: Seq<Reply>,
    i: int,
    said: Said,
)
    requires
        datasets.len() > 0,
        0 <= i < r.len(),
        r[i].event is Text,
        !has_word(r[i].event->Text_0@, target(to)),
    ensures
        points_there(x, a, datasets, to, r, i, said) matches TalkView::Done(o, n, t) && n == i + 1
            && (if to is Some {
            o == Err::<bool, Seq<char>>(no_point(x, to->0))
        } else {
            o == Ok::<bool, Seq<char>>(false) && t.len() == 1
        }),
{
}

/// A loop that cannot start leaves the last one's results alone: nothing is
/// cleared before the sessions are known.
pub proof fn law_a_loop_that_cannot_start_clears_nothing(
    w: Work,
    to: Option<Seq<char>>,
    session: Option<Seq<char>>,
    profile: Option<Seq<char>>,
    r: Seq<Reply>,
)
    requires
        !(implied(session, Some(w.manifest.project@), Here::Absent, r, 0, Seq::empty()) matches
            TalkView::Done(Ok(_), _, _)),
    ensures
        match tested(w, to, session, profile, r) {
            TalkView::Ask(q) => q.deed is Get || q.deed is List,
            TalkView::Done(o, _, _) => o is Err,
        },
{
}

/// A step of the loop that fails ends it: whatever the steps after it would
/// have asked for is not asked for, and the failure is the loop's own.
pub proof fn law_a_failing_step_stops_the_rest(
    w: Work,
    to: Option<Seq<char>>,
    session: Option<Seq<char>>,
    profile: Option<Seq<char>>,
    r: Seq<Reply>,
    i: int,
    said: Said,
    cleared: Result<usize, Seq<char>>,
    j: int,
    lately: Said,
)
    requires
        implied(session, Some(w.manifest.project@), Here::Absent, r, 0, Seq::empty()) matches
            TalkView::Done(Ok(_), n, t) && n == i && t == said,
        counted(r, i, ask(said, 0, Deed::ClearResults(w.tree@))) == TalkView::Done(
            cleared,
            j,
            lately,
        ),
    ensures
        ({
            let whole = tested(w, to, session, profile, r);
            let s = clearing_words(lately, *w.manifest, cleared).push(
                (false, w.manifest.project@ + ": sync"@),
            );
            match sync_talk(w, session, r, j, s) {
                TalkView::Done(Ok(_), n, t) => match built(w, session, profile, r, n, t) {
                    TalkView::Done(Ok(_), n, t) => match reset_first(w, to, session, r, n, t) {
                        TalkView::Done(Ok(_), n, t) => whole == executed(
                            w,
                            Verb::Run,
                            session,
                            profile,
                            r,
                            n,
                            t.push((false, w.manifest.project@ + ": run"@)),
                        ),
                        stopped => whole == stopped,
                    },
                    stopped => whole == stopped,
                },
                stopped => whole == stopped,
            }
        }),
{
}

}
