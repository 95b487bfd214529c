//! What `renew`, `heartbeat`, `down` and `list` promise.
use vstd::prelude::*;
use vstd::string::*;

use crate::config::Config;
use crate::duration::{reading, rough};
use crate::paths::joined;
use crate::session::Session;
use crate::text::dec;
use crate::time::{last_moment, SystemTime};
use crate::verbs::common::{implied, Here};
use crate::verbs::deeds::{
    fate_of, found_of, unit_of, Deed, DeedView, Event, Fate, Outcome, Reply, Said, TalkView,
};
use crate::verbs::laws::{
    awaited, handed, heard, law_no_session_of_a_project_is_missed, lemma_implied_holds, moment,
};
use crate::verbs::laws::sync::{
    lemma_opened, lemma_pulled, lemma_script_path, pulls, stands_in,
};
use crate::verbs::sessions::{
    all_down, all_renewed, beats, destroyed, down_talk, heartbeat_talk, list_talk, one_down,
    padded, renew_talk, rows, silenced, targets, tree_of, vouched, Site,
};
use crate::verbs::work::{collected, gathered, opened};

verus! {

// ---------------------------------------------------------------------------
// renew
// ---------------------------------------------------------------------------

/// How long a renewal lasts, in nanoseconds: what was asked for, read as a
/// duration; only where nothing was asked for, what the session lasted before.
pub open spec fn lasts(x: Session, ttl: Option<Seq<char>>, d: int) -> bool {
    match ttl {
        Some(t) => reading(t) matches Ok(secs) && d == secs * 1_000_000_000,
        None => d == x.ttl@,
    }
}

/// What renewing a session may ask for: that its machine live so much longer
/// than now; and once that is done, that the very same moment be recorded.
pub open spec fn of_a_renewal(
    x: Session,
    ttl: Option<Seq<char>>,
    start: SystemTime,
    r: Seq<Reply>,
    d: DeedView,
) -> bool {
    match d {
        Deed::SetExpiry(machine, at) => machine == x.machine.0@ && exists|k: int, span: int|
            #![trigger awaited(r, k, d), lasts(x, ttl, span)]
            awaited(r, k, d) && lasts(x, ttl, span) && at == moment(r, k, start) + span,
        Deed::RecordRenewal(name, at, span) => name == x.name@ && lasts(x, ttl, span) && exists|
            k: int,
        |
            #[trigger] awaited(r, k, d) && k > 0 && r[k - 1].event is Done && at == moment(
                r,
                k - 1,
                start,
            ) + span,
        _ => false,
    }
}

/// At some point a session's machine is given so much longer than then; and if
/// that went well, the same moment is recorded next.
spec fn renewed_at(
    v: Seq<Session>,
    ttl: Option<Seq<char>>,
    start: SystemTime,
    failures: nat,
    r: Seq<Reply>,
    i: int,
    said: Said,
    x: Session,
    a: int,
    span: int,
) -> bool {
    &&& i <= a < r.len()
    &&& lasts(x, ttl, span)
    &&& all_renewed(v, ttl, start, failures, r.take(a), i, said) matches TalkView::Ask(q)
        && is_expiry(x, moment(r, a, start) + span, q.deed)
    &&& r[a].event is Done ==> a + 1 < r.len() && (all_renewed(
        v,
        ttl,
        start,
        failures,
        r.take(a + 1),
        i,
        said,
    ) matches TalkView::Ask(q) && is_renewal(x, moment(r, a, start) + span, span, q.deed))
}

pub open spec fn is_expiry(x: Session, at: int, d: DeedView) -> bool {
    d matches Deed::SetExpiry(machine, t) && machine == x.machine.0@ && t == at
}

pub open spec fn is_renewal(x: Session, at: int, span: int, d: DeedView) -> bool {
    d matches Deed::RecordRenewal(name, t, s) && name == x.name@ && t == at && s == span
}

/// The span that was asked for cannot be read, or reaches past the last moment
/// that a clock can show.
pub open spec fn unworkable(
    v: Seq<Session>,
    ttl: Option<Seq<char>>,
    start: SystemTime,
    r: Seq<Reply>,
) -> bool {
    ||| ttl matches Some(t) && reading(t) is Err
    ||| exists|l: int, k: int, span: int| #[trigger] too_far(v, ttl, start, r, l, k, span)
}

pub open spec fn too_far(
    v: Seq<Session>,
    ttl: Option<Seq<char>>,
    start: SystemTime,
    r: Seq<Reply>,
    l: int,
    k: int,
    span: int,
) -> bool {
    0 <= l < v.len() && 0 <= k <= r.len() && lasts(v[l], ttl, span) && moment(r, k, start) + span
        > last_moment()
}

spec fn unrecorded(
    v: Seq<Session>,
    ttl: Option<Seq<char>>,
    start: SystemTime,
    failures: nat,
    r: Seq<Reply>,
    i: int,
    said: Said,
    k: int,
) -> bool {
    &&& i <= k < r.len()
    &&& all_renewed(v, ttl, start, failures, r.take(k), i, said) matches TalkView::Ask(q) && q.deed
        is RecordRenewal
    &&& unit_of(r[k].event) matches Some(Err(_))
}

#[verifier::rlimit(60)]
#[verifier::spinoff_prover]
proof fn lemma_all_renewed(
    v: Seq<Session>,
    ttl: Option<Seq<char>>,
    start: SystemTime,
    failures: nat,
    r: Seq<Reply>,
    i: int,
    said: Said,
    j: int,
)
    requires
        0 <= i <= r.len(),
    ensures
        match all_renewed(v, ttl, start, failures, r, i, said) {
            TalkView::Ask(q) => exists|l: int|
                0 <= l < v.len() && of_a_renewal(#[trigger] v[l], ttl, start, r, q.deed),
            TalkView::Done(o, n, _) => {
                &&& i <= n <= r.len()
                &&& o is Ok ==> failures == 0
                &&& 0 <= j < v.len() ==> {
                    ||| exists|a: int, span: int| #[trigger]
                        renewed_at(v, ttl, start, failures, r, i, said, v[j], a, span) && (o is Ok
                            ==> r[a].event is Done)
                    ||| o is Err && unworkable(v, ttl, start, r)
                    ||| o is Err && exists|k: int| #[trigger]
                        unrecorded(v, ttl, start, failures, r, i, said, k)
                }
            },
        },
    decreases v.len(),
{
    if v.len() > 0 {
        let x = v[0];
        let rest = v.skip(1);
        let now = moment(r, i, start);
        assert(crate::verbs::deeds::reached(r, i, start)@ == now);
        assert(forall|l: int| 0 <= l < rest.len() ==> rest[l] == v[l + 1]);
        match crate::verbs::sessions::renewal(x, ttl) {
            Err(_) => {},
            Ok(span) => {
                assert(lasts(v[0], ttl, span));
                let set: DeedView = Deed::SetExpiry(x.machine.0@, now + span);
                let rec: DeedView = Deed::RecordRenewal(x.name@, now + span, span);
                if now + span > last_moment() {
                    assert(too_far(v, ttl, start, r, 0, i, span));
                    assert(unworkable(v, ttl, start, r));
                } else if i >= r.len() || fate_of(r[i].event) is None {
                    assert(awaited(r, i, set));
                    assert(of_a_renewal(v[0], ttl, start, r, set));
                } else if fate_of(r[i].event)->0 is Well && (i + 1 >= r.len() || unit_of(
                    r[i + 1].event,
                ) is None) {
                    assert(awaited(r, i + 1, rec));
                    assert(of_a_renewal(v[0], ttl, start, r, rec));
                } else if fate_of(r[i].event)->0 is Well && unit_of(r[i + 1].event)->0 is Err {
                    assert(r.take(i + 1)[i] == r[i]);
                    assert(i > 0 ==> r.take(i + 1)[i - 1] == r[i - 1]);
                    assert(unrecorded(v, ttl, start, failures, r, i, said, i + 1));
                } else {
                    let (f, n, s) = match fate_of(r[i].event)->0 {
                        Fate::Well => (
                            failures,
                            i + 2,
                            Seq::<(bool, Seq<char>)>::empty().push(
                                (
                                    false,
                                    x.name@ + ": expires in "@ + crate::duration::exact(
                                        (span / 1_000_000_000) as nat,
                                    ),
                                ),
                            ),
                        ),
                        Fate::Gone(_) => (
                            failures + 1,
                            i + 1,
                            Seq::<(bool, Seq<char>)>::empty().push(
                                (
                                    true,
                                    x.name@
                                        + ": its machine is gone (the sweeper collects anything past its expiry); there is nothing left to renew. `reaper down "@
                                        + x.name@ + "` clears the record"@,
                                ),
                            ),
                        ),
                        Fate::Failed(e) => (
                            failures + 1,
                            i + 1,
                            Seq::<(bool, Seq<char>)>::empty().push(
                                (true, x.name@ + ": could not renew: "@ + e),
                            ),
                        ),
                    };
                    lemma_all_renewed(rest, ttl, start, f, r, n, s, j - 1);
                    assert(all_renewed(v, ttl, start, failures, r, i, said) == all_renewed(
                        rest,
                        ttl,
                        start,
                        f,
                        r,
                        n,
                        s,
                    ));
                    assert forall|k: int| n <= k <= r.len() implies #[trigger] all_renewed(
                        v,
                        ttl,
                        start,
                        failures,
                        r.take(k),
                        i,
                        said,
                    ) == all_renewed(rest, ttl, start, f, r.take(k), n, s) by {
                        assert(r.take(k)[i] == r[i]);
                        assert(i + 1 < n ==> r.take(k)[i + 1] == r[i + 1]);
                        assert(i > 0 ==> r.take(k)[i - 1] == r[i - 1]);
                    }
                    match all_renewed(rest, ttl, start, f, r, n, s) {
                        TalkView::Ask(q) => {
                            let l = choose|l: int|
                                0 <= l < rest.len() && of_a_renewal(
                                    #[trigger] rest[l],
                                    ttl,
                                    start,
                                    r,
                                    q.deed,
                                );
                            assert(v[l + 1] == rest[l]);
                        },
                        TalkView::Done(o, _, _) => {
                            if j == 0 {
                                assert(r.take(i + 1)[i] == r[i]);
                                assert(i > 0 ==> r.take(i + 1)[i - 1] == r[i - 1]);
                                assert(i > 0 ==> r.take(i)[i - 1] == r[i - 1]);
                                assert(renewed_at(
                                    v,
                                    ttl,
                                    start,
                                    failures,
                                    r,
                                    i,
                                    said,
                                    v[0],
                                    i,
                                    span,
                                ));
                            } else if 0 < j < v.len() {
                                assert(v[j] == rest[j - 1]);
                                if exists|a: int, span: int| #[trigger]
                                    renewed_at(rest, ttl, start, f, r, n, s, rest[j - 1], a, span)
                                        && (o is Ok ==> r[a].event is Done) {
                                    let (a, span) = choose|a: int, span: int| #[trigger]
                                        renewed_at(
                                            rest,
                                            ttl,
                                            start,
                                            f,
                                            r,
                                            n,
                                            s,
                                            rest[j - 1],
                                            a,
                                            span,
                                        ) && (o is Ok ==> r[a].event is Done);
                                    assert(all_renewed(v, ttl, start, failures, r.take(a), i, said)
                                        == all_renewed(rest, ttl, start, f, r.take(a), n, s));
                                    if r[a].event is Done {
                                        assert(all_renewed(
                                            v,
                                            ttl,
                                            start,
                                            failures,
                                            r.take(a + 1),
                                            i,
                                            said,
                                        ) == all_renewed(rest, ttl, start, f, r.take(a + 1), n, s));
                                    }
                                    assert(renewed_at(
                                        v,
                                        ttl,
                                        start,
                                        failures,
                                        r,
                                        i,
                                        said,
                                        v[j],
                                        a,
                                        span,
                                    ));
                                } else if unworkable(rest, ttl, start, r) {
                                    if !(ttl matches Some(t) && reading(t) is Err) {
                                        let (l, k, span) = choose|l: int, k: int, span: int|
                                            #[trigger]
                                            too_far(rest, ttl, start, r, l, k, span);
                                        assert(v[l + 1] == rest[l]);
                                        assert(too_far(v, ttl, start, r, l + 1, k, span));
                                    }
                                    assert(unworkable(v, ttl, start, r));
                                } else {
                                    let k = choose|k: int| #[trigger]
                                        unrecorded(rest, ttl, start, f, r, n, s, k);
                                    assert(all_renewed(v, ttl, start, failures, r.take(k), i, said)
                                        == all_renewed(rest, ttl, start, f, r.take(k), n, s));
                                    assert(unrecorded(v, ttl, start, failures, r, i, said, k));
                                }
                            }
                        },
                    }
                }
            },
        }
    }
}

/// The session that a verb may touch for a project that was named, if one was.
pub open spec fn permitted(project: Option<Seq<char>>, r: Seq<Reply>, x: Session) -> bool {
    heard(r, x) && (project matches Some(p) ==> x.project@ == p)
}

pub proof fn lemma_implied_sessions(
    explicit: Option<Seq<char>>,
    project: Option<Seq<char>>,
    here: Here,
    r: Seq<Reply>,
    i: int,
    said: Said,
)
    requires
        0 <= i <= r.len(),
    ensures
        match implied(explicit, project, here, r, i, said) {
            TalkView::Ask(q) => match explicit {
                Some(name) => q.deed matches Deed::Get(n) && n == name,
                None => q.deed is List,
            },
            TalkView::Done(o, n, _) => {
                &&& i <= n <= r.len()
                &&& o matches Ok(v) ==> n == i + 1 && (forall|k: int|
                    0 <= k < v.len() ==> permitted(project, r, #[trigger] v[k]))
            },
        },
{
    match implied(explicit, project, here, r, i, said) {
        TalkView::Done(Ok(v), n, _) => {
            assert forall|k: int| 0 <= k < v.len() implies permitted(
                project,
                r,
                #[trigger] v[k],
            ) by {
                if explicit is Some {
                    assert(handed(r[i].event, v[0]));
                } else {
                    let p = crate::verbs::common::acting_for(project, here)->Ok_0;
                    let all = r[i].event->Sessions_0;
                    law_no_session_of_a_project_is_missed(all@, p, v[k]);
                    assert(v.contains(v[k]));
                    assert(handed(r[i].event, v[k]));
                }
            }
        },
        _ => {},
    }
}

/// Whatever `renew` asks for, it makes the provider ready or asks of the store
/// which sessions there are, or it is about one of those sessions: its machine is
/// to live, from now on, for the span that was given, or for the session's own
/// where none was; and the moment that is recorded is the one that was set, with
/// the span it came from.
pub proof fn law_what_a_renewal_asks_for(
    session: Option<Seq<char>>,
    ttl: Option<Seq<char>>,
    project: Result<Option<Seq<char>>, Seq<char>>,
    here: Here,
    start: SystemTime,
    r: Seq<Reply>,
)
    ensures
        renew_talk(session, ttl, project, here, start, r) matches TalkView::Ask(q) ==> (
        match q.deed {
            Deed::Provider => true,
            Deed::Get(name) => session == Some(name),
            Deed::List => session is None,
            d => exists|x: Session|
                project is Ok && permitted(project->Ok_0, r, x) && #[trigger] of_a_renewal(
                    x,
                    ttl,
                    start,
                    r,
                    d,
                ),
        }),
{
    if r.len() > 0 && unit_of(r[0].event) == Some(Ok::<(), Seq<char>>(())) {
        match project {
            Ok(p) => {
                lemma_implied_sessions(session, p, here, r, 1, Seq::empty());
                match implied(session, p, here, r, 1, Seq::empty()) {
                    TalkView::Done(Ok(v), n, t) => {
                        lemma_all_renewed(v, ttl, start, 0, r, n, t, 0);
                        match all_renewed(v, ttl, start, 0, r, n, t) {
                            TalkView::Ask(q) => {
                                let l = choose|l: int|
                                    0 <= l < v.len() && of_a_renewal(
                                        #[trigger] v[l],
                                        ttl,
                                        start,
                                        r,
                                        q.deed,
                                    );
                                assert(permitted(p, r, v[l]));
                            },
                            _ => {},
                        }
                    },
                    _ => {},
                }
            },
            _ => {},
        }
    }
}

/// By the time `renew` ends, each session's machine has been given its new
/// expiry, whatever came of the ones before it, and where that went well the same
/// moment was recorded next; unless the span was unworkable, or the store would
/// not take a record. And where `renew` succeeds, it went well for each of them.
#[verifier::rlimit(60)]
#[verifier::spinoff_prover]
pub proof fn law_every_session_is_renewed(
    session: Option<Seq<char>>,
    ttl: Option<Seq<char>>,
    project: Option<Seq<char>>,
    here: Here,
    start: SystemTime,
    r: Seq<Reply>,
    v: Seq<Session>,
    j: int,
)
    requires
        r.len() > 0,
        r[0].event is Done,
        implied(session, project, here, r, 1, Seq::empty()) matches TalkView::Done(Ok(all), _, _)
            && all == v,
        renew_talk(session, ttl, Ok(project), here, start, r) is Done,
        0 <= j < v.len(),
    ensures
        ({
            let o = renew_talk(session, ttl, Ok(project), here, start, r)->Done_0;
            ||| exists|a: int, span: int|
                #![trigger r.take(a), lasts(v[j], ttl, span)]
                {
                    &&& 0 < a < r.len()
                    &&& lasts(v[j], ttl, span)
                    &&& renew_talk(
                        session,
                        ttl,
                        Ok(project),
                        here,
                        start,
                        r.take(a),
                    ) matches TalkView::Ask(q) && is_expiry(v[j], r[a - 1].at@ + span, q.deed)
                    &&& o is Ok ==> r[a].event is Done
                    &&& r[a].event is Done ==> a + 1 < r.len() && (renew_talk(
                        session,
                        ttl,
                        Ok(project),
                        here,
                        start,
                        r.take(a + 1),
                    ) matches TalkView::Ask(q) && is_renewal(
                        v[j],
                        r[a - 1].at@ + span,
                        span,
                        q.deed,
                    ))
                }
            ||| o is Err && unworkable(v, ttl, start, r)
            ||| o is Err && exists|k: int|
                0 < k < r.len() && (renew_talk(
                    session,
                    ttl,
                    Ok(project),
                    here,
                    start,
                    #[trigger] r.take(k),
                ) matches TalkView::Ask(q) && q.deed is RecordRenewal) && (unit_of(
                    r[k].event,
                ) matches Some(Err(_)))
        }),
{
    let f = implied(session, project, here, r, 1, Seq::empty());
    let n = f->Done_1;
    let t = f->Done_2;
    lemma_implied_holds(session, project, here, r, 1, Seq::empty(), 1);
    lemma_all_renewed(v, ttl, start, 0, r, n, t, j);
    let o = all_renewed(v, ttl, start, 0, r, n, t)->Done_0;
    assert forall|k: int| n <= k <= r.len() implies #[trigger] renew_talk(
        session,
        ttl,
        Ok(project),
        here,
        start,
        r.take(k),
    ) == all_renewed(v, ttl, start, 0, r.take(k), n, t) by {
        lemma_implied_holds(session, project, here, r, 1, Seq::empty(), k);
        assert(r.take(k)[0] == r[0]);
    }
    if exists|a: int, span: int| #[trigger]
        renewed_at(v, ttl, start, 0, r, n, t, v[j], a, span) && (o is Ok ==> r[a].event is Done) {
        let (a, span) = choose|a: int, span: int| #[trigger]
            renewed_at(v, ttl, start, 0, r, n, t, v[j], a, span) && (o is Ok ==> r[a].event is Done);
        assert(renew_talk(session, ttl, Ok(project), here, start, r.take(a)) == all_renewed(
            v,
            ttl,
            start,
            0,
            r.take(a),
            n,
            t,
        ));
        if r[a].event is Done {
            assert(renew_talk(session, ttl, Ok(project), here, start, r.take(a + 1))
                == all_renewed(v, ttl, start, 0, r.take(a + 1), n, t));
        }
    } else if o is Err && unworkable(v, ttl, start, r) {
    } else {
        let k = choose|k: int| #[trigger] unrecorded(v, ttl, start, 0, r, n, t, k);
        assert(renew_talk(session, ttl, Ok(project), here, start, r.take(k)) == all_renewed(
            v,
            ttl,
            start,
            0,
            r.take(k),
            n,
            t,
        ));
    }
}

// ---------------------------------------------------------------------------
// heartbeat
// ---------------------------------------------------------------------------

/// What a heartbeat may ask for, and after which wait: the record of its session,
/// again after each interval; that the machine in that record live for the
/// recorded span from the moment at which the record was read; and, once that is
/// done, that this same moment be recorded.
pub open spec fn of_a_beat(
    name: Seq<char>,
    interval: u64,
    r: Seq<Reply>,
    pause: u64,
    d: DeedView,
) -> bool {
    match d {
        Deed::Get(n) => n == name,
        Deed::SetExpiry(machine, at) => pause == 0 && exists|k: int|
            #[trigger] awaited(r, k, d) && k > 0 && (r[k - 1].event matches Event::Found(Some(x))
                && machine == x.machine.0@ && at == r[k - 1].at@ + x.ttl@),
        Deed::RecordExpiry(n, at) => pause == 0 && n == name && exists|k: int|
            #[trigger] awaited(r, k, d) && k > 1 && r[k - 1].event is Done && (r[k
                - 2].event matches Event::Found(Some(x)) && at == r[k - 2].at@ + x.ttl@),
        _ => false,
    }
}

#[verifier::rlimit(60)]
#[verifier::spinoff_prover]
proof fn lemma_beats(
    name: Seq<char>,
    interval: u64,
    start: SystemTime,
    r: Seq<Reply>,
    i: int,
    said: Said,
    pause: u64,
)
    requires
        0 <= i <= r.len(),
    ensures
        match beats(name, interval, start, r, i, said, pause) {
            TalkView::Ask(q) => of_a_beat(name, interval, r, q.pause, q.deed) && (q.deed is Get
                ==> q.pause == pause || q.pause == interval),
            TalkView::Done(o, n, _) => i < n <= r.len() && (o is Ok ==> r[n - 1].event
                == Event::Found(None) || r[n - 1].event is Gone),
        },
    decreases r.len() - i,
{
    if i < r.len() {
        match found_of(r[i].event) {
            Some(Ok(Some(x))) => {
                let at = r[i].at@ + x.ttl@;
                let set: DeedView = Deed::SetExpiry(x.machine.0@, at);
                let rec: DeedView = Deed::RecordExpiry(name, at);
                if i + 1 >= r.len() || fate_of(r[i + 1].event) is None {
                    assert(awaited(r, i + 1, set));
                } else {
                    match fate_of(r[i + 1].event)->0 {
                        Fate::Well => {
                            if i + 2 >= r.len() || unit_of(r[i + 2].event) is None {
                                assert(awaited(r, i + 2, rec));
                            } else {
                                let s = match unit_of(r[i + 2].event)->0 {
                                    Ok(_) => Seq::<(bool, Seq<char>)>::empty(),
                                    Err(e) => Seq::<(bool, Seq<char>)>::empty().push(
                                        (
                                            true,
                                            name + ": renewed, but could not record it: "@ + e,
                                        ),
                                    ),
                                };
                                lemma_beats(name, interval, start, r, i + 3, s, interval);
                            }
                        },
                        Fate::Failed(e) => {
                            lemma_beats(
                                name,
                                interval,
                                start,
                                r,
                                i + 2,
                                Seq::<(bool, Seq<char>)>::empty().push(
                                    (true, name + ": renewal failed: "@ + e),
                                ),
                                interval,
                            );
                        },
                        Fate::Gone(_) => {},
                    }
                }
            },
            Some(Err(e)) => {
                lemma_beats(
                    name,
                    interval,
                    start,
                    r,
                    i + 1,
                    Seq::<(bool, Seq<char>)>::empty().push(
                        (true, name + ": could not read the session store: "@ + e),
                    ),
                    interval,
                );
            },
            _ => {},
        }
    }
}

/// Whatever a heartbeat is told, it asks for nothing but its own session's
/// record, and for that session's machine to live for the recorded span from
/// then; what it records is what it set. It ends well only where the record or
/// the machine is gone.
pub proof fn law_what_a_heartbeat_asks_for(
    name: Seq<char>,
    interval: u64,
    start: SystemTime,
    r: Seq<Reply>,
)
    ensures
        match heartbeat_talk(name, interval, start, r) {
            TalkView::Ask(q) => q.deed is Provider || of_a_beat(
                name,
                interval,
                r,
                q.pause,
                q.deed,
            ) && (q.deed is Get ==> q.pause == 0 || q.pause == interval),
            TalkView::Done(o, n, _) => 0 < n <= r.len() && (o is Ok ==> r[n - 1].event
                == Event::Found(None) || r[n - 1].event is Gone),
        },
{
    if r.len() > 0 && unit_of(r[0].event) == Some(Ok::<(), Seq<char>>(())) {
        lemma_beats(name, interval, start, r, 1, Seq::empty(), 0);
    }
}

// ---------------------------------------------------------------------------
// down
// ---------------------------------------------------------------------------

/// What taking the results out of a session may ask for.
pub open spec fn of_a_gathering(
    cfg: Config,
    store: Seq<char>,
    tree: Seq<char>,
    x: Session,
    r: Seq<Reply>,
    d: DeedView,
) -> bool {
    match d {
        Deed::UploadRunner { session, address } => crate::verbs::laws::reaches(
            x,
            session,
            address,
        ),
        Deed::Run { session, address, command, .. } => crate::verbs::laws::reaches(
            x,
            session,
            address,
        ) && command == "/tmp/reaper-runner.sh"@ + " workspace --project "@ + x.project@,
        Deed::WriteScript { path, script } => stands_in(cfg, store, x, path, script),
        Deed::MakeDir(path) => path == joined(tree, "out"@),
        Deed::Execute { program, args } => program == cfg.session.rsync_command@ && pulls(
            cfg,
            store,
            tree,
            x,
            r,
            args,
        ),
        _ => false,
    }
}

/// What taking a session down may ask for: its results, where something was
/// pushed into it and its project is the one that is stood in; that its own
/// heartbeat be looked at, and stopped once it is known to be that; that its own
/// machine be destroyed; and, once the machine is no more, that its own record
/// and files be forgotten.
pub open spec fn of_a_down(site: Site, x: Session, r: Seq<Reply>, d: DeedView) -> bool {
    match d {
        Deed::IsHeartbeat(pid) => x.heartbeat_pid == Some(pid),
        Deed::StopProcess(pid) => x.heartbeat_pid == Some(pid) && exists|k: int|
            0 <= k < r.len() && (#[trigger] r[k].event) == Event::Verdict(Some(true)),
        Deed::Destroy(machine) => machine == x.machine.0@,
        Deed::Remove(name) => name == x.name@ && exists|k: int|
            #[trigger] awaited(r, k, d) && k > 0 && (r[k - 1].event is Done || r[k - 1].event
                is Gone),
        Deed::ForgetFiles(name) => name == x.name@,
        _ => x.synced_at is Some && (site.standing matches Some(p) && p.0@ == x.project@
            && of_a_gathering(*site.cfg, site.store@, p.1@, x, r, d)),
    }
}

#[verifier::rlimit(60)]
#[verifier::spinoff_prover]
proof fn lemma_gathered(
    cfg: Config,
    store: Seq<char>,
    x: Session,
    tree: Seq<char>,
    r: Seq<Reply>,
    i: int,
    said: Said,
    k: int,
)
    requires
        0 <= i <= k <= r.len(),
    ensures
        match gathered(cfg, store, x, tree, r, i, said) {
            TalkView::Ask(q) => of_a_gathering(cfg, store, tree, x, r, q.deed),
            TalkView::Done(o, n, _) => {
                &&& i <= n <= r.len()
                &&& n <= k ==> gathered(cfg, store, x, tree, r.take(k), i, said) == gathered(
                    cfg,
                    store,
                    x,
                    tree,
                    r,
                    i,
                    said,
                )
            },
        },
{
    lemma_opened(x, x.project@, r, i, said, k);
    lemma_script_path(store, x.name@);
    match opened(x, x.project@, r, i, said) {
        TalkView::Done(Ok(p), n, t) => {
            lemma_pulled(cfg, store, x, p.0, p.2, tree, r);
            assert(n < k ==> r.take(k)[n] == r[n]);
            assert(n + 1 < k ==> r.take(k)[n + 1] == r[n + 1]);
            assert(n + 2 < k ==> r.take(k)[n + 2] == r[n + 2]);
        },
        _ => {},
    }
}

proof fn lemma_collected(site: Site, x: Session, r: Seq<Reply>, i: int, said: Said, k: int)
    requires
        0 <= i <= k <= r.len(),
    ensures
        ({
            let f = collected(
                *site.cfg,
                site.store@,
                x,
                tree_of(site, x),
                site.start,
                r,
                i,
                said,
            );
            match f {
                TalkView::Ask(q) => of_a_down(site, x, r, q.deed),
                TalkView::Done(_, n, _) => i <= n <= r.len() && (n <= k ==> collected(
                    *site.cfg,
                    site.store@,
                    x,
                    tree_of(site, x),
                    site.start,
                    r.take(k),
                    i,
                    said,
                ) == f),
            }
        }),
{
    let tree = tree_of(site, x);
    if tree is Some {
        lemma_gathered(*site.cfg, site.store@, x, tree->0, r, i, said, k);
        match gathered(*site.cfg, site.store@, x, tree->0, r, i, said) {
            TalkView::Done(_, n, _) => {
                assert(0 < n <= k ==> r.take(k)[n - 1] == r[n - 1]);
            },
            _ => {},
        }
    }
}

proof fn lemma_silenced(site: Site, x: Session, r: Seq<Reply>, i: int, said: Said, k: int)
    requires
        0 <= i <= k <= r.len(),
    ensures
        match silenced(x, r, i, said) {
            TalkView::Ask(q) => of_a_down(site, x, r, q.deed),
            TalkView::Done(_, n, _) => i <= n <= r.len() && (n <= k ==> silenced(
                x,
                r.take(k),
                i,
                said,
            ) == silenced(x, r, i, said)),
        },
{
    assert(i < k ==> r.take(k)[i] == r[i]);
    assert(i + 1 < k ==> r.take(k)[i + 1] == r[i + 1]);
    if i < r.len() {
        assert(r[i].event == Event::Verdict(Some(true)) || r[i].event
            != Event::Verdict(Some(true)));
    }
}

#[verifier::rlimit(60)]
#[verifier::spinoff_prover]
proof fn lemma_destroyed(site: Site, x: Session, r: Seq<Reply>, i: int, said: Said, k: int)
    requires
        0 <= i <= k <= r.len(),
    ensures
        match destroyed(x, r, i, said) {
            TalkView::Ask(q) => of_a_down(site, x, r, q.deed),
            TalkView::Done(o, n, _) => {
                &&& i < n <= r.len()
                &&& n <= k ==> destroyed(x, r.take(k), i, said) == destroyed(x, r, i, said)
                &&& o == Ok::<bool, Seq<char>>(false) <==> r[i].event is Failed
                &&& o is Err ==> unit_of(r[i + 1].event) is Some && unit_of(r[i + 1].event)->0 is Err
                &&& destroyed(x, r.take(i), i, said) matches TalkView::Ask(q) && is_destruction(
                    x,
                    q.deed,
                )
                &&& !(r[i].event is Failed) ==> i + 1 < r.len() && (destroyed(
                    x,
                    r.take(i + 1),
                    i,
                    said,
                ) matches TalkView::Ask(q) && is_removal(x, q.deed))
            },
        },
{
    let rem: DeedView = Deed::Remove(x.name@);
    if i < r.len() && fate_of(r[i].event) is Some {
        if i + 1 >= r.len() || unit_of(r[i + 1].event) is None {
            assert(awaited(r, i + 1, rem));
        }
        assert(r.take(i + 1)[i] == r[i]);
    }
    assert(i < k ==> r.take(k)[i] == r[i]);
    assert(i + 1 < k ==> r.take(k)[i + 1] == r[i + 1]);
    assert(i + 2 < k ==> r.take(k)[i + 2] == r[i + 2]);
}

/// Where the machine's turn comes, taking a session down is destroying it.
proof fn lemma_down_parts(
    site: Site,
    x: Session,
    r: Seq<Reply>,
    i: int,
    said: Said,
    n: int,
    t: Said,
    m: int,
    s: Said,
    k: int,
)
    requires
        0 <= i <= n <= m <= k <= r.len(),
        collected(*site.cfg, site.store@, x, tree_of(site, x), site.start, r, i, said)
            == TalkView::Done((), n, t),
        silenced(x, r, n, t) == TalkView::Done((), m, s),
    ensures
        one_down(site, x, r.take(k), i, said) == destroyed(x, r.take(k), m, s),
{
    reveal(one_down);
    lemma_collected(site, x, r, i, said, k);
    lemma_silenced(site, x, r, n, t, k);
}

#[verifier::rlimit(60)]
#[verifier::spinoff_prover]
proof fn lemma_one_down(site: Site, x: Session, r: Seq<Reply>, i: int, said: Said, k: int)
    requires
        0 <= i <= k <= r.len(),
    ensures
        match one_down(site, x, r, i, said) {
            TalkView::Ask(q) => of_a_down(site, x, r, q.deed),
            TalkView::Done(o, n, _) => {
                &&& i <= n <= r.len()
                &&& n <= k ==> one_down(site, x, r.take(k), i, said) == one_down(
                    site,
                    x,
                    r,
                    i,
                    said,
                )
                &&& exists|a: int|
                    #[trigger] destroyed_at(site, x, r, i, said, a) && (o == Ok::<bool, Seq<char>>(
                        false,
                    ) <==> r[a].event is Failed) && (o is Err ==> unit_of(
                        r[a + 1].event,
                    ) matches Some(Err(_)))
            },
        },
{
    let all = r.len() as int;
    lemma_collected(site, x, r, i, said, i);
    let f = collected(*site.cfg, site.store@, x, tree_of(site, x), site.start, r, i, said);
    match f {
        TalkView::Ask(q) => {
            assert(one_down(site, x, r, i, said) == TalkView::<Result<bool, Seq<char>>>::Ask(q)) by {
                reveal(one_down);
            }
        },
        TalkView::Done(_, n, t) => {
            lemma_silenced(site, x, r, n, t, n);
            match silenced(x, r, n, t) {
                TalkView::Ask(q) => {
                    assert(one_down(site, x, r, i, said) == TalkView::<Result<bool, Seq<char>>>::Ask(
                        q,
                    )) by {
                        reveal(one_down);
                    }
                },
                TalkView::Done(_, m, s) => {
                    let k1 = if k >= m {
                        k
                    } else {
                        m
                    };
                    lemma_destroyed(site, x, r, m, s, k1);
                    assert(one_down(site, x, r, i, said) == destroyed(x, r, m, s)) by {
                        assert(r.take(all) =~= r);
                        lemma_down_parts(site, x, r, i, said, n, t, m, s, all);
                    }
                    lemma_down_parts(site, x, r, i, said, n, t, m, s, k1);
                    lemma_down_parts(site, x, r, i, said, n, t, m, s, m);
                    if m + 1 <= r.len() {
                        lemma_down_parts(site, x, r, i, said, n, t, m, s, m + 1);
                    }
                    if one_down(site, x, r, i, said) is Done {
                        assert(destroyed_at(site, x, r, i, said, m));
                    }
                },
            }
        },
    }
}

/// At some point a session's own machine is to be destroyed; and unless that
/// fails, its own record is to be forgotten next.
spec fn destroyed_at(site: Site, x: Session, r: Seq<Reply>, i: int, said: Said, a: int) -> bool {
    &&& i <= a < r.len()
    &&& one_down(site, x, r.take(a), i, said) matches TalkView::Ask(q) && is_destruction(x, q.deed)
    &&& !(r[a].event is Failed) ==> a + 1 < r.len() && (one_down(
        site,
        x,
        r.take(a + 1),
        i,
        said,
    ) matches TalkView::Ask(q) && is_removal(x, q.deed))
}

pub open spec fn is_destruction(x: Session, d: DeedView) -> bool {
    d matches Deed::Destroy(machine) && machine == x.machine.0@
}

pub open spec fn is_removal(x: Session, d: DeedView) -> bool {
    d matches Deed::Remove(name) && name == x.name@
}

spec fn gone_at(
    site: Site,
    v: Seq<Session>,
    failures: nat,
    r: Seq<Reply>,
    i: int,
    said: Said,
    x: Session,
    a: int,
) -> bool {
    &&& i <= a < r.len()
    &&& all_down(site, v, failures, r.take(a), i, said) matches TalkView::Ask(q) && is_destruction(
        x,
        q.deed,
    )
    &&& !(r[a].event is Failed) ==> a + 1 < r.len() && (all_down(
        site,
        v,
        failures,
        r.take(a + 1),
        i,
        said,
    ) matches TalkView::Ask(q) && is_removal(x, q.deed))
}

spec fn unforgotten(
    site: Site,
    v: Seq<Session>,
    failures: nat,
    r: Seq<Reply>,
    i: int,
    said: Said,
    k: int,
) -> bool {
    &&& i <= k < r.len()
    &&& all_down(site, v, failures, r.take(k), i, said) matches TalkView::Ask(q) && q.deed is Remove
    &&& unit_of(r[k].event) matches Some(Err(_))
}

#[verifier::rlimit(60)]
#[verifier::spinoff_prover]
proof fn lemma_all_down(
    site: Site,
    v: Seq<Session>,
    failures: nat,
    r: Seq<Reply>,
    i: int,
    said: Said,
    j: int,
)
    requires
        0 <= i <= r.len(),
    ensures
        match all_down(site, v, failures, r, i, said) {
            TalkView::Ask(q) => exists|l: int|
                0 <= l < v.len() && of_a_down(site, #[trigger] v[l], r, q.deed),
            TalkView::Done(o, n, _) => {
                &&& i <= n <= r.len()
                &&& o is Ok ==> failures == 0
                &&& 0 <= j < v.len() ==> {
                    ||| exists|a: int| #[trigger]
                        gone_at(site, v, failures, r, i, said, v[j], a) && (o is Ok ==> !(r[a].event
                            is Failed))
                    ||| o is Err && exists|k: int| #[trigger]
                        unforgotten(site, v, failures, r, i, said, k)
                }
            },
        },
    decreases v.len(),
{
    if v.len() > 0 {
        let x = v[0];
        let rest = v.skip(1);
        lemma_one_down(site, x, r, i, said, i);
        match one_down(site, x, r, i, said) {
            TalkView::Ask(q) => {
                assert(of_a_down(site, v[0], r, q.deed));
            },
            TalkView::Done(o, n, t) => {
                let a = choose|a: int|
                    #[trigger] destroyed_at(site, x, r, i, said, a) && (o == Ok::<bool, Seq<char>>(
                        false,
                    ) <==> r[a].event is Failed) && (o is Err ==> unit_of(
                        r[a + 1].event,
                    ) matches Some(Err(_)));
                match o {
                    Err(_) => {
                        assert(unforgotten(site, v, failures, r, i, said, a + 1));
                    },
                    Ok(gone) => {
                        let f = if gone {
                            failures
                        } else {
                            failures + 1
                        };
                        lemma_all_down(site, rest, f, r, n, t, j - 1);
                        assert forall|k: int| n <= k <= r.len() implies #[trigger] all_down(
                            site,
                            v,
                            failures,
                            r.take(k),
                            i,
                            said,
                        ) == all_down(site, rest, f, r.take(k), n, t) by {
                            lemma_one_down(site, x, r, i, said, k);
                        }
                        match all_down(site, rest, f, r, n, t) {
                            TalkView::Ask(q) => {
                                let l = choose|l: int|
                                    0 <= l < rest.len() && of_a_down(
                                        site,
                                        #[trigger] rest[l],
                                        r,
                                        q.deed,
                                    );
                                assert(v[l + 1] == rest[l]);
                            },
                            TalkView::Done(o2, _, _) => {
                                if j == 0 {
                                    assert(gone_at(site, v, failures, r, i, said, v[0], a));
                                } else if 0 < j < v.len() {
                                    assert(v[j] == rest[j - 1]);
                                    if exists|b: int| #[trigger]
                                        gone_at(site, rest, f, r, n, t, rest[j - 1], b) && (o2
                                            is Ok ==> !(r[b].event is Failed)) {
                                        let b = choose|b: int| #[trigger]
                                            gone_at(site, rest, f, r, n, t, rest[j - 1], b) && (o2
                                                is Ok ==> !(r[b].event is Failed));
                                        assert(all_down(site, v, failures, r.take(b), i, said)
                                            == all_down(site, rest, f, r.take(b), n, t));
                                        if !(r[b].event is Failed) {
                                            assert(all_down(
                                                site,
                                                v,
                                                failures,
                                                r.take(b + 1),
                                                i,
                                                said,
                                            ) == all_down(site, rest, f, r.take(b + 1), n, t));
                                        }
                                        assert(gone_at(site, v, failures, r, i, said, v[j], b));
                                    } else {
                                        let k = choose|k: int| #[trigger]
                                            unforgotten(site, rest, f, r, n, t, k);
                                        assert(all_down(site, v, failures, r.take(k), i, said)
                                            == all_down(site, rest, f, r.take(k), n, t));
                                        assert(unforgotten(site, v, failures, r, i, said, k));
                                    }
                                }
                            },
                        }
                    },
                }
            },
        }
    }
}

/// Whatever `down` asks for, it makes the provider ready or asks of the store
/// which sessions there are, or it is about one of the sessions that are meant:
/// no other session's machine is destroyed, and no other's record forgotten.
pub proof fn law_what_down_asks_for(
    site: Site,
    all: bool,
    session: Option<Seq<char>>,
    project: Result<Option<Seq<char>>, Seq<char>>,
    here: Here,
    r: Seq<Reply>,
)
    ensures
        down_talk(site, all, session, project, here, r) matches TalkView::Ask(q) ==> (
        match q.deed {
            Deed::Provider => true,
            Deed::Get(name) => !all && session == Some(name),
            Deed::List => all || session is None,
            d => exists|x: Session|
                heard(r, x) && (all || project is Ok && permitted(project->Ok_0, r, x))
                    && #[trigger] of_a_down(site, x, r, d),
        }),
{
    let none = Seq::<(bool, Seq<char>)>::empty();
    if r.len() > 0 && unit_of(r[0].event) == Some(Ok::<(), Seq<char>>(())) {
        if !all && project is Ok {
            lemma_implied_sessions(session, project->Ok_0, here, r, 1, none);
        }
        match targets(all, session, project, here, r, 1, none) {
            TalkView::Done(Ok(v), n, t) => {
                lemma_all_down(site, v, 0, r, n, t, 0);
                match all_down(site, v, 0, r, n, t) {
                    TalkView::Ask(q) => {
                        if v.len() > 0 {
                            let l = choose|l: int|
                                0 <= l < v.len() && of_a_down(site, #[trigger] v[l], r, q.deed);
                            if all {
                                assert(handed(r[1].event, v[l]));
                            }
                            assert(heard(r, v[l]));
                        }
                    },
                    _ => {},
                }
            },
            _ => {},
        }
    }
}

/// By the time `down` ends, each session's own machine was to be destroyed,
/// whatever came of the ones before it, and unless that failed its own record was
/// forgotten next; unless the store would not forget one. And where `down`
/// succeeds, no machine was left.
#[verifier::rlimit(60)]
#[verifier::spinoff_prover]
pub proof fn law_every_session_is_taken_down(
    site: Site,
    all: bool,
    session: Option<Seq<char>>,
    project: Result<Option<Seq<char>>, Seq<char>>,
    here: Here,
    r: Seq<Reply>,
    v: Seq<Session>,
    j: int,
)
    requires
        r.len() > 0,
        r[0].event is Done,
        targets(all, session, project, here, r, 1, Seq::empty()) matches TalkView::Done(
            Ok(them),
            _,
            _,
        ) && them == v,
        down_talk(site, all, session, project, here, r) is Done,
        0 <= j < v.len(),
    ensures
        ({
            let o = down_talk(site, all, session, project, here, r)->Done_0;
            ||| exists|a: int|
                {
                    &&& 0 < a < r.len()
                    &&& down_talk(
                        site,
                        all,
                        session,
                        project,
                        here,
                        #[trigger] r.take(a),
                    ) matches TalkView::Ask(q) && is_destruction(v[j], q.deed)
                    &&& o is Ok ==> !(r[a].event is Failed)
                    &&& !(r[a].event is Failed) ==> a + 1 < r.len() && (down_talk(
                        site,
                        all,
                        session,
                        project,
                        here,
                        r.take(a + 1),
                    ) matches TalkView::Ask(q) && is_removal(v[j], q.deed))
                }
            ||| o is Err && exists|k: int|
                0 < k < r.len() && (down_talk(
                    site,
                    all,
                    session,
                    project,
                    here,
                    #[trigger] r.take(k),
                ) matches TalkView::Ask(q) && q.deed is Remove) && (unit_of(
                    r[k].event,
                ) matches Some(Err(_)))
        }),
{
    let none = Seq::<(bool, Seq<char>)>::empty();
    let f = targets(all, session, project, here, r, 1, none);
    let n = f->Done_1;
    let t = f->Done_2;
    if !all {
        lemma_implied_holds(session, project->Ok_0, here, r, 1, none, 1);
    }
    lemma_all_down(site, v, 0, r, n, t, j);
    let o = all_down(site, v, 0, r, n, t)->Done_0;
    assert forall|k: int| n <= k <= r.len() implies #[trigger] down_talk(
        site,
        all,
        session,
        project,
        here,
        r.take(k),
    ) == all_down(site, v, 0, r.take(k), n, t) by {
        if !all {
            lemma_implied_holds(session, project->Ok_0, here, r, 1, none, k);
        }
        assert(r.take(k)[0] == r[0]);
        assert(1 < k ==> r.take(k)[1] == r[1]);
    }
    if exists|a: int| #[trigger]
        gone_at(site, v, 0, r, n, t, v[j], a) && (o is Ok ==> !(r[a].event is Failed)) {
        let a = choose|a: int| #[trigger]
            gone_at(site, v, 0, r, n, t, v[j], a) && (o is Ok ==> !(r[a].event is Failed));
        assert(down_talk(site, all, session, project, here, r.take(a)) == all_down(
            site,
            v,
            0,
            r.take(a),
            n,
            t,
        ));
        if !(r[a].event is Failed) {
            assert(down_talk(site, all, session, project, here, r.take(a + 1)) == all_down(
                site,
                v,
                0,
                r.take(a + 1),
                n,
                t,
            ));
        }
    } else {
        let k = choose|k: int| #[trigger] unforgotten(site, v, 0, r, n, t, k);
        assert(down_talk(site, all, session, project, here, r.take(k)) == all_down(
            site,
            v,
            0,
            r.take(k),
            n,
            t,
        ));
    }
}

// ---------------------------------------------------------------------------
// list
// ---------------------------------------------------------------------------

/// A column is filled up with blanks to its width, and nothing is ever cut off.
pub proof fn law_columns_line_up(s: Seq<char>, width: nat)
    ensures
        padded(s, width).len() == (if s.len() > width {
            s.len()
        } else {
            width
        }),
        padded(s, width).take(s.len() as int) == s,
        forall|k: int| s.len() <= k < width ==> padded(s, width)[k] == ' ',
{
    assert(padded(s, width).take(s.len() as int) =~= s);
}

/// The row of a session: its name and guest, how long ago it was made, how long
/// it has left, where it is, and whether its heartbeat is the one that was
/// recorded.
pub open spec fn is_row(x: Session, at: int, vouched_for: bool, text: Seq<char>) -> bool {
    let age = if at < x.created_at@ {
        0
    } else {
        (at - x.created_at@) / 1_000_000_000
    };
    let left = if x.expires_at@ < at {
        "EXPIRED"@
    } else {
        rough(((x.expires_at@ - at) / 1_000_000_000) as nat)
    };
    let place = if x.address is Some {
        crate::address::address_text(x.address->0)
    } else {
        "-"@
    };
    let beat = if x.heartbeat_pid is None {
        "none"@
    } else if vouched_for {
        dec(x.heartbeat_pid->0 as nat)
    } else {
        dec(x.heartbeat_pid->0 as nat) + " DEAD"@
    };
    text == padded(x.name@, 24) + " "@ + padded(x.guest@, 16) + " "@ + padded(rough(age as nat), 8)
        + " "@ + padded(left, 10) + " "@ + padded(place, 16) + " "@ + beat
}

/// A line is printed: before a deed, or at the end.
pub open spec fn utters(t: TalkView<Outcome>, line: (bool, Seq<char>)) -> bool {
    match t {
        TalkView::Ask(q) => q.say.contains(line),
        TalkView::Done(_, _, said) => said.contains(line),
    }
}

proof fn lemma_rows_utter(
    v: Seq<Session>,
    at: SystemTime,
    r: Seq<Reply>,
    i: int,
    said: Said,
    line: (bool, Seq<char>),
)
    requires
        0 <= i <= r.len(),
        said.contains(line),
    ensures
        rows(v, at, r, i, said) is Done ==> exists|k: int|
            i <= k <= r.len() && utters(rows(v, at, #[trigger] r.take(k), i, said), line),
    decreases v.len(),
{
    let n0 = r.len() as int;
    assert(r.take(n0) =~= r);
    if v.len() > 0 {
        if v[0].heartbeat_pid is Some {
            assert(utters(rows(v, at, r.take(i), i, said), line));
        } else {
            let l = (false, crate::verbs::sessions::session_row(v[0], at, false));
            let j = choose|j: int| 0 <= j < said.len() && said[j] == line;
            assert(said.push(l)[j] == line);
            lemma_rows_utter(v.skip(1), at, r, i, said.push(l), line);
            if rows(v, at, r, i, said) is Done {
                let k = choose|k: int|
                    i <= k <= r.len() && utters(
                        rows(v.skip(1), at, #[trigger] r.take(k), i, said.push(l)),
                        line,
                    );
                assert(rows(v, at, r.take(k), i, said) == rows(
                    v.skip(1),
                    at,
                    r.take(k),
                    i,
                    said.push(l),
                ));
            }
        }
    }
}

/// The reply that vouches for a session's heartbeat, if it has one.
pub open spec fn vouched_at(x: Session, r: Seq<Reply>, m: int, yes: bool) -> bool {
    if x.heartbeat_pid is None {
        !yes
    } else {
        0 <= m < r.len() && r[m].event is Verdict && yes == (r[m].event == Event::Verdict(
            Some(true),
        ))
    }
}

spec fn row_shown(
    v: Seq<Session>,
    at: SystemTime,
    r: Seq<Reply>,
    i: int,
    said: Said,
    x: Session,
    m: int,
    yes: bool,
    text: Seq<char>,
    k: int,
) -> bool {
    &&& i <= m <= k <= r.len()
    &&& vouched_at(x, r, m, yes)
    &&& x.heartbeat_pid matches Some(p) ==> (rows(v, at, r.take(m), i, said) matches TalkView::Ask(
        q,
    ) && (q.deed matches Deed::IsHeartbeat(pid) && pid == p))
    &&& is_row(x, at@, yes, text)
    &&& utters(rows(v, at, r.take(k), i, said), (false, text))
}

#[verifier::rlimit(60)]
#[verifier::spinoff_prover]
proof fn lemma_rows(
    v: Seq<Session>,
    at: SystemTime,
    r: Seq<Reply>,
    i: int,
    said: Said,
    j: int,
)
    requires
        0 <= i <= r.len(),
        0 <= j < v.len(),
    ensures
        rows(v, at, r, i, said) is Done ==> exists|m: int, yes: bool, text: Seq<char>, k: int|
            #[trigger]
            row_shown(v, at, r, i, said, v[j], m, yes, text, k),
    decreases v.len(),
{
    if rows(v, at, r, i, said) is Done {
        let x = v[0];
        let rest = v.skip(1);
        let f = vouched(x, r, i, said);
        let yes = f->Done_0;
        let n = f->Done_1;
        let text = crate::verbs::sessions::session_row(x, at, yes);
        let s = f->Done_2.push((false, text));
        assert(rows(v, at, r, i, said) == rows(rest, at, r, n, s));
        assert forall|k: int| n <= k <= r.len() implies rows(v, at, #[trigger] r.take(k), i, said)
            == rows(rest, at, r.take(k), n, s) by {
            assert(i < n ==> r.take(k)[i] == r[i]);
        }
        if j == 0 {
            assert(s[s.len() - 1] == (false, text));
            lemma_rows_utter(rest, at, r, n, s, (false, text));
            let k = choose|k: int|
                n <= k <= r.len() && utters(rows(rest, at, #[trigger] r.take(k), n, s), (
                    false,
                    text,
                ));
            assert(row_shown(v, at, r, i, said, v[0], i, yes, text, k));
        } else {
            assert(rest[j - 1] == v[j]);
            lemma_rows(rest, at, r, n, s, j - 1);
            let (m, yes, text, k) = choose|m: int, yes: bool, text: Seq<char>, k: int| #[trigger]
                row_shown(rest, at, r, n, s, rest[j - 1], m, yes, text, k);
            assert(rows(v, at, r.take(m), i, said) == rows(rest, at, r.take(m), n, s));
            assert(rows(v, at, r.take(k), i, said) == rows(rest, at, r.take(k), n, s));
            assert(row_shown(v, at, r, i, said, v[j], m, yes, text, k));
        }
    }
}

/// `list` shows every session that the store has, each in a row of its own that
/// says what is recorded of it, as of when the store was read; and a heartbeat is
/// shown as alive only where it was asked after and found to be the recorded one.
pub proof fn law_every_session_is_listed(start: SystemTime, r: Seq<Reply>, j: int)
    requires
        r.len() > 0,
        r[0].event is Sessions,
        0 <= j < r[0].event->Sessions_0@.len(),
        list_talk(start, r) is Done,
    ensures
        ({
            let x = r[0].event->Sessions_0@[j];
            exists|m: int, yes: bool, text: Seq<char>, k: int|
                #![trigger r.take(m), r.take(k), is_row(x, r[0].at@, yes, text)]
                {
                    &&& 0 < m <= k <= r.len()
                    &&& vouched_at(x, r, m, yes)
                    &&& x.heartbeat_pid matches Some(p) ==> (list_talk(
                        start,
                        r.take(m),
                    ) matches TalkView::Ask(q) && (q.deed matches Deed::IsHeartbeat(pid) && pid
                        == p))
                    &&& is_row(x, r[0].at@, yes, text)
                    &&& utters(list_talk(start, r.take(k)), (false, text))
                }
        }),
{
    let v = r[0].event->Sessions_0@;
    let head = Seq::<(bool, Seq<char>)>::empty().push(
        (
            false,
            crate::verbs::sessions::row(
                "SESSION"@,
                "GUEST"@,
                "AGE"@,
                "EXPIRES"@,
                "ADDRESS"@,
                "HEARTBEAT"@,
            ),
        ),
    );
    lemma_rows(v, r[0].at, r, 1, head, j);
    let (m, yes, text, k) = choose|m: int, yes: bool, text: Seq<char>, k: int| #[trigger]
        row_shown(v, r[0].at, r, 1, head, v[j], m, yes, text, k);
    assert(r.take(m)[0] == r[0]);
    assert(r.take(k)[0] == r[0]);
    assert(list_talk(start, r.take(m)) == rows(v, r[0].at, r.take(m), 1, head));
    assert(list_talk(start, r.take(k)) == rows(v, r[0].at, r.take(k), 1, head));
}

}
