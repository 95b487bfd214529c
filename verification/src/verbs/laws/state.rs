//! What `snapshot`, `reset` and `test` promise.
use vstd::prelude::*;
use vstd::string::*;

use crate::address::Address;
use crate::job::word_of;
use crate::manifest::Profile;
use crate::session::Session;
use crate::text::texts;
use crate::verbs::common::{implied, Here};
use crate::verbs::deeds::{
    reached, text_of, unit_of, Deed, DeedView, Event, Outcome, Reply, Said, TalkView,
};
use crate::verbs::execute::{executed, Verb};
use crate::verbs::laws::running::{
    acts_on, law_what_a_run_asks_for, lemma_executed_holds, profiled, run_asks,
};
use crate::verbs::laws::sync::{law_what_a_sync_asks_for, lemma_sync_holds, of_a_sync};
use crate::verbs::laws::{law_a_verb_acts_on_what_was_meant, lemma_implied_holds, reaches, theirs};
use crate::verbs::state::{
    all_rolled_back, all_snapshotted, has_word, points_there, reset_first, reset_talk,
    rolled_where_possible, sessions_reset, sessions_snapshotted, snapshot_talk, tested,
};
use crate::verbs::work::{delivered, sync_talk, Work};

verus! {

/// The runner is told to roll one dataset of a session back to a point.
pub open spec fn is_rollback(x: Session, dataset: Seq<char>, point: Seq<char>, d: DeedView) -> bool {
    d matches Deed::RunLive { session, address, command, .. } && reaches(x, session, address)
        && command == "/tmp/reaper-runner.sh"@ + " rollback --dataset "@ + dataset + " --name "@
        + word_of(point)
}

/// The runner is told to name a point in one dataset of a session.
pub open spec fn is_snapshot(x: Session, dataset: Seq<char>, point: Seq<char>, d: DeedView) -> bool {
    d matches Deed::Run { session, address, command, .. } && reaches(x, session, address)
        && command == "/tmp/reaper-runner.sh"@ + " snapshot --dataset "@ + dataset + " --name "@
        + word_of(point)
}

/// The runner is asked which points one dataset of a session has.
pub open spec fn is_listing(x: Session, dataset: Seq<char>, d: DeedView) -> bool {
    d matches Deed::Run { session, address, command, .. } && reaches(x, session, address)
        && command == "/tmp/reaper-runner.sh"@ + " snapshots --dataset "@ + dataset
}

pub open spec fn is_delivery(x: Session, d: DeedView) -> bool {
    d matches Deed::UploadRunner { session, address } && reaches(x, session, address)
}

/// The point that a reset goes to: the one that was named, or the pristine one.
pub open spec fn goal(to: Option<Seq<char>>) -> Seq<char> {
    if to is Some {
        to->0
    } else {
        "pristine"@
    }
}

/// The reply names the point.
pub open spec fn has_point(r: Seq<Reply>, k: int, point: Seq<char>) -> bool {
    0 <= k < r.len() && (r[k].event matches Event::Text(t) && has_word(t@, point))
}

proof fn lemma_delivered(x: Session, r: Seq<Reply>, i: int, said: Said, k: int)
    requires
        0 <= i <= k <= r.len(),
    ensures
        match delivered(x, r, i, said) {
            TalkView::Ask(q) => is_delivery(x, q.deed),
            TalkView::Done(o, n, _) => {
                &&& i <= n <= r.len()
                &&& n <= k ==> delivered(x, r.take(k), i, said) == delivered(x, r, i, said)
                &&& o matches Ok(a) ==> n == i + 1 && x.address == Some(a) && (delivered(
                    x,
                    r.take(i),
                    i,
                    said,
                ) matches TalkView::Ask(q) && is_delivery(x, q.deed))
            },
        },
{
    assert(i < k ==> r.take(k)[i] == r[i]);
}

proof fn lemma_rolled_back(
    x: Session,
    a: Address,
    datasets: Seq<Seq<char>>,
    name: Seq<char>,
    r: Seq<Reply>,
    i: int,
    said: Said,
    k: int,
    j: int,
)
    requires
        0 <= i <= k <= r.len(),
        x.address == Some(a),
    ensures
        match all_rolled_back(x, a, datasets, name, r, i, said) {
            TalkView::Ask(q) => exists|l: int|
                0 <= l < datasets.len() && is_rollback(x, #[trigger] datasets[l], name, q.deed),
            TalkView::Done(o, n, _) => {
                &&& i <= n <= r.len()
                &&& n <= k ==> all_rolled_back(x, a, datasets, name, r.take(k), i, said)
                    == all_rolled_back(x, a, datasets, name, r, i, said)
                &&& o is Ok ==> n == i + datasets.len()
                &&& o is Ok && 0 <= j < datasets.len() ==> (all_rolled_back(
                    x,
                    a,
                    datasets,
                    name,
                    r.take(i + j),
                    i,
                    said,
                ) matches TalkView::Ask(q) && is_rollback(x, datasets[j], name, q.deed))
            },
        },
    decreases datasets.len(),
{
    if datasets.len() > 0 {
        let rest = datasets.skip(1);
        assert(i < k ==> r.take(k)[i] == r[i]);
        let d = crate::verbs::state::rollback_deed(x, a, datasets[0], name);
        assert(is_rollback(x, datasets[0], name, d));
        if i < r.len() && unit_of(r[i].event) == Some(Ok::<(), Seq<char>>(())) {
            let l = if k > i {
                k
            } else {
                i + 1
            };
            lemma_rolled_back(x, a, rest, name, r, i + 1, Seq::empty(), l, j - 1);
            match all_rolled_back(x, a, rest, name, r, i + 1, Seq::empty()) {
                TalkView::Ask(q) => {
                    let m = choose|m: int|
                        0 <= m < rest.len() && is_rollback(x, #[trigger] rest[m], name, q.deed);
                    assert(datasets[m + 1] == rest[m]);
                },
                TalkView::Done(o, n, _) => {
                    if 0 < j < datasets.len() && o is Ok {
                        assert(rest[j - 1] == datasets[j]);
                        assert(r.take(i + j)[i] == r[i]);
                    }
                },
            }
        }
    }
}

proof fn lemma_snapshotted(
    x: Session,
    a: Address,
    datasets: Seq<Seq<char>>,
    name: Seq<char>,
    r: Seq<Reply>,
    i: int,
    said: Said,
    k: int,
    j: int,
)
    requires
        0 <= i <= k <= r.len(),
        x.address == Some(a),
    ensures
        match all_snapshotted(x, a, datasets, name, r, i, said) {
            TalkView::Ask(q) => exists|l: int|
                0 <= l < datasets.len() && is_snapshot(x, #[trigger] datasets[l], name, q.deed),
            TalkView::Done(o, n, _) => {
                &&& i <= n <= r.len()
                &&& n <= k ==> all_snapshotted(x, a, datasets, name, r.take(k), i, said)
                    == all_snapshotted(x, a, datasets, name, r, i, said)
                &&& o is Ok ==> n == i + datasets.len()
                &&& o is Ok && 0 <= j < datasets.len() ==> (all_snapshotted(
                    x,
                    a,
                    datasets,
                    name,
                    r.take(i + j),
                    i,
                    said,
                ) matches TalkView::Ask(q) && is_snapshot(x, datasets[j], name, q.deed))
            },
        },
    decreases datasets.len(),
{
    if datasets.len() > 0 {
        let rest = datasets.skip(1);
        assert(i < k ==> r.take(k)[i] == r[i]);
        let d = crate::verbs::state::snapshot_deed(x, a, datasets[0], name);
        assert(is_snapshot(x, datasets[0], name, d));
        if i < r.len() && (text_of(r[i].event) matches Some(Ok(_))) {
            let l = if k > i {
                k
            } else {
                i + 1
            };
            lemma_snapshotted(x, a, rest, name, r, i + 1, Seq::empty(), l, j - 1);
            match all_snapshotted(x, a, rest, name, r, i + 1, Seq::empty()) {
                TalkView::Ask(q) => {
                    let m = choose|m: int|
                        0 <= m < rest.len() && is_snapshot(x, #[trigger] rest[m], name, q.deed);
                    assert(datasets[m + 1] == rest[m]);
                },
                TalkView::Done(o, n, _) => {
                    if 0 < j < datasets.len() && o is Ok {
                        assert(rest[j - 1] == datasets[j]);
                        assert(r.take(i + j)[i] == r[i]);
                    }
                },
            }
        }
    }
}

/// Every dataset is asked for its points until one lacks the point; and a session
/// has the point where, and only where, every one of its datasets has it.
#[verifier::rlimit(60)]
#[verifier::spinoff_prover]
proof fn lemma_points(
    x: Session,
    a: Address,
    datasets: Seq<Seq<char>>,
    to: Option<Seq<char>>,
    r: Seq<Reply>,
    i: int,
    said: Said,
    k: int,
)
    requires
        0 <= i <= k <= r.len(),
        x.address == Some(a),
    ensures
        match points_there(x, a, datasets, to, r, i, said) {
            TalkView::Ask(q) => exists|l: int|
                0 <= l < datasets.len() && is_listing(x, #[trigger] datasets[l], q.deed),
            TalkView::Done(o, n, _) => {
                &&& i <= n <= r.len()
                &&& n <= k ==> points_there(x, a, datasets, to, r.take(k), i, said)
                    == points_there(x, a, datasets, to, r, i, said)
                &&& o == Ok::<bool, Seq<char>>(true) <==> (forall|l: int|
                    i <= l < i + datasets.len() ==> #[trigger] has_point(r, l, goal(to)))
                &&& o == Ok::<bool, Seq<char>>(true) ==> n == i + datasets.len()
                &&& o == Ok::<bool, Seq<char>>(false) ==> to is None
                &&& datasets.len() > 0 ==> n > i
            },
        },
    decreases datasets.len(),
{
    if datasets.len() > 0 {
        let rest = datasets.skip(1);
        assert(i < k ==> r.take(k)[i] == r[i]);
        let d = crate::verbs::state::points_deed(x, a, datasets[0]);
        assert(is_listing(x, datasets[0], d));
        assert(goal(to) == crate::verbs::state::target(to));
        if i < r.len() {
            match text_of(r[i].event) {
                Some(Ok(out)) => {
                    if has_word(out, goal(to)) {
                        assert(has_point(r, i, goal(to)));
                        let l = if k > i {
                            k
                        } else {
                            i + 1
                        };
                        lemma_points(x, a, rest, to, r, i + 1, Seq::empty(), l);
                        match points_there(x, a, rest, to, r, i + 1, Seq::empty()) {
                            TalkView::Ask(q) => {
                                let m = choose|m: int|
                                    0 <= m < rest.len() && is_listing(
                                        x,
                                        #[trigger] rest[m],
                                        q.deed,
                                    );
                                assert(datasets[m + 1] == rest[m]);
                            },
                            _ => {},
                        }
                    } else {
                        assert(!has_point(r, i, goal(to)));
                    }
                },
                _ => {
                    assert(!has_point(r, i, goal(to)));
                },
            }
        }
    }
}

/// What rolling a session back may ask for.
pub open spec fn of_a_reset(w: Work, x: Session, name: Seq<char>, d: DeedView) -> bool {
    ||| is_delivery(x, d)
    ||| exists|l: int|
        0 <= l < w.manifest.reset@.len() && is_rollback(
            x,
            (#[trigger] w.manifest.reset@[l])@,
            name,
            d,
        )
}

spec fn reset_at(
    w: Work,
    v: Seq<Session>,
    name: Seq<char>,
    r: Seq<Reply>,
    i: int,
    said: Said,
    x: Session,
    d: int,
    e: int,
) -> bool {
    &&& i <= e < r.len()
    &&& sessions_reset(w, v, name, r.take(e), i, said) matches TalkView::Ask(q) && is_rollback(
        x,
        w.manifest.reset@[d]@,
        name,
        q.deed,
    )
}

#[verifier::rlimit(60)]
#[verifier::spinoff_prover]
proof fn lemma_sessions_reset(
    w: Work,
    v: Seq<Session>,
    name: Seq<char>,
    r: Seq<Reply>,
    i: int,
    said: Said,
    k: int,
    j: int,
    d: int,
)
    requires
        0 <= i <= k <= r.len(),
    ensures
        match sessions_reset(w, v, name, r, i, said) {
            TalkView::Ask(q) => exists|l: int|
                0 <= l < v.len() && of_a_reset(w, #[trigger] v[l], name, q.deed),
            TalkView::Done(o, n, _) => {
                &&& i <= n <= r.len()
                &&& n <= k ==> sessions_reset(w, v, name, r.take(k), i, said) == sessions_reset(
                    w,
                    v,
                    name,
                    r,
                    i,
                    said,
                )
                &&& o is Ok && 0 <= j < v.len() && 0 <= d < w.manifest.reset@.len() ==> exists|
                    e: int,
                |
                    e < n && #[trigger] reset_at(w, v, name, r, i, said, v[j], d, e)
            },
        },
    decreases v.len(),
{
    if v.len() > 0 {
        let x = v[0];
        let rest = v.skip(1);
        let all = texts(w.manifest.reset@);
        lemma_delivered(x, r, i, said, k);
        match delivered(x, r, i, said) {
            TalkView::Ask(q) => {
                assert(of_a_reset(w, v[0], name, q.deed));
            },
            TalkView::Done(Ok(a), n, t) => {
                let k1 = if k >= n {
                    k
                } else {
                    n
                };
                lemma_rolled_back(x, a, all, name, r, n, t, k1, d);
                match all_rolled_back(x, a, all, name, r, n, t) {
                    TalkView::Ask(q) => {
                        let l = choose|l: int|
                            0 <= l < all.len() && is_rollback(x, #[trigger] all[l], name, q.deed);
                        assert(all[l] == w.manifest.reset@[l]@);
                        assert(of_a_reset(w, v[0], name, q.deed));
                    },
                    TalkView::Done(Ok(_), m, t) => {
                        let s = t.push((
                            false,
                            x.name@ + ": rolled back to "@ + name + " in "@ + crate::duration::rough(
                                crate::verbs::state::elapsed(
                                    reached(r, n, w.start),
                                    reached(r, m, w.start),
                                ),
                            ),
                        ));
                        let k2 = if k >= m {
                            k
                        } else {
                            m
                        };
                        lemma_sessions_reset(w, rest, name, r, m, s, k2, j - 1, d);
                        assert forall|e: int| m <= e <= r.len() implies #[trigger] sessions_reset(
                            w,
                            v,
                            name,
                            r.take(e),
                            i,
                            said,
                        ) == sessions_reset(w, rest, name, r.take(e), m, s) by {
                            lemma_delivered(x, r, i, said, e);
                            lemma_rolled_back(x, a, all, name, r, n, delivered(x, r, i, said)->Done_2, e, d);
                            assert(r.take(e)[n - 1] == r[n - 1]);
                            assert(r.take(e)[m - 1] == r[m - 1]);
                        }
                        match sessions_reset(w, rest, name, r, m, s) {
                            TalkView::Ask(q) => {
                                let l = choose|l: int|
                                    0 <= l < rest.len() && of_a_reset(
                                        w,
                                        #[trigger] rest[l],
                                        name,
                                        q.deed,
                                    );
                                assert(v[l + 1] == rest[l]);
                            },
                            TalkView::Done(o, last, _) => {
                                if o is Ok && 0 <= d < all.len() {
                                    if j == 0 {
                                        let e = n + d;
                                        lemma_delivered(x, r, i, said, e);
                                        assert(all[d] == w.manifest.reset@[d]@);
                                        assert(reset_at(w, v, name, r, i, said, v[0], d, e));
                                    } else if 0 < j < v.len() {
                                        assert(v[j] == rest[j - 1]);
                                        let e = choose|e: int|
                                            e < last && #[trigger] reset_at(
                                                w,
                                                rest,
                                                name,
                                                r,
                                                m,
                                                s,
                                                rest[j - 1],
                                                d,
                                                e,
                                            );
                                        assert(sessions_reset(w, v, name, r.take(e), i, said)
                                            == sessions_reset(w, rest, name, r.take(e), m, s));
                                        assert(reset_at(w, v, name, r, i, said, v[j], d, e));
                                    }
                                }
                            },
                        }
                    },
                    _ => {},
                }
            },
            _ => {},
        }
    }
}

/// What naming a point in a session may ask for.
pub open spec fn of_a_snapshot(w: Work, x: Session, name: Seq<char>, d: DeedView) -> bool {
    ||| is_delivery(x, d)
    ||| exists|l: int|
        0 <= l < w.manifest.reset@.len() && is_snapshot(
            x,
            (#[trigger] w.manifest.reset@[l])@,
            name,
            d,
        )
}

spec fn snapshot_at(
    w: Work,
    v: Seq<Session>,
    name: Seq<char>,
    r: Seq<Reply>,
    i: int,
    said: Said,
    x: Session,
    d: int,
    e: int,
) -> bool {
    &&& i <= e < r.len()
    &&& sessions_snapshotted(w, v, name, r.take(e), i, said) matches TalkView::Ask(q) && is_snapshot(
        x,
        w.manifest.reset@[d]@,
        name,
        q.deed,
    )
}

#[verifier::rlimit(60)]
#[verifier::spinoff_prover]
proof fn lemma_sessions_snapshotted(
    w: Work,
    v: Seq<Session>,
    name: Seq<char>,
    r: Seq<Reply>,
    i: int,
    said: Said,
    k: int,
    j: int,
    d: int,
)
    requires
        0 <= i <= k <= r.len(),
    ensures
        match sessions_snapshotted(w, v, name, r, i, said) {
            TalkView::Ask(q) => exists|l: int|
                0 <= l < v.len() && of_a_snapshot(w, #[trigger] v[l], name, q.deed),
            TalkView::Done(o, n, _) => {
                &&& i <= n <= r.len()
                &&& n <= k ==> sessions_snapshotted(w, v, name, r.take(k), i, said) == sessions_snapshotted(
                    w,
                    v,
                    name,
                    r,
                    i,
                    said,
                )
                &&& o is Ok && 0 <= j < v.len() && 0 <= d < w.manifest.reset@.len() ==> exists|
                    e: int,
                |
                    e < n && #[trigger] snapshot_at(w, v, name, r, i, said, v[j], d, e)
            },
        },
    decreases v.len(),
{
    if v.len() > 0 {
        let x = v[0];
        let rest = v.skip(1);
        let all = texts(w.manifest.reset@);
        lemma_delivered(x, r, i, said, k);
        match delivered(x, r, i, said) {
            TalkView::Ask(q) => {
                assert(of_a_snapshot(w, v[0], name, q.deed));
            },
            TalkView::Done(Ok(a), n, t) => {
                let k1 = if k >= n {
                    k
                } else {
                    n
                };
                lemma_snapshotted(x, a, all, name, r, n, t, k1, d);
                match all_snapshotted(x, a, all, name, r, n, t) {
                    TalkView::Ask(q) => {
                        let l = choose|l: int|
                            0 <= l < all.len() && is_snapshot(x, #[trigger] all[l], name, q.deed);
                        assert(all[l] == w.manifest.reset@[l]@);
                        assert(of_a_snapshot(w, v[0], name, q.deed));
                    },
                    TalkView::Done(Ok(_), m, t) => {
                        let s = t.push((
                            false,
                            x.name@ + ": "@ + crate::text::join(
                                texts(w.manifest.reset@),
                                ", "@,
                            ) + " snapshotted as "@ + name,
                        ));
                        let k2 = if k >= m {
                            k
                        } else {
                            m
                        };
                        lemma_sessions_snapshotted(w, rest, name, r, m, s, k2, j - 1, d);
                        assert forall|e: int| m <= e <= r.len() implies #[trigger] sessions_snapshotted(
                            w,
                            v,
                            name,
                            r.take(e),
                            i,
                            said,
                        ) == sessions_snapshotted(w, rest, name, r.take(e), m, s) by {
                            lemma_delivered(x, r, i, said, e);
                            lemma_snapshotted(x, a, all, name, r, n, delivered(x, r, i, said)->Done_2, e, d);
                            assert(r.take(e)[n - 1] == r[n - 1]);
                            assert(r.take(e)[m - 1] == r[m - 1]);
                        }
                        match sessions_snapshotted(w, rest, name, r, m, s) {
                            TalkView::Ask(q) => {
                                let l = choose|l: int|
                                    0 <= l < rest.len() && of_a_snapshot(
                                        w,
                                        #[trigger] rest[l],
                                        name,
                                        q.deed,
                                    );
                                assert(v[l + 1] == rest[l]);
                            },
                            TalkView::Done(o, last, _) => {
                                if o is Ok && 0 <= d < all.len() {
                                    if j == 0 {
                                        let e = n + d;
                                        lemma_delivered(x, r, i, said, e);
                                        assert(all[d] == w.manifest.reset@[d]@);
                                        assert(snapshot_at(w, v, name, r, i, said, v[0], d, e));
                                    } else if 0 < j < v.len() {
                                        assert(v[j] == rest[j - 1]);
                                        let e = choose|e: int|
                                            e < last && #[trigger] snapshot_at(
                                                w,
                                                rest,
                                                name,
                                                r,
                                                m,
                                                s,
                                                rest[j - 1],
                                                d,
                                                e,
                                            );
                                        assert(sessions_snapshotted(w, v, name, r.take(e), i, said)
                                            == sessions_snapshotted(w, rest, name, r.take(e), m, s));
                                        assert(snapshot_at(w, v, name, r, i, said, v[j], d, e));
                                    }
                                }
                            },
                        }
                    },
                    _ => {},
                }
            },
            _ => {},
        }
    }
}

/// A deed of a verb that acts on this project's state: it asks of the store which
/// sessions there are, or it is about one of this project's sessions.
pub open spec fn of_reset(
    w: Work,
    to: Option<Seq<char>>,
    session: Option<Seq<char>>,
    r: Seq<Reply>,
    d: DeedView,
) -> bool {
    match d {
        Deed::Get(name) => session == Some(name),
        Deed::List => session is None,
        _ => exists|x: Session|
            theirs(r, w.manifest.project@, x) && #[trigger] of_a_reset(w, x, goal(to), d),
    }
}

proof fn lemma_reset_talk(
    w: Work,
    to: Option<Seq<char>>,
    session: Option<Seq<char>>,
    r: Seq<Reply>,
    i: int,
    said: Said,
    k: int,
)
    requires
        0 <= i <= k <= r.len(),
    ensures
        match reset_talk(w, to, session, r, i, said) {
            TalkView::Ask(q) => of_reset(w, to, session, r, q.deed),
            TalkView::Done(o, n, _) => {
                &&& i <= n <= r.len()
                &&& n <= k ==> reset_talk(w, to, session, r.take(k), i, said) == reset_talk(
                    w,
                    to,
                    session,
                    r,
                    i,
                    said,
                )
            },
        },
{
    let p = w.manifest.project@;
    assert(goal(to) == crate::verbs::state::target(to));
    law_a_verb_acts_on_what_was_meant(session, p, Here::Absent, r, i, said);
    lemma_implied_holds(session, Some(p), Here::Absent, r, i, said, k);
    match implied(session, Some(p), Here::Absent, r, i, said) {
        TalkView::Done(Ok(v), n, t) => {
            let l = if k >= n {
                k
            } else {
                n
            };
            lemma_sessions_reset(w, v, goal(to), r, n, t, l, 0, 0);
            match sessions_reset(w, v, goal(to), r, n, t) {
                TalkView::Ask(q) => {
                    let m = choose|m: int|
                        0 <= m < v.len() && of_a_reset(w, #[trigger] v[m], goal(to), q.deed);
                    assert(theirs(r, p, v[m]));
                },
                _ => {},
            }
        },
        _ => {},
    }
}

/// Whatever `reset` asks for, it asks of the store which sessions there are, or
/// it delivers the runner to one of this project's sessions, or it rolls one of
/// the declared datasets of one back to the point that was meant.
pub proof fn law_what_a_reset_asks_for(
    w: Work,
    to: Option<Seq<char>>,
    session: Option<Seq<char>>,
    r: Seq<Reply>,
    i: int,
    said: Said,
)
    requires
        0 <= i <= r.len(),
    ensures
        reset_talk(w, to, session, r, i, said) matches TalkView::Ask(q) ==> of_reset(
            w,
            to,
            session,
            r,
            q.deed,
        ),
{
    lemma_reset_talk(w, to, session, r, i, said, i);
}

/// A `reset` that succeeds has asked every session to roll every declared dataset
/// back to the point that was meant.
pub proof fn law_a_reset_that_succeeds_missed_nothing(
    w: Work,
    to: Option<Seq<char>>,
    session: Option<Seq<char>>,
    r: Seq<Reply>,
    i: int,
    said: Said,
    v: Seq<Session>,
    j: int,
    d: int,
)
    requires
        0 <= i <= r.len(),
        acts_on(w, session, r, i, said, v),
        0 <= j < v.len(),
        0 <= d < w.manifest.reset@.len(),
        reset_talk(w, to, session, r, i, said) matches TalkView::Done(Ok(_), _, _),
    ensures
        exists|e: int|
            i < e < r.len() && (reset_talk(
                w,
                to,
                session,
                #[trigger] r.take(e),
                i,
                said,
            ) matches TalkView::Ask(q) && is_rollback(
                v[j],
                w.manifest.reset@[d]@,
                goal(to),
                q.deed,
            )),
{
    let p = w.manifest.project@;
    assert(goal(to) == crate::verbs::state::target(to));
    let f = implied(session, Some(p), Here::Absent, r, i, said);
    let n = f->Done_1;
    let t = f->Done_2;
    law_a_verb_acts_on_what_was_meant(session, p, Here::Absent, r, i, said);
    lemma_sessions_reset(w, v, goal(to), r, n, t, n, j, d);
    let last = sessions_reset(w, v, goal(to), r, n, t)->Done_1;
    let e = choose|e: int|
        e < last && #[trigger] reset_at(w, v, goal(to), r, n, t, v[j], d, e);
    lemma_implied_holds(session, Some(p), Here::Absent, r, i, said, e);
    assert(reset_talk(w, to, session, r.take(e), i, said) == sessions_reset(
        w,
        v,
        goal(to),
        r.take(e),
        n,
        t,
    ));
}

/// Whatever `snapshot` asks for, it asks of the store which sessions there are,
/// or it delivers the runner to one of this project's sessions, or it names the
/// point in one of the declared datasets of one.
pub proof fn law_what_a_snapshot_asks_for(
    w: Work,
    name: Seq<char>,
    session: Option<Seq<char>>,
    r: Seq<Reply>,
)
    ensures
        snapshot_talk(w, name, session, r) matches TalkView::Ask(q) ==> (match q.deed {
            Deed::Get(n) => session == Some(n),
            Deed::List => session is None,
            d => exists|x: Session|
                theirs(r, w.manifest.project@, x) && #[trigger] of_a_snapshot(w, x, name, d),
        }),
{
    let p = w.manifest.project@;
    law_a_verb_acts_on_what_was_meant(session, p, Here::Absent, r, 0, Seq::empty());
    match implied(session, Some(p), Here::Absent, r, 0, Seq::empty()) {
        TalkView::Done(Ok(v), n, t) => {
            lemma_sessions_snapshotted(w, v, name, r, n, t, n, 0, 0);
            match sessions_snapshotted(w, v, name, r, n, t) {
                TalkView::Ask(q) => {
                    let m = choose|m: int|
                        0 <= m < v.len() && of_a_snapshot(w, #[trigger] v[m], name, q.deed);
                    assert(theirs(r, p, v[m]));
                },
                _ => {},
            }
        },
        _ => {},
    }
}

/// A `snapshot` that succeeds has named the point in every declared dataset of
/// every session.
pub proof fn law_a_snapshot_that_succeeds_missed_nothing(
    w: Work,
    name: Seq<char>,
    session: Option<Seq<char>>,
    r: Seq<Reply>,
    v: Seq<Session>,
    j: int,
    d: int,
)
    requires
        acts_on(w, session, r, 0, Seq::empty(), v),
        0 <= j < v.len(),
        0 <= d < w.manifest.reset@.len(),
        snapshot_talk(w, name, session, r) matches TalkView::Done(Ok(_), _, _),
    ensures
        exists|e: int|
            0 < e < r.len() && (snapshot_talk(
                w,
                name,
                session,
                #[trigger] r.take(e),
            ) matches TalkView::Ask(q) && is_snapshot(v[j], w.manifest.reset@[d]@, name, q.deed)),
{
    let p = w.manifest.project@;
    let f = implied(session, Some(p), Here::Absent, r, 0, Seq::empty());
    let n = f->Done_1;
    let t = f->Done_2;
    law_a_verb_acts_on_what_was_meant(session, p, Here::Absent, r, 0, Seq::empty());
    lemma_sessions_snapshotted(w, v, name, r, n, t, n, j, d);
    let last = sessions_snapshotted(w, v, name, r, n, t)->Done_1;
    let e = choose|e: int| e < last && #[trigger] snapshot_at(w, v, name, r, n, t, v[j], d, e);
    lemma_implied_holds(session, Some(p), Here::Absent, r, 0, Seq::empty(), e);
    assert(snapshot_talk(w, name, session, r.take(e)) == sessions_snapshotted(
        w,
        v,
        name,
        r.take(e),
        n,
        t,
    ));
}

/// What returning a session to a point, where it has one, may ask for.
pub open spec fn of_a_return(
    w: Work,
    x: Session,
    to: Option<Seq<char>>,
    r: Seq<Reply>,
    d: DeedView,
) -> bool {
    ||| is_delivery(x, d)
    ||| exists|l: int|
        0 <= l < w.manifest.reset@.len() && is_listing(x, (#[trigger] w.manifest.reset@[l])@, d)
    ||| of_reset(w, to, Some(x.name@), r, d)
}

/// A session's turn: the runner is delivered to it and asked for its points; and
/// where every dataset has the point, the session is read anew and the dataset is
/// rolled back to it.
spec fn return_turn(
    w: Work,
    v: Seq<Session>,
    to: Option<Seq<char>>,
    r: Seq<Reply>,
    i: int,
    said: Said,
    x: Session,
    d: int,
    m: int,
    e: int,
) -> bool {
    let sets = w.manifest.reset@.len() as int;
    &&& i <= m < m + 1 < r.len()
    &&& rolled_where_possible(w, v, to, r.take(m), i, said) matches TalkView::Ask(q) && is_delivery(
        x,
        q.deed,
    )
    &&& rolled_where_possible(w, v, to, r.take(m + 1), i, said) matches TalkView::Ask(q)
        && is_listing(x, w.manifest.reset@[0]@, q.deed)
    &&& listed_all(r, m + 1, sets, goal(to)) ==> {
        &&& m + 1 + sets < e < r.len()
        &&& rolled_where_possible(
            w,
            v,
            to,
            r.take(m + 1 + sets),
            i,
            said,
        ) matches TalkView::Ask(q) && (q.deed matches Deed::Get(n) && n == x.name@)
        &&& r[m + 1 + sets].event matches Event::Found(Some(y)) && (rolled_where_possible(
            w,
            v,
            to,
            r.take(e),
            i,
            said,
        ) matches TalkView::Ask(q) && is_rollback(y, w.manifest.reset@[d]@, goal(to), q.deed))
    }
}

pub open spec fn listed_all(r: Seq<Reply>, from: int, count: int, point: Seq<char>) -> bool {
    forall|l: int| from <= l < from + count ==> #[trigger] has_point(r, l, point)
}

/// One session's part of the loop.
#[verifier::opaque]
spec fn one_returned(
    w: Work,
    x: Session,
    to: Option<Seq<char>>,
    r: Seq<Reply>,
    i: int,
    said: Said,
) -> TalkView<Outcome> {
    match delivered(x, r, i, said) {
        TalkView::Ask(q) => TalkView::Ask(q),
        TalkView::Done(Err(e), n, t) => TalkView::Done(Err(e), n, t),
        TalkView::Done(Ok(a), n, t) => match points_there(
            x,
            a,
            texts(w.manifest.reset@),
            to,
            r,
            n,
            t,
        ) {
            TalkView::Ask(q) => TalkView::Ask(q),
            TalkView::Done(Err(e), n, t) => TalkView::Done(Err(e), n, t),
            TalkView::Done(Ok(false), n, t) => TalkView::Done(Ok(()), n, t),
            TalkView::Done(Ok(true), n, t) => reset_talk(
                w,
                to,
                Some(x.name@),
                r,
                n,
                t.push((false, x.name@ + ": reset to "@ + goal(to))),
            ),
        },
    }
}

spec fn one_turn(
    w: Work,
    to: Option<Seq<char>>,
    r: Seq<Reply>,
    said: Said,
    x: Session,
    d: int,
    m: int,
    e: int,
) -> bool {
    let sets = w.manifest.reset@.len() as int;
    &&& 0 <= m < m + 1 < r.len()
    &&& one_returned(w, x, to, r.take(m), m, said) matches TalkView::Ask(q) && is_delivery(
        x,
        q.deed,
    )
    &&& one_returned(w, x, to, r.take(m + 1), m, said) matches TalkView::Ask(q) && is_listing(
        x,
        w.manifest.reset@[0]@,
        q.deed,
    )
    &&& listed_all(r, m + 1, sets, goal(to)) ==> {
        &&& m + 1 + sets < e < r.len()
        &&& one_returned(w, x, to, r.take(m + 1 + sets), m, said) matches TalkView::Ask(q) && (
        q.deed matches Deed::Get(n) && n == x.name@)
        &&& r[m + 1 + sets].event matches Event::Found(Some(y)) && (one_returned(
            w,
            x,
            to,
            r.take(e),
            m,
            said,
        ) matches TalkView::Ask(q) && is_rollback(y, w.manifest.reset@[d]@, goal(to), q.deed))
    }
}

proof fn lemma_returned_unfold(
    w: Work,
    v: Seq<Session>,
    to: Option<Seq<char>>,
    r: Seq<Reply>,
    i: int,
    said: Said,
)
    requires
        v.len() > 0,
    ensures
        rolled_where_possible(w, v, to, r, i, said) == (match one_returned(
            w,
            v[0],
            to,
            r,
            i,
            said,
        ) {
            TalkView::Ask(q) => TalkView::<Outcome>::Ask(q),
            TalkView::Done(Err(e), n, t) => TalkView::Done(Err(e), n, t),
            TalkView::Done(Ok(_), n, t) => rolled_where_possible(w, v.skip(1), to, r, n, t),
        }),
{
    reveal(one_returned);
    assert(goal(to) == crate::verbs::state::target(to));
}

#[verifier::rlimit(60)]
#[verifier::spinoff_prover]
proof fn lemma_one_returned(
    w: Work,
    x: Session,
    to: Option<Seq<char>>,
    r: Seq<Reply>,
    i: int,
    said: Said,
    k: int,
    d: int,
)
    requires
        0 <= i <= k <= r.len(),
        0 <= d < w.manifest.reset@.len(),
    ensures
        match one_returned(w, x, to, r, i, said) {
            TalkView::Ask(q) => of_a_return(w, x, to, r, q.deed),
            TalkView::Done(o, n, _) => {
                &&& i <= n <= r.len()
                &&& n <= k ==> one_returned(w, x, to, r.take(k), i, said) == one_returned(
                    w,
                    x,
                    to,
                    r,
                    i,
                    said,
                )
                &&& o is Ok ==> exists|e: int| #[trigger] one_turn(w, to, r, said, x, d, i, e)
            },
        },
{
    reveal(one_returned);
    let all = texts(w.manifest.reset@);
    let sets = all.len() as int;
    lemma_delivered(x, r, i, said, k);
    match delivered(x, r, i, said) {
        TalkView::Done(Ok(a), n, t) => {
            let k1 = if k >= n {
                k
            } else {
                n
            };
            lemma_points(x, a, all, to, r, n, t, k1);
            match points_there(x, a, all, to, r, n, t) {
                TalkView::Ask(q) => {
                    let l = choose|l: int|
                        0 <= l < all.len() && is_listing(x, #[trigger] all[l], q.deed);
                    assert(all[l] == w.manifest.reset@[l]@);
                },
                TalkView::Done(Ok(yes), m, t2) => {
                    assert(all[0] == w.manifest.reset@[0]@);
                    lemma_delivered(x, r, i, said, n);
                    assert(is_listing(
                        x,
                        all[0],
                        crate::verbs::state::points_deed(x, a, all[0]),
                    ));
                    assert(one_returned(w, x, to, r.take(n), i, said) is Ask);
                    if !yes {
                        assert(!listed_all(r, n, sets, goal(to)));
                        assert(one_turn(w, to, r, said, x, d, i, n));
                    } else {
                        let s = t2.push((false, x.name@ + ": reset to "@ + goal(to)));
                        let name = Some(x.name@);
                        let k2 = if k >= m {
                            k
                        } else {
                            m
                        };
                        lemma_reset_talk(w, to, name, r, m, s, k2);
                        match reset_talk(w, to, name, r, m, s) {
                            TalkView::Done(Ok(_), last, _) => {
                                let p = w.manifest.project@;
                                law_a_verb_acts_on_what_was_meant(name, p, Here::Absent, r, m, s);
                                let y = r[m].event->Found_0->0;
                                let v: Seq<Session> = implied(
                                    name,
                                    Some(p),
                                    Here::Absent,
                                    r,
                                    m,
                                    s,
                                )->Done_0->Ok_0;
                                law_a_reset_that_succeeds_missed_nothing(
                                    w,
                                    to,
                                    name,
                                    r,
                                    m,
                                    s,
                                    v,
                                    0,
                                    d,
                                );
                                let e = choose|e: int|
                                    m < e < r.len() && (reset_talk(
                                        w,
                                        to,
                                        name,
                                        #[trigger] r.take(e),
                                        m,
                                        s,
                                    ) matches TalkView::Ask(q) && is_rollback(
                                        v[0],
                                        w.manifest.reset@[d]@,
                                        goal(to),
                                        q.deed,
                                    ));
                                lemma_delivered(x, r, i, said, m);
                                lemma_points(x, a, all, to, r, n, t, m);
                                lemma_delivered(x, r, i, said, e);
                                lemma_points(x, a, all, to, r, n, t, e);
                                assert(one_turn(w, to, r, said, x, d, i, e));
                            },
                            _ => {},
                        }
                    }
                },
                _ => {},
            }
        },
        _ => {},
    }
}

#[verifier::rlimit(60)]
#[verifier::spinoff_prover]
proof fn lemma_rolled_where_possible(
    w: Work,
    v: Seq<Session>,
    to: Option<Seq<char>>,
    r: Seq<Reply>,
    i: int,
    said: Said,
    k: int,
    j: int,
    d: int,
)
    requires
        0 <= i <= k <= r.len(),
        0 <= d < w.manifest.reset@.len(),
    ensures
        match rolled_where_possible(w, v, to, r, i, said) {
            TalkView::Ask(q) => exists|l: int|
                0 <= l < v.len() && of_a_return(w, #[trigger] v[l], to, r, q.deed),
            TalkView::Done(o, n, _) => {
                &&& i <= n <= r.len()
                &&& n <= k ==> rolled_where_possible(w, v, to, r.take(k), i, said)
                    == rolled_where_possible(w, v, to, r, i, said)
                &&& o is Ok && 0 <= j < v.len() ==> exists|m: int, e: int| #[trigger]
                    return_turn(w, v, to, r, i, said, v[j], d, m, e)
            },
        },
    decreases v.len(),
{
    if v.len() > 0 {
        let x = v[0];
        let rest = v.skip(1);
        lemma_returned_unfold(w, v, to, r, i, said);
        lemma_returned_unfold(w, v, to, r.take(k), i, said);
        lemma_one_returned(w, x, to, r, i, said, k, d);
        match one_returned(w, x, to, r, i, said) {
            TalkView::Ask(q) => {
                assert(of_a_return(w, v[0], to, r, q.deed));
            },
            TalkView::Done(Ok(_), n, s) => {
                let k1 = if k >= n {
                    k
                } else {
                    n
                };
                lemma_rolled_where_possible(w, rest, to, r, n, s, k1, j - 1, d);
                match rolled_where_possible(w, rest, to, r, n, s) {
                    TalkView::Ask(q) => {
                        let l = choose|l: int|
                            0 <= l < rest.len() && of_a_return(
                                w,
                                #[trigger] rest[l],
                                to,
                                r,
                                q.deed,
                            );
                        assert(v[l + 1] == rest[l]);
                    },
                    TalkView::Done(o, last, _) => {
                        let sets = w.manifest.reset@.len() as int;
                        if o is Ok && j == 0 {
                            let e = choose|e: int| #[trigger]
                                one_turn(w, to, r, said, x, d, i, e);
                            lemma_returned_unfold(w, v, to, r.take(i), i, said);
                            lemma_returned_unfold(w, v, to, r.take(i + 1), i, said);
                            lemma_returned_unfold(w, v, to, r.take(i + 1 + sets), i, said);
                            lemma_returned_unfold(w, v, to, r.take(e), i, said);
                            assert(return_turn(w, v, to, r, i, said, v[0], d, i, e));
                        } else if o is Ok && 0 < j < v.len() {
                            assert(v[j] == rest[j - 1]);
                            let (m, e) = choose|m: int, e: int| #[trigger]
                                return_turn(w, rest, to, r, n, s, rest[j - 1], d, m, e);
                            assert forall|l: int| n <= l <= r.len() implies #[trigger]
                                rolled_where_possible(w, v, to, r.take(l), i, said)
                                == rolled_where_possible(w, rest, to, r.take(l), n, s) by {
                                lemma_returned_unfold(w, v, to, r.take(l), i, said);
                                lemma_one_returned(w, x, to, r, i, said, l, d);
                            }
                            assert(rolled_where_possible(w, v, to, r.take(m), i, said)
                                == rolled_where_possible(w, rest, to, r.take(m), n, s));
                            assert(rolled_where_possible(w, v, to, r.take(m + 1), i, said)
                                == rolled_where_possible(w, rest, to, r.take(m + 1), n, s));
                            if listed_all(r, m + 1, sets, goal(to)) {
                                assert(rolled_where_possible(
                                    w,
                                    v,
                                    to,
                                    r.take(m + 1 + sets),
                                    i,
                                    said,
                                ) == rolled_where_possible(
                                    w,
                                    rest,
                                    to,
                                    r.take(m + 1 + sets),
                                    n,
                                    s,
                                ));
                                assert(rolled_where_possible(w, v, to, r.take(e), i, said)
                                    == rolled_where_possible(w, rest, to, r.take(e), n, s));
                            }
                            assert(return_turn(w, v, to, r, i, said, v[j], d, m, e));
                        }
                    },
                }
            },
            _ => {},
        }
    }
}

/// Whatever resetting before a run asks for, it asks of the store which sessions
/// there are, or it is about one of this project's sessions: the runner is
/// delivered to it, or asked for the points of a declared dataset; or it is
/// rolled back as `reset` would do it.
pub proof fn law_what_returning_asks_for(
    w: Work,
    to: Option<Seq<char>>,
    session: Option<Seq<char>>,
    r: Seq<Reply>,
    i: int,
    said: Said,
)
    requires
        0 <= i <= r.len(),
    ensures
        reset_first(w, to, session, r, i, said) matches TalkView::Ask(q) ==> {
            ||| q.deed matches Deed::Get(name) && session == Some(name)
            ||| q.deed is List && session is None
            ||| exists|x: Session|
                theirs(r, w.manifest.project@, x) && #[trigger] of_a_return(w, x, to, r, q.deed)
        },
        reset_first(w, to, session, r, i, said) matches TalkView::Done(_, n, _) ==> i <= n
            <= r.len(),
{
    if w.manifest.reset@.len() > 0 {
        let p = w.manifest.project@;
        law_a_verb_acts_on_what_was_meant(session, p, Here::Absent, r, i, said);
        match implied(session, Some(p), Here::Absent, r, i, said) {
            TalkView::Done(Ok(v), n, t) => {
                lemma_rolled_where_possible(w, v, to, r, n, t, n, 0, 0);
                match rolled_where_possible(w, v, to, r, n, t) {
                    TalkView::Ask(q) => {
                        let l = choose|l: int|
                            0 <= l < v.len() && of_a_return(w, #[trigger] v[l], to, r, q.deed);
                        assert(theirs(r, p, v[l]));
                    },
                    _ => {},
                }
            },
            _ => {},
        }
    }
}

/// By the time the run may start, every session has had its turn, whether or not
/// sessions before it had nothing to return to: its runner was asked for the
/// points of its datasets, and where each of them has the point, the session was
/// asked to roll each of them back to it.
pub proof fn law_a_skipped_session_cancels_no_other(
    w: Work,
    to: Option<Seq<char>>,
    session: Option<Seq<char>>,
    r: Seq<Reply>,
    i: int,
    said: Said,
    v: Seq<Session>,
    j: int,
    d: int,
)
    requires
        0 <= i <= r.len(),
        acts_on(w, session, r, i, said, v),
        0 <= j < v.len(),
        0 <= d < w.manifest.reset@.len(),
        reset_first(w, to, session, r, i, said) matches TalkView::Done(Ok(_), _, _),
    ensures
        exists|m: int, e: int|
            #![trigger r.take(m), r.take(e)]
            {
                let sets = w.manifest.reset@.len() as int;
                &&& i < m < m + 1 < r.len()
                &&& reset_first(w, to, session, r.take(m), i, said) matches TalkView::Ask(q)
                    && is_delivery(v[j], q.deed)
                &&& reset_first(w, to, session, r.take(m + 1), i, said) matches TalkView::Ask(q)
                    && is_listing(v[j], w.manifest.reset@[0]@, q.deed)
                &&& (forall|l: int|
                    m + 1 <= l < m + 1 + sets ==> #[trigger] has_point(r, l, goal(to))) ==> {
                    &&& m + 1 + sets < e < r.len()
                    &&& reset_first(
                        w,
                        to,
                        session,
                        r.take(m + 1 + sets),
                        i,
                        said,
                    ) matches TalkView::Ask(q) && (q.deed matches Deed::Get(n) && n == v[j].name@)
                    &&& r[m + 1 + sets].event matches Event::Found(Some(y)) && (reset_first(
                        w,
                        to,
                        session,
                        r.take(e),
                        i,
                        said,
                    ) matches TalkView::Ask(q) && is_rollback(
                        y,
                        w.manifest.reset@[d]@,
                        goal(to),
                        q.deed,
                    ))
                }
            },
{
    let p = w.manifest.project@;
    let sets = w.manifest.reset@.len() as int;
    let f = implied(session, Some(p), Here::Absent, r, i, said);
    let n = f->Done_1;
    let t = f->Done_2;
    law_a_verb_acts_on_what_was_meant(session, p, Here::Absent, r, i, said);
    lemma_rolled_where_possible(w, v, to, r, n, t, n, j, d);
    let (m, e) = choose|m: int, e: int| #[trigger] return_turn(w, v, to, r, n, t, v[j], d, m, e);
    assert forall|l: int| n <= l <= r.len() implies #[trigger] reset_first(
        w,
        to,
        session,
        r.take(l),
        i,
        said,
    ) == rolled_where_possible(w, v, to, r.take(l), n, t) by {
        lemma_implied_holds(session, Some(p), Here::Absent, r, i, said, l);
    }
    assert(reset_first(w, to, session, r.take(m), i, said) == rolled_where_possible(
        w,
        v,
        to,
        r.take(m),
        n,
        t,
    ));
    assert(reset_first(w, to, session, r.take(m + 1), i, said) == rolled_where_possible(
        w,
        v,
        to,
        r.take(m + 1),
        n,
        t,
    ));
    if listed_all(r, m + 1, sets, goal(to)) {
        assert(reset_first(w, to, session, r.take(m + 1 + sets), i, said) == rolled_where_possible(
            w,
            v,
            to,
            r.take(m + 1 + sets),
            n,
            t,
        ));
        assert(reset_first(w, to, session, r.take(e), i, said) == rolled_where_possible(
            w,
            v,
            to,
            r.take(e),
            n,
            t,
        ));
    }
    assert(r.take(e).len() >= 0);
}

/// Nothing that any guest of the manifest builds.
pub open spec fn none_builds(w: Work) -> bool {
    forall|j: int| 0 <= j < w.manifest.guests@.len() ==> (#[trigger] w.manifest.guests@[j]).build
        is None
}

/// The steps of a loop: from its third reply on it is a sync; from reply `b` on,
/// where anything builds, it is a build; from `c` on it is the reset; and from `e`
/// on the run. What a step asks for is what the loop asks for, and each step but
/// the last came to a good end before the next began.
pub open spec fn in_steps(
    w: Work,
    to: Option<Seq<char>>,
    session: Option<Seq<char>>,
    profile: Option<Seq<char>>,
    r: Seq<Reply>,
    s: Said,
    b: int,
    sb: Said,
    c: int,
    sc: Said,
    e: int,
    se: Said,
) -> bool {
    &&& 2 <= b <= c <= e <= r.len()
    &&& tested(w, to, session, profile, r.take(1)) matches TalkView::Ask(q) && (
    q.deed matches Deed::ClearResults(tree) && tree == w.tree@)
    &&& sync_talk(w, session, r, 2, s) matches TalkView::Done(Ok(_), n, _) && n == b
    &&& forall|k: int|
        2 <= k <= r.len() ==> (sync_talk(
            w,
            session,
            #[trigger] r.take(k),
            2,
            s,
        ) matches TalkView::Ask(q) ==> tested(w, to, session, profile, r.take(k))
            == TalkView::<Outcome>::Ask(q))
    &&& if none_builds(w) {
        c == b
    } else {
        &&& executed(w, Verb::Build, session, profile, r, b, sb) matches TalkView::Done(
            Ok(_),
            n,
            _,
        ) && n == c
        &&& forall|k: int|
            b <= k <= r.len() ==> (executed(
                w,
                Verb::Build,
                session,
                profile,
                #[trigger] r.take(k),
                b,
                sb,
            ) matches TalkView::Ask(q) ==> tested(w, to, session, profile, r.take(k))
                == TalkView::<Outcome>::Ask(q))
    }
    &&& reset_first(w, to, session, r, c, sc) matches TalkView::Done(Ok(_), n, _) && n == e
    &&& forall|k: int|
        c <= k <= r.len() ==> (reset_first(
            w,
            to,
            session,
            #[trigger] r.take(k),
            c,
            sc,
        ) matches TalkView::Ask(q) ==> tested(w, to, session, profile, r.take(k))
            == TalkView::<Outcome>::Ask(q))
    &&& forall|k: int|
        e <= k <= r.len() ==> tested(w, to, session, profile, #[trigger] r.take(k)) == executed(
            w,
            Verb::Run,
            session,
            profile,
            r.take(k),
            e,
            se,
        )
}

proof fn lemma_reset_first_holds(
    w: Work,
    to: Option<Seq<char>>,
    session: Option<Seq<char>>,
    r: Seq<Reply>,
    i: int,
    said: Said,
    k: int,
)
    requires
        0 <= i <= k <= r.len(),
    ensures
        reset_first(w, to, session, r, i, said) matches TalkView::Done(_, n, _) ==> i <= n
            <= r.len() && (n <= k ==> reset_first(w, to, session, r.take(k), i, said)
            == reset_first(w, to, session, r, i, said)),
{
    if w.manifest.reset@.len() > 0 {
        let p = w.manifest.project@;
        lemma_implied_holds(session, Some(p), Here::Absent, r, i, said, k);
        match implied(session, Some(p), Here::Absent, r, i, said) {
            TalkView::Done(Ok(v), n, t) => {
                let l = if k >= n {
                    k
                } else {
                    n
                };
                lemma_rolled_where_possible(w, v, to, r, n, t, l, 0, 0);
            },
            _ => {},
        }
    }
}

/// A run starts only after everything before it was done: a `test` that asks for
/// the run of anything, or that succeeds, has known its sessions, emptied the
/// results directory of the tree, and then brought to a good end, in this order,
/// the sync, the build where anything builds, and the reset.
#[verifier::rlimit(60)]
#[verifier::spinoff_prover]
pub proof fn law_a_test_is_sync_build_reset_run(
    w: Work,
    to: Option<Seq<char>>,
    session: Option<Seq<char>>,
    profile: Option<Seq<char>>,
    r: Seq<Reply>,
)
    requires
        match tested(w, to, session, profile, r) {
            TalkView::Ask(q) => q.deed matches Deed::RunCollecting { what, .. } && what == "run"@,
            TalkView::Done(o, _, _) => o is Ok,
        },
    ensures
        exists|s: Said, b: int, sb: Said, c: int, sc: Said, e: int, se: Said| #[trigger]
            in_steps(w, to, session, profile, r, s, b, sb, c, sc, e, se),
{
    let p = w.manifest.project@;
    let none = Seq::<(bool, Seq<char>)>::empty();
    assert(none_builds(w) <==> crate::verbs::execute::builds_nothing(*w.manifest));
    law_a_verb_acts_on_what_was_meant(session, p, Here::Absent, r, 0, none);
    lemma_implied_holds(session, Some(p), Here::Absent, r, 0, none, r.len() as int);
    let f = implied(session, Some(p), Here::Absent, r, 0, none);
    assert(f is Done);
    assert(f->Done_1 == 1);
    let cleared = crate::verbs::deeds::count_of(r[1].event)->0;
    let s = crate::verbs::state::clearing_words(none, *w.manifest, cleared).push(
        (false, p + ": sync"@),
    );
    lemma_implied_holds(session, Some(p), Here::Absent, r, 0, none, 1);
    law_what_a_sync_asks_for(w, session, r, 2, s);
    lemma_sync_holds(w, session, r, 2, s, r.len() as int);
    let b = sync_talk(w, session, r, 2, s)->Done_1;
    let t = sync_talk(w, session, r, 2, s)->Done_2;
    let sb = t.push((false, p + ": build"@));
    reveal_strlit("run");
    reveal_strlit("build");
    if !none_builds(w) {
        law_what_a_run_asks_for(w, Verb::Build, session, profile, r, b, sb);
        lemma_executed_holds(w, Verb::Build, session, profile, r, b, sb, r.len() as int);
    }
    let f2 = crate::verbs::state::built(w, session, profile, r, b, t);
    assert("run"@.len() != "build"@.len());
    assert(f2 matches TalkView::Done(Ok(_), _, _));
    let c = f2->Done_1;
    let sc = f2->Done_2;
    law_what_returning_asks_for(w, to, session, r, c, sc);
    lemma_reset_first_holds(w, to, session, r, c, sc, r.len() as int);
    let f3 = reset_first(w, to, session, r, c, sc);
    assert(f3 matches TalkView::Done(Ok(_), _, _));
    let e = f3->Done_1;
    let se = f3->Done_2.push((false, p + ": run"@));
    assert forall|k: int| 2 <= k <= r.len() implies (match sync_talk(
        w,
        session,
        #[trigger] r.take(k),
        2,
        s,
    ) {
        TalkView::Ask(q) => tested(w, to, session, profile, r.take(k)) == TalkView::<Outcome>::Ask(
            q,
        ),
        _ => true,
    }) by {
        lemma_implied_holds(session, Some(p), Here::Absent, r, 0, none, k);
        assert(r.take(k)[1] == r[1]);
    }
    assert forall|k: int| b <= k <= r.len() implies (match crate::verbs::state::built(
        w,
        session,
        profile,
        #[trigger] r.take(k),
        b,
        t,
    ) {
        TalkView::Ask(q) => tested(w, to, session, profile, r.take(k)) == TalkView::<Outcome>::Ask(
            q,
        ),
        _ => true,
    }) by {
        lemma_implied_holds(session, Some(p), Here::Absent, r, 0, none, k);
        assert(r.take(k)[1] == r[1]);
        lemma_sync_holds(w, session, r, 2, s, k);
    }
    assert forall|k: int| c <= k <= r.len() implies (match reset_first(
        w,
        to,
        session,
        #[trigger] r.take(k),
        c,
        sc,
    ) {
        TalkView::Ask(q) => tested(w, to, session, profile, r.take(k)) == TalkView::<Outcome>::Ask(
            q,
        ),
        _ => true,
    }) by {
        lemma_implied_holds(session, Some(p), Here::Absent, r, 0, none, k);
        assert(r.take(k)[1] == r[1]);
        lemma_sync_holds(w, session, r, 2, s, k);
        lemma_executed_holds(w, Verb::Build, session, profile, r, b, sb, k);
    }
    assert forall|k: int| e <= k <= r.len() implies tested(
        w,
        to,
        session,
        profile,
        #[trigger] r.take(k),
    ) == executed(w, Verb::Run, session, profile, r.take(k), e, se) by {
        lemma_implied_holds(session, Some(p), Here::Absent, r, 0, none, k);
        assert(r.take(k)[1] == r[1]);
        lemma_sync_holds(w, session, r, 2, s, k);
        lemma_executed_holds(w, Verb::Build, session, profile, r, b, sb, k);
        lemma_reset_first_holds(w, to, session, r, c, sc, k);
    }
    assert(in_steps(w, to, session, profile, r, s, b, sb, c, sc, e, se));
}

/// Whatever `test` asks for, it asks of the store which sessions there are, or it
/// empties the results directory of the tree, or it is something that the sync,
/// the build, the reset or the run of one of this project's sessions asks for.
#[verifier::rlimit(60)]
#[verifier::spinoff_prover]
pub proof fn law_what_a_test_asks_for(
    w: Work,
    to: Option<Seq<char>>,
    session: Option<Seq<char>>,
    profile: Option<Seq<char>>,
    r: Seq<Reply>,
)
    ensures
        tested(w, to, session, profile, r) matches TalkView::Ask(q) ==> {
            ||| q.deed matches Deed::Get(name) && session == Some(name)
            ||| q.deed is List && session is None
            ||| q.deed matches Deed::ClearResults(tree) && tree == w.tree@
            ||| exists|x: Session|
                theirs(r, w.manifest.project@, x) && #[trigger] of_a_sync(w, x, r, q.deed)
            ||| exists|x: Session|
                theirs(r, w.manifest.project@, x) && #[trigger] of_a_return(w, x, to, r, q.deed)
            ||| exists|x: Session, p: Option<Profile>, v: Verb|
                theirs(r, w.manifest.project@, x) && profiled(*w.manifest, profile, p)
                    && #[trigger] run_asks(w, v, p, x, r, q.deed)
        },
{
    let p = w.manifest.project@;
    let none = Seq::<(bool, Seq<char>)>::empty();
    law_a_verb_acts_on_what_was_meant(session, p, Here::Absent, r, 0, none);
    lemma_implied_holds(session, Some(p), Here::Absent, r, 0, none, r.len() as int);
    match implied(session, Some(p), Here::Absent, r, 0, none) {
        TalkView::Done(Ok(_), n, _) => {
            if n < r.len() && crate::verbs::deeds::count_of(r[1].event) is Some {
                let cleared = crate::verbs::deeds::count_of(r[1].event)->0;
                let s = crate::verbs::state::clearing_words(none, *w.manifest, cleared).push(
                    (false, p + ": sync"@),
                );
                law_what_a_sync_asks_for(w, session, r, 2, s);
                lemma_sync_holds(w, session, r, 2, s, r.len() as int);
                match sync_talk(w, session, r, 2, s) {
                    TalkView::Done(Ok(_), b, t) => {
                        let sb = t.push((false, p + ": build"@));
                        law_what_a_run_asks_for(w, Verb::Build, session, profile, r, b, sb);
                        lemma_executed_holds(
                            w,
                            Verb::Build,
                            session,
                            profile,
                            r,
                            b,
                            sb,
                            r.len() as int,
                        );
                        match crate::verbs::state::built(w, session, profile, r, b, t) {
                            TalkView::Done(Ok(_), c, sc) => {
                                law_what_returning_asks_for(w, to, session, r, c, sc);
                                match reset_first(w, to, session, r, c, sc) {
                                    TalkView::Done(Ok(_), e, t2) => {
                                        law_what_a_run_asks_for(
                                            w,
                                            Verb::Run,
                                            session,
                                            profile,
                                            r,
                                            e,
                                            t2.push((false, p + ": run"@)),
                                        );
                                    },
                                    _ => {},
                                }
                            },
                            _ => {},
                        }
                    },
                    _ => {},
                }
            }
        },
        _ => {},
    }
}

}
