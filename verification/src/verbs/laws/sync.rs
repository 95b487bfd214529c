//! What `sync` promises, and taking results out of a session.
use vstd::prelude::*;
use vstd::string::*;

use crate::address::Address;
use crate::config::Config;
use crate::paths::joined;
use crate::paths::with_name;
use crate::session::Session;
use crate::sync::{patience, push_options, slashed, wrapper};
use crate::text::texts;
use crate::verbs::common::{implied, transport, Here};
use crate::verbs::deeds::{Deed, DeedView, Outcome, Reply, Said, TalkView};
use crate::verbs::laws::{
    awaited, ended, law_a_verb_acts_on_what_was_meant, lemma_implied_holds, moment, reaches,
    rsync_host, theirs, told_of,
};
use crate::verbs::work::{
    all_synced, handed_back, opened, pull_args, push_deed, removed_words, reported, sync_talk,
    synced, wrapped, Work,
};

verus! {

/// The script that stands in for ssh lies beside the session store, under the
/// session's name, and reaches that session.
pub open spec fn stands_in(
    cfg: Config,
    store: Seq<char>,
    x: Session,
    path: Seq<char>,
    script: Seq<char>,
) -> bool {
    &&& path == with_name(store, "rsh-"@ + x.name@)
    &&& x.address matches Some(a) && script == wrapper(transport(cfg, store, x.name@, a))
}

/// An invocation of rsync that puts a tree into a session: everything of the
/// tree but its results and what the manifest keeps out, into the place that the
/// runner named, with what is gone here going there too.
pub open spec fn pushes(w: Work, x: Session, r: Seq<Reply>, args: Seq<Seq<char>>) -> bool {
    let n = args.len();
    let exclude = w.manifest.sync_exclude@;
    &&& n == exclude.len() + 11
    &&& args[0] == "-a"@
    &&& args[1] == "--delete"@
    &&& args[2] == "--itemize-changes"@
    &&& x.address matches Some(a)
    &&& args[3] == patience(transport(*w.cfg, w.store@, x.name@, a))
    &&& args[4] == "--no-owner"@
    &&& args[5] == "--no-group"@
    &&& args[6] == "--exclude=/"@ + "out"@ + "/"@
    &&& forall|j: int|
        0 <= j < exclude.len() ==> args[7 + j] == "--exclude="@ + (#[trigger] exclude[j])@
    &&& args[n - 4] == "-e"@
    &&& args[n - 3] == with_name(w.store@, "rsh-"@ + x.name@)
    &&& ended(w.tree@, args[n - 2])
    &&& exists|work: Seq<char>, with: Seq<char>|
        #![trigger told_of(r, "work="@, work), ended(work, with)]
        told_of(r, "work="@, work) && ended(work, with) && args[n - 1] == rsync_host(a) + ":"@
            + with
}

/// An invocation of rsync that takes a session's results out of the place that
/// the runner named, into the results directory of the tree. It deletes nothing.
pub open spec fn pulls(
    cfg: Config,
    store: Seq<char>,
    tree: Seq<char>,
    x: Session,
    r: Seq<Reply>,
    args: Seq<Seq<char>>,
) -> bool {
    &&& args.len() == 8
    &&& args[0] == "-a"@
    &&& x.address matches Some(a)
    &&& args[1] == patience(transport(cfg, store, x.name@, a))
    &&& args[2] == "--no-owner"@
    &&& args[3] == "--no-group"@
    &&& args[4] == "-e"@
    &&& args[5] == with_name(store, "rsh-"@ + x.name@)
    &&& exists|out: Seq<char>, with: Seq<char>|
        #![trigger told_of(r, "out="@, out), ended(out, with)]
        told_of(r, "out="@, out) && ended(out, with) && args[6] == rsync_host(a) + ":"@ + with
    &&& ended(joined(tree, "out"@), args[7])
}

/// What putting the tree into a session may ask for.
pub open spec fn of_a_sync(w: Work, x: Session, r: Seq<Reply>, d: DeedView) -> bool {
    match d {
        Deed::UploadRunner { session, address } => reaches(x, session, address),
        Deed::Run { session, address, command, .. } => reaches(x, session, address) && command
            == "/tmp/reaper-runner.sh"@ + " workspace --project "@ + w.manifest.project@,
        Deed::WriteScript { path, script } => stands_in(*w.cfg, w.store@, x, path, script),
        Deed::Execute { program, args } => program == w.cfg.session.rsync_command@ && (pushes(
            w,
            x,
            r,
            args,
        ) || pulls(*w.cfg, w.store@, w.tree@, x, r, args)),
        Deed::RecordSync(name, at) => name == x.name@ && exists|k: int| #[trigger]
            awaited(r, k, d) && k > 0 && at == moment(r, k, w.start),
        Deed::MakeDir(path) => path == joined(w.tree@, "out"@),
        _ => false,
    }
}

pub proof fn lemma_ended(s: Seq<char>)
    ensures
        ended(s, slashed(s)),
{
    reveal_strlit("/");
    assert(s + "/"@ =~= s.push('/'));
}

pub proof fn lemma_script_path(store: Seq<char>, name: Seq<char>)
    ensures
        crate::verbs::common::state_name(store, "rsh"@, name) == with_name(store, "rsh-"@ + name),
{
    reveal_strlit("rsh");
    reveal_strlit("-");
    reveal_strlit("rsh-");
    assert("rsh"@ + "-"@ + name =~= "rsh-"@ + name);
}

/// Where the workspace is comes from the runner.
pub proof fn lemma_opened(s: Session, project: Seq<char>, r: Seq<Reply>, i: int, said: Said, k: int)
    requires
        0 <= i <= k <= r.len(),
    ensures
        match opened(s, project, r, i, said) {
            TalkView::Ask(q) => match q.deed {
                Deed::UploadRunner { session, address } => reaches(s, session, address),
                Deed::Run { session, address, command, .. } => reaches(s, session, address)
                    && command == "/tmp/reaper-runner.sh"@ + " workspace --project "@ + project,
                _ => false,
            },
            TalkView::Done(o, n, _) => {
                &&& i <= n <= r.len()
                &&& n <= k ==> opened(s, project, r.take(k), i, said) == opened(
                    s,
                    project,
                    r,
                    i,
                    said,
                )
                &&& o matches Ok(p) ==> n == i + 2 && s.address == Some(p.0) && told_of(
                    r,
                    "work="@,
                    p.1,
                ) && told_of(r, "out="@, p.2)
            },
        },
{
    if i < k {
        assert(r.take(k)[i] == r[i]);
    }
    if i + 1 < k {
        assert(r.take(k)[i + 1] == r[i + 1]);
    }
    match opened(s, project, r, i, said) {
        TalkView::Done(Ok(p), n, _) => {
            let e = r[i + 1].event;
            assert(e is Text);
        },
        _ => {},
    }
}

pub proof fn lemma_pulled(
    cfg: Config,
    store: Seq<char>,
    x: Session,
    a: Address,
    out: Seq<char>,
    tree: Seq<char>,
    r: Seq<Reply>,
)
    requires
        x.address == Some(a),
        told_of(r, "out="@, out),
    ensures
        pulls(
            cfg,
            store,
            tree,
            x,
            r,
            pull_args(
                transport(cfg, store, x.name@, a),
                crate::verbs::common::state_name(store, "rsh"@, x.name@),
                out,
                tree,
            ),
        ),
{
    lemma_script_path(store, x.name@);
    lemma_ended(out);
    lemma_ended(joined(tree, "out"@));
}

pub proof fn lemma_pushed(w: Work, x: Session, a: Address, work: Seq<char>, r: Seq<Reply>)
    requires
        x.address == Some(a),
        told_of(r, "work="@, work),
    ensures
        push_deed(
            w,
            transport(*w.cfg, w.store@, x.name@, a),
            crate::verbs::common::state_name(w.store@, "rsh"@, x.name@),
            work,
        ) matches Deed::Execute { program, args } && program == w.cfg.session.rsync_command@
            && pushes(w, x, r, args),
{
    lemma_script_path(w.store@, x.name@);
    lemma_ended(work);
    lemma_ended(w.tree@);
    let ssh = transport(*w.cfg, w.store@, x.name@, a);
    let exclude = texts(w.manifest.sync_exclude@);
    let o = push_options(ssh, exclude);
    assert forall|j: int| 0 <= j < w.manifest.sync_exclude@.len() implies o[7 + j]
        == "--exclude="@ + (#[trigger] w.manifest.sync_exclude@[j])@ by {
        assert(exclude[j] == w.manifest.sync_exclude@[j]@);
    }
}

#[verifier::rlimit(60)]
#[verifier::spinoff_prover]
proof fn lemma_handed_back(
    w: Work,
    x: Session,
    a: Address,
    out: Seq<char>,
    r: Seq<Reply>,
    i: int,
    said: Said,
    k: int,
)
    requires
        0 < i <= k <= r.len(),
        x.address == Some(a),
        told_of(r, "out="@, out),
    ensures
        ({
            let ssh = transport(*w.cfg, w.store@, x.name@, a);
            let rsh = crate::verbs::common::state_name(w.store@, "rsh"@, x.name@);
            let f = handed_back(w, x, ssh, rsh, out, r, i, said);
            match f {
                TalkView::Ask(q) => of_a_sync(w, x, r, q.deed),
                TalkView::Done(o, n, _) => {
                    &&& i <= n <= r.len()
                    &&& n <= k ==> handed_back(w, x, ssh, rsh, out, r.take(k), i, said) == f
                    &&& o is Ok ==> n == i + 3
                },
            }
        }),
{
    lemma_pulled(*w.cfg, w.store@, x, a, out, w.tree@, r);
    let d: DeedView = Deed::RecordSync(x.name@, moment(r, i, w.start));
    if i >= r.len() || unit_of_none(r, i) {
        assert(awaited(r, i, d));
    }
    assert(i < k ==> r.take(k)[i] == r[i]);
    assert(i + 1 < k ==> r.take(k)[i + 1] == r[i + 1]);
    assert(i + 2 < k ==> r.take(k)[i + 2] == r[i + 2]);
    assert(i - 1 < k ==> r.take(k)[i - 1] == r[i - 1]);
}

spec fn unit_of_none(r: Seq<Reply>, i: int) -> bool {
    crate::verbs::deeds::unit_of(r[i].event) is None
}

#[verifier::rlimit(60)]
#[verifier::spinoff_prover]
proof fn lemma_synced(w: Work, x: Session, r: Seq<Reply>, i: int, said: Said, k: int)
    requires
        0 <= i <= k <= r.len(),
    ensures
        match synced(w, x, r, i, said) {
            TalkView::Ask(q) => of_a_sync(w, x, r, q.deed),
            TalkView::Done(o, n, _) => {
                &&& i <= n <= r.len()
                &&& n <= k ==> synced(w, x, r.take(k), i, said) == synced(w, x, r, i, said)
                &&& o is Ok ==> n == i + 7
            },
        },
{
    reveal(synced);
    lemma_opened(x, w.manifest.project@, r, i, said, k);
    lemma_script_path(w.store@, x.name@);
    match opened(x, w.manifest.project@, r, i, said) {
        TalkView::Done(Ok(p), n, t) => {
            lemma_pushed(w, x, p.0, p.1, r);
            assert(n < k ==> r.take(k)[n] == r[n]);
            assert(n + 1 < k ==> r.take(k)[n + 1] == r[n + 1]);
            match wrapped(*w.cfg, w.store@, x.name@, p.0, r, n, t) {
                TalkView::Done(Ok(rsh), m, t) => {
                    if m < r.len() {
                        match crate::verbs::deeds::text_of(r[m].event) {
                            Some(Ok(output)) => {
                                let s = removed_words(Seq::empty(), x.name@, output);
                                let l = if m + 1 <= k {
                                    k
                                } else {
                                    m + 1
                                };
                                lemma_handed_back(w, x, p.0, p.2, r, m + 1, s, l);
                            },
                            _ => {},
                        }
                    }
                },
                _ => {},
            }
        },
        _ => {},
    }
}

/// What a session that is synced was asked for, one after the other: the push,
/// its record, and what comes back.
#[verifier::rlimit(60)]
#[verifier::spinoff_prover]
proof fn lemma_synced_steps(w: Work, x: Session, r: Seq<Reply>, i: int, said: Said)
    requires
        0 <= i <= r.len(),
        synced(w, x, r, i, said) matches TalkView::Done(Ok(_), _, _),
    ensures
        i + 7 <= r.len(),
        synced(w, x, r.take(i + 3), i, said) matches TalkView::Ask(q) && is_push(
            w,
            x,
            r.take(i + 3),
            q.deed,
        ),
        synced(w, x, r.take(i + 4), i, said) matches TalkView::Ask(q) && is_record(
            x,
            r[i + 3].at@,
            q.deed,
        ),
        synced(w, x, r.take(i + 6), i, said) matches TalkView::Ask(q) && is_pull(
            w,
            x,
            r.take(i + 6),
            q.deed,
        ),
{
    reveal(synced);
    lemma_synced(w, x, r, i, said, r.len() as int);
    let a = x.address->0;
    assert forall|k: int| i + 2 <= k <= i + 7 implies #[trigger] opened(
        x,
        w.manifest.project@,
        r.take(k),
        i,
        said,
    ) == opened(x, w.manifest.project@, r, i, said) by {
        lemma_opened(x, w.manifest.project@, r, i, said, k);
    }
    let p = opened(x, w.manifest.project@, r, i, said)->Done_0->Ok_0;
    let r3 = r.take(i + 3);
    let r4 = r.take(i + 4);
    let r6 = r.take(i + 6);
    assert(opened(x, w.manifest.project@, r3, i, said) == opened(x, w.manifest.project@, r, i, said));
    assert(opened(x, w.manifest.project@, r4, i, said) == opened(x, w.manifest.project@, r, i, said));
    assert(opened(x, w.manifest.project@, r6, i, said) == opened(x, w.manifest.project@, r, i, said));
    lemma_opened(x, w.manifest.project@, r3, i, said, i + 3);
    lemma_opened(x, w.manifest.project@, r6, i, said, i + 6);
    lemma_pushed(w, x, a, p.1, r3);
    lemma_pulled(*w.cfg, w.store@, x, a, p.2, w.tree@, r6);
    assert(r3[i + 2] == r[i + 2]);
    assert(r4[i + 2] == r[i + 2] && r4[i + 3] == r[i + 3]);
    assert(r6[i + 2] == r[i + 2] && r6[i + 3] == r[i + 3] && r6[i + 4] == r[i + 4] && r6[i + 5]
        == r[i + 5]);
}

pub open spec fn is_push(w: Work, x: Session, r: Seq<Reply>, d: DeedView) -> bool {
    d matches Deed::Execute { program, args } && program == w.cfg.session.rsync_command@ && pushes(
        w,
        x,
        r,
        args,
    )
}

pub open spec fn is_pull(w: Work, x: Session, r: Seq<Reply>, d: DeedView) -> bool {
    d matches Deed::Execute { program, args } && program == w.cfg.session.rsync_command@ && pulls(
        *w.cfg,
        w.store@,
        w.tree@,
        x,
        r,
        args,
    )
}

pub open spec fn is_record(x: Session, at: int, d: DeedView) -> bool {
    d matches Deed::RecordSync(name, t) && name == x.name@ && t == at
}

/// The part of a conversation that is about one session runs from `i` on: what
/// that session is asked for is what the whole conversation asks for.
pub open spec fn sync_turn(
    w: Work,
    session: Option<Seq<char>>,
    r: Seq<Reply>,
    from: int,
    said: Said,
    x: Session,
    i: int,
    s: Said,
) -> bool {
    &&& from <= i <= r.len()
    &&& synced(w, x, r, i, s) is Done
    &&& forall|k: int|
        i <= k <= r.len() ==> (synced(w, x, #[trigger] r.take(k), i, s) matches TalkView::Ask(q)
            ==> sync_talk(w, session, r.take(k), from, said) == TalkView::<Outcome>::Ask(q))
}

spec fn loop_turn(
    w: Work,
    v: Seq<Session>,
    failures: nat,
    r: Seq<Reply>,
    from: int,
    said: Said,
    x: Session,
    i: int,
    s: Said,
) -> bool {
    &&& from <= i <= r.len()
    &&& synced(w, x, r, i, s) is Done
    &&& forall|k: int|
        i <= k <= r.len() ==> (synced(w, x, #[trigger] r.take(k), i, s) matches TalkView::Ask(q)
            ==> all_synced(w, v, failures, r.take(k), from, said) == TalkView::<Outcome>::Ask(q))
}

#[verifier::rlimit(60)]
#[verifier::spinoff_prover]
proof fn lemma_all_synced(
    w: Work,
    v: Seq<Session>,
    failures: nat,
    r: Seq<Reply>,
    i: int,
    said: Said,
    j: int,
)
    requires
        0 <= i <= r.len(),
    ensures
        match all_synced(w, v, failures, r, i, said) {
            TalkView::Ask(q) => exists|j: int|
                0 <= j < v.len() && of_a_sync(w, #[trigger] v[j], r, q.deed),
            TalkView::Done(o, n, _) => {
                &&& i <= n <= r.len()
                &&& o is Ok ==> failures == 0
                &&& 0 <= j < v.len() ==> exists|m: int, s: Said|
                        {
                            &&& #[trigger] loop_turn(w, v, failures, r, i, said, v[j], m, s)
                            &&& o is Ok ==> synced(w, v[j], r, m, s) matches TalkView::Done(
                                Ok(_),
                                _,
                                _,
                            )
                        }
            },
        },
    decreases v.len(),
{
    if v.len() > 0 {
        let x = v[0];
        let rest = v.skip(1);
        lemma_synced(w, x, r, i, said, i);
        match synced(w, x, r, i, said) {
            TalkView::Ask(q) => {
                assert(of_a_sync(w, v[0], r, q.deed));
            },
            TalkView::Done(o, n, t) => {
                let (f, s2) = match o {
                    Ok(_) => (failures, t),
                    Err(e) => (
                        failures + 1,
                        reported(
                            t,
                            x,
                            x.name@ + ": could not sync: "@ + e,
                            crate::verbs::deeds::reached(r, n, w.start),
                        ),
                    ),
                };
                lemma_all_synced(w, rest, f, r, n, s2, j - 1);
                assert(all_synced(w, v, failures, r, i, said) == all_synced(w, rest, f, r, n, s2));
                match all_synced(w, rest, f, r, n, s2) {
                    TalkView::Ask(q) => {
                        let l = choose|l: int|
                            0 <= l < rest.len() && of_a_sync(w, #[trigger] rest[l], r, q.deed);
                        assert(v[l + 1] == rest[l]);
                    },
                    TalkView::Done(o2, n2, _) => {
                        if 0 <= j < v.len() {
                            if j == 0 {
                                assert(loop_turn(w, v, failures, r, i, said, v[0], i, said));
                            } else {
                                assert(v[j] == rest[j - 1]);
                                let (m, s) = choose|m: int, s: Said|
                                    {
                                        &&& #[trigger] loop_turn(
                                            w,
                                            rest,
                                            f,
                                            r,
                                            n,
                                            s2,
                                            rest[j - 1],
                                            m,
                                            s,
                                        )
                                        &&& o2 is Ok ==> synced(
                                            w,
                                            rest[j - 1],
                                            r,
                                            m,
                                            s,
                                        ) matches TalkView::Done(Ok(_), _, _)
                                    };
                                assert forall|k: int| m <= k <= r.len() implies (synced(
                                    w,
                                    v[j],
                                    #[trigger] r.take(k),
                                    m,
                                    s,
                                ) matches TalkView::Ask(q) ==> all_synced(
                                    w,
                                    v,
                                    failures,
                                    r.take(k),
                                    i,
                                    said,
                                ) == TalkView::<Outcome>::Ask(q)) by {
                                    lemma_synced(w, x, r, i, said, k);
                                    if n > 0 {
                                        assert(r.take(k)[n - 1] == r[n - 1]);
                                    }
                                    assert(all_synced(w, v, failures, r.take(k), i, said)
                                        == all_synced(w, rest, f, r.take(k), n, s2));
                                }
                                assert(loop_turn(w, v, failures, r, i, said, v[j], m, s));
                            }
                        }
                    },
                }
            },
        }
    }
}

/// Whatever `sync` asks for, it asks of the store which sessions there are, or
/// it is about one of this project's sessions: and then it is the tree that goes
/// in, the session's own results that come out, and the moment of the push that
/// is recorded.
pub proof fn law_what_a_sync_asks_for(
    w: Work,
    session: Option<Seq<char>>,
    r: Seq<Reply>,
    i: int,
    said: Said,
)
    requires
        0 <= i <= r.len(),
    ensures
        sync_talk(w, session, r, i, said) matches TalkView::Ask(q) ==> (match q.deed {
            Deed::Get(name) => session == Some(name),
            Deed::List => session is None,
            d => exists|x: Session|
                theirs(r, w.manifest.project@, x) && #[trigger] of_a_sync(w, x, r, d),
        }),
{
    law_a_verb_acts_on_what_was_meant(
        session,
        w.manifest.project@,
        Here::Absent,
        r,
        i,
        said,
    );
    match implied(session, Some(w.manifest.project@), Here::Absent, r, i, said) {
        TalkView::Done(Ok(v), n, t) => {
            lemma_all_synced(w, v, 0, r, n, t, 0);
            match all_synced(w, v, 0, r, n, t) {
                TalkView::Ask(q) => {
                    let j = choose|j: int|
                        0 <= j < v.len() && of_a_sync(w, #[trigger] v[j], r, q.deed);
                    assert(theirs(r, w.manifest.project@, v[j]));
                },
                _ => {},
            }
        },
        _ => {},
    }
}

/// No session is passed over: by the time `sync` ends, each of them has had its
/// turn, whatever came of the ones before it.
pub proof fn law_every_session_is_synced(
    w: Work,
    session: Option<Seq<char>>,
    r: Seq<Reply>,
    i: int,
    said: Said,
    v: Seq<Session>,
    j: int,
)
    requires
        0 <= i <= r.len(),
        implied(session, Some(w.manifest.project@), Here::Absent, r, i, said) matches TalkView::Done(
            Ok(all),
            _,
            _,
        ) && all == v,
        sync_talk(w, session, r, i, said) is Done,
        0 <= j < v.len(),
    ensures
        exists|m: int, s: Said| #[trigger] sync_turn(w, session, r, i, said, v[j], m, s),
{
    let f = implied(session, Some(w.manifest.project@), Here::Absent, r, i, said);
    let n = f->Done_1;
    let t = f->Done_2;
    lemma_implied_holds(session, Some(w.manifest.project@), Here::Absent, r, i, said, i);
    lemma_all_synced(w, v, 0, r, n, t, j);
    let (m, s) = choose|m: int, s: Said| #[trigger] loop_turn(w, v, 0, r, n, t, v[j], m, s);
    assert forall|k: int| m <= k <= r.len() implies (synced(
        w,
        v[j],
        #[trigger] r.take(k),
        m,
        s,
    ) matches TalkView::Ask(q) ==> sync_talk(w, session, r.take(k), i, said)
        == TalkView::<Outcome>::Ask(q)) by {
        lemma_implied_holds(session, Some(w.manifest.project@), Here::Absent, r, i, said, k);
    }
    assert(sync_turn(w, session, r, i, said, v[j], m, s));
}

/// A `sync` that succeeds has, for every session: put the tree into it, then
/// recorded the moment at which that was done, then taken its results out.
#[verifier::rlimit(60)]
#[verifier::spinoff_prover]
pub proof fn law_a_sync_that_succeeds_missed_nothing(
    w: Work,
    session: Option<Seq<char>>,
    r: Seq<Reply>,
    i: int,
    said: Said,
    v: Seq<Session>,
    j: int,
)
    requires
        0 <= i <= r.len(),
        implied(session, Some(w.manifest.project@), Here::Absent, r, i, said) matches TalkView::Done(
            Ok(all),
            _,
            _,
        ) && all == v,
        sync_talk(w, session, r, i, said) matches TalkView::Done(Ok(_), _, _),
        0 <= j < v.len(),
    ensures
        exists|a: int, b: int, c: int|
            #![trigger r.take(a), r.take(b), r.take(c)]
            {
                &&& i <= a < b < c < r.len()
                &&& sync_talk(w, session, r.take(a), i, said) matches TalkView::Ask(q) && is_push(
                    w,
                    v[j],
                    r.take(a),
                    q.deed,
                )
                &&& sync_talk(w, session, r.take(b), i, said) matches TalkView::Ask(q) && is_record(
                    v[j],
                    r[a].at@,
                    q.deed,
                )
                &&& sync_talk(w, session, r.take(c), i, said) matches TalkView::Ask(q) && is_pull(
                    w,
                    v[j],
                    r.take(c),
                    q.deed,
                )
            },
{
    let f = implied(session, Some(w.manifest.project@), Here::Absent, r, i, said);
    let n = f->Done_1;
    let t = f->Done_2;
    lemma_implied_holds(session, Some(w.manifest.project@), Here::Absent, r, i, said, i);
    lemma_all_synced(w, v, 0, r, n, t, j);
    let (m, s) = choose|m: int, s: Said|
        #[trigger] loop_turn(w, v, 0, r, n, t, v[j], m, s) && (synced(
            w,
            v[j],
            r,
            m,
            s,
        ) matches TalkView::Done(Ok(_), _, _));
    lemma_synced_steps(w, v[j], r, m, s);
    let a = m + 3;
    let b = m + 4;
    let c = m + 6;
    lemma_implied_holds(session, Some(w.manifest.project@), Here::Absent, r, i, said, a);
    lemma_implied_holds(session, Some(w.manifest.project@), Here::Absent, r, i, said, b);
    lemma_implied_holds(session, Some(w.manifest.project@), Here::Absent, r, i, said, c);
    assert(synced(w, v[j], r.take(a), m, s) is Ask);
    assert(synced(w, v[j], r.take(b), m, s) is Ask);
    assert(synced(w, v[j], r.take(c), m, s) is Ask);
}

proof fn lemma_all_synced_holds(
    w: Work,
    v: Seq<Session>,
    failures: nat,
    r: Seq<Reply>,
    i: int,
    said: Said,
    k: int,
)
    requires
        0 <= i <= k <= r.len(),
    ensures
        all_synced(w, v, failures, r, i, said) matches TalkView::Done(_, n, _) ==> i <= n <= r.len()
            && (n <= k ==> all_synced(w, v, failures, r.take(k), i, said) == all_synced(
            w,
            v,
            failures,
            r,
            i,
            said,
        )),
    decreases v.len(),
{
    if v.len() > 0 {
        let x = v[0];
        lemma_synced(w, x, r, i, said, k);
        match synced(w, x, r, i, said) {
            TalkView::Ask(q) => {},
            TalkView::Done(o, n, t) => {
                let (f, s) = match o {
                    Ok(_) => (failures, t),
                    Err(e) => (
                        failures + 1,
                        reported(
                            t,
                            x,
                            x.name@ + ": could not sync: "@ + e,
                            crate::verbs::deeds::reached(r, n, w.start),
                        ),
                    ),
                };
                let l = if k >= n {
                    k
                } else {
                    n
                };
                lemma_all_synced_holds(w, v.skip(1), f, r, n, s, l);
                assert(0 < n <= k ==> r.take(k)[n - 1] == r[n - 1]);
            },
        }
    }
}

/// What a `sync` comes to does not change as more is heard.
pub proof fn lemma_sync_holds(
    w: Work,
    session: Option<Seq<char>>,
    r: Seq<Reply>,
    i: int,
    said: Said,
    k: int,
)
    requires
        0 <= i <= k <= r.len(),
    ensures
        sync_talk(w, session, r, i, said) matches TalkView::Done(_, n, _) ==> i <= n <= r.len() && (
        n <= k ==> sync_talk(w, session, r.take(k), i, said) == sync_talk(w, session, r, i, said)),
{
    let p = w.manifest.project@;
    lemma_implied_holds(session, Some(p), Here::Absent, r, i, said, k);
    match implied(session, Some(p), Here::Absent, r, i, said) {
        TalkView::Done(Ok(v), n, t) => {
            let l = if k >= n {
                k
            } else {
                n
            };
            lemma_all_synced_holds(w, v, 0, r, n, t, l);
        },
        _ => {},
    }
}

}
