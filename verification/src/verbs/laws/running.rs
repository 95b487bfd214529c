//! What `build` and `run` promise.
use vstd::prelude::*;
use vstd::string::*;

use crate::address::Address;
use crate::dict::find;
use crate::job::{exports, laid_over, preamble};
use crate::manifest::{guest_named, Exec, Guest, Manifest, Profile};
use crate::paths::joined;
use crate::session::Session;
use crate::text::texts;
use crate::verbs::common::{implied, state_name, Here};
use crate::verbs::deeds::{reached, Deed, DeedView, Outcome, Reply, Said, TalkView};
use crate::verbs::execute::{
    all_executed, attempted, cache_options, executed, label_of, obstacle, order, pristine_deed,
    pristine_taken, pristine_words, profile_of, ran, Order, Verb,
};
use crate::verbs::laws::sync::{lemma_opened, lemma_pulled, lemma_script_path, pulls, stands_in};
use crate::verbs::laws::{
    law_a_verb_acts_on_what_was_meant, lemma_implied_holds, reaches, theirs,
};
use crate::verbs::work::{opened, reported, Work};

verus! {

/// What a guest's command is, for a verb that it has one for.
pub open spec fn command_text(g: Guest, v: Verb) -> Seq<char> {
    match v {
        Verb::Run => g.run.cmd@,
        Verb::Build => g.build->0.cmd@,
    }
}

/// A script that sets a verb's own variables, with a profile's in their place or
/// beside them, and then runs the guest's command for that verb.
pub open spec fn scripted(g: Guest, v: Verb, p: Option<Profile>, script: Seq<char>) -> bool {
    let own = match v {
        Verb::Run => g.run.env@,
        Verb::Build => g.build->0.env@,
    };
    let env = match p {
        Some(x) => laid_over(own, x.env@),
        None => own,
    };
    script == preamble() + exports(env) + command_text(g, v) + "\n"@
}

/// The image that a command runs in is that verb's own, under container
/// execution; on the host there is none.
pub open spec fn imaged(g: Guest, v: Verb, words: Seq<char>) -> bool {
    match v {
        Verb::Run => match g.run.mode {
            Exec::Container => g.run.image matches Some(i) && words == " --image "@ + i@,
            Exec::Host => words == Seq::<char>::empty(),
        },
        Verb::Build => match g.build->0.mode {
            Exec::Container => g.build->0.image matches Some(i) && words == " --image "@ + i@,
            Exec::Host => words == Seq::<char>::empty(),
        },
    }
}

/// The line that runs a job: the project's, in the verb's image, with every
/// cache that the guest declares, and cold only where the profile says so.
pub open spec fn runs(m: Manifest, g: Guest, v: Verb, p: Option<Profile>, command: Seq<char>) -> bool {
    exists|image: Seq<char>|
        #[trigger] imaged(g, v, image) && command == "/tmp/reaper-runner.sh"@ + " exec --project "@
            + m.project@ + " --job "@ + "/tmp/reaper-job.sh"@ + image + cache_options(
            match g.build {
                Some(b) => texts(b.cache@),
                None => Seq::empty(),
            },
        ) + (if p matches Some(x) && x.warm_cache == Some(false) {
            " --cold"@
        } else {
            Seq::empty()
        })
}

/// What running a guest's command in a session may ask for.
pub open spec fn of_a_run(
    w: Work,
    v: Verb,
    p: Option<Profile>,
    x: Session,
    g: Guest,
    r: Seq<Reply>,
    d: DeedView,
) -> bool {
    match d {
        Deed::UploadRunner { session, address } => reaches(x, session, address),
        Deed::Run { session, address, command, .. } => {
            &&& reaches(x, session, address)
            &&& {
                ||| command == "/tmp/reaper-runner.sh"@ + " workspace --project "@
                    + w.manifest.project@
                ||| v == Verb::Run && exists|j: int|
                    0 <= j < w.manifest.reset@.len() && command == pristine_line(
                        (#[trigger] w.manifest.reset@[j])@,
                    )
            }
        },
        Deed::UploadJob { session, address, script } => reaches(x, session, address) && scripted(
            g,
            v,
            p,
            script,
        ),
        Deed::WriteScript { path, script } => stands_in(*w.cfg, w.store@, x, path, script),
        Deed::MakeDir(path) => path == joined(w.tree@, "out"@),
        Deed::RunCollecting { .. } => is_job(w, v, p, x, g, r, d),
        Deed::Execute { program, args } => program == w.cfg.session.rsync_command@ && pulls(
            *w.cfg,
            w.store@,
            w.tree@,
            x,
            r,
            args,
        ),
        _ => false,
    }
}

/// The command itself, with the session's results flowing back meanwhile.
pub open spec fn is_job(
    w: Work,
    v: Verb,
    p: Option<Profile>,
    x: Session,
    g: Guest,
    r: Seq<Reply>,
    d: DeedView,
) -> bool {
    &&& d matches Deed::RunCollecting { session, address, command, what, program, args }
    &&& reaches(x, session, address)
    &&& runs(*w.manifest, g, v, p, command)
    &&& what == (match v {
        Verb::Run => "run"@,
        Verb::Build => "build"@,
    })
    &&& program == w.cfg.session.rsync_command@
    &&& pulls(*w.cfg, w.store@, w.tree@, x, r, args)
}

pub open spec fn is_upload(
    v: Verb,
    p: Option<Profile>,
    x: Session,
    g: Guest,
    d: DeedView,
) -> bool {
    d matches Deed::UploadJob { session, address, script } && reaches(x, session, address)
        && scripted(g, v, p, script)
}

pub open spec fn is_collection(w: Work, x: Session, r: Seq<Reply>, d: DeedView) -> bool {
    d matches Deed::Execute { program, args } && program == w.cfg.session.rsync_command@ && pulls(
        *w.cfg,
        w.store@,
        w.tree@,
        x,
        r,
        args,
    )
}

pub open spec fn pristine_line(dataset: Seq<char>) -> Seq<char> {
    "/tmp/reaper-runner.sh"@ + " snapshot --dataset "@ + dataset + " --name "@ + "pristine"@
        + " --if-absent"@
}

pub open spec fn is_pristine(x: Session, dataset: Seq<char>, d: DeedView) -> bool {
    d matches Deed::Run { session, address, command, .. } && reaches(x, session, address) && command
        == pristine_line(dataset)
}

/// Each cache is named once, in the order in which they are declared.
pub proof fn law_every_cache_is_named(caches: Seq<Seq<char>>, k: int)
    requires
        0 <= k < caches.len(),
    ensures
        cache_options(caches.take(k + 1)) == cache_options(caches.take(k)) + " --cache "@
            + caches[k],
        cache_options(caches.take(0)) == Seq::<char>::empty(),
{
    assert(caches.take(k + 1).drop_last() =~= caches.take(k));
    assert(caches.take(k + 1).last() == caches[k]);
}

/// A guest that a manifest has under a name is one of its guests, and bears that
/// name; and one of them is found under every name that a guest bears.
pub proof fn law_a_guest_is_found_by_its_name(guests: Seq<Guest>, name: Seq<char>)
    ensures
        match guest_named(guests, name) {
            Some(g) => guests.contains(g) && g.name@ == name,
            None => forall|j: int| 0 <= j < guests.len() ==> (#[trigger] guests[j]).name@ != name,
        },
    decreases guests.len(),
{
    if guests.len() > 0 {
        let rest = guests.skip(1);
        if guests[0].name@ != name {
            law_a_guest_is_found_by_its_name(rest, name);
            match guest_named(rest, name) {
                Some(g) => {
                    let j = choose|j: int| 0 <= j < rest.len() && rest[j] == g;
                    assert(guests[j + 1] == g);
                },
                None => {
                    assert forall|j: int| 0 <= j < guests.len() implies (#[trigger] guests[j]).name@
                        != name by {
                        if j > 0 {
                            assert(rest[j - 1] == guests[j]);
                        }
                    }
                },
            }
        }
    }
}

proof fn lemma_pristine(
    x: Session,
    a: Address,
    datasets: Seq<Seq<char>>,
    r: Seq<Reply>,
    i: int,
    said: Said,
    k: int,
    j: int,
)
    requires
        0 <= i <= k <= r.len(),
        x.address == Some(a),
    ensures
        match pristine_taken(x.name@, a, datasets, r, i, said) {
            TalkView::Ask(q) => exists|l: int|
                0 <= l < datasets.len() && is_pristine(x, #[trigger] datasets[l], q.deed),
            TalkView::Done(_, n, _) => {
                &&& n == i + datasets.len() <= r.len()
                &&& n <= k ==> pristine_taken(x.name@, a, datasets, r.take(k), i, said)
                    == pristine_taken(x.name@, a, datasets, r, i, said)
                &&& 0 <= j < datasets.len() ==> (pristine_taken(
                    x.name@,
                    a,
                    datasets,
                    r.take(i + j),
                    i,
                    said,
                ) matches TalkView::Ask(q) && is_pristine(x, datasets[j], q.deed))
            },
        },
    decreases datasets.len(),
{
    if datasets.len() > 0 {
        let d = datasets[0];
        let rest = datasets.skip(1);
        assert(i < k ==> r.take(k)[i] == r[i]);
        if i < r.len() {
            match crate::verbs::deeds::text_of(r[i].event) {
                Some(o) => {
                    let s = pristine_words(Seq::empty(), x.name@, d, o);
                    let l = if k > i {
                        k
                    } else {
                        i + 1
                    };
                    lemma_pristine(x, a, rest, r, i + 1, s, l, j - 1);
                    match pristine_taken(x.name@, a, rest, r, i + 1, s) {
                        TalkView::Ask(q) => {
                            let m = choose|m: int|
                                0 <= m < rest.len() && is_pristine(x, #[trigger] rest[m], q.deed);
                            assert(datasets[m + 1] == rest[m]);
                        },
                        TalkView::Done(_, n, _) => {
                            if 0 < j < datasets.len() {
                                assert(rest[j - 1] == datasets[j]);
                                assert(r.take(i + j)[i] == r[i]);
                            }
                        },
                    }
                },
                None => {
                    assert(is_pristine(x, datasets[0], pristine_deed(x.name@, a, d)));
                },
            }
        } else {
            assert(is_pristine(x, datasets[0], pristine_deed(x.name@, a, d)));
        }
    }
}

spec fn fitting(g: Guest, v: Verb, o: Order) -> bool {
    &&& order(g, v) == Some(o)
    &&& o.mode == Exec::Container ==> o.image is Some
}

#[verifier::rlimit(60)]
#[verifier::spinoff_prover]
proof fn lemma_ran(
    w: Work,
    x: Session,
    g: Guest,
    v: Verb,
    o: Order,
    p: Option<Profile>,
    a: Address,
    out: Seq<char>,
    r: Seq<Reply>,
    i: int,
    said: Said,
    k: int,
    j: int,
)
    requires
        0 <= i <= k <= r.len(),
        x.address == Some(a),
        crate::verbs::laws::told_of(r, "out="@, out),
        fitting(g, v, o),
    ensures
        ({
            let rsh = state_name(w.store@, "rsh"@, x.name@);
            let warm = crate::verbs::execute::is_warm(p);
            let f = ran(w, x, g, v, o, warm, a, rsh, out, r, i, said);
            match f {
                TalkView::Ask(q) => of_a_run(w, v, p, x, g, r, q.deed),
                TalkView::Done(outcome, n, _) => {
                    &&& i + 2 <= n <= r.len()
                    &&& n <= k ==> ran(w, x, g, v, o, warm, a, rsh, out, r.take(k), i, said) == f
                    &&& outcome is Ok && v == Verb::Run && 0 <= j < w.manifest.reset@.len() ==> {
                        &&& n == i + 2 + w.manifest.reset@.len()
                        &&& ran(
                            w,
                            x,
                            g,
                            v,
                            o,
                            warm,
                            a,
                            rsh,
                            out,
                            r.take(i + 2 + j),
                            i,
                            said,
                        ) matches TalkView::Ask(q) && is_pristine(
                            x,
                            w.manifest.reset@[j]@,
                            q.deed,
                        )
                    }
                },
            }
        }),
{
    let rsh = state_name(w.store@, "rsh"@, x.name@);
    let warm = crate::verbs::execute::is_warm(p);
    lemma_pulled(*w.cfg, w.store@, x, a, out, w.tree@, r);
    assert(imaged(g, v, crate::verbs::execute::image_option(o)));
    assert(runs(*w.manifest, g, v, p, crate::verbs::execute::command_of(*w.manifest, g, o, warm)));
    assert(i < k ==> r.take(k)[i] == r[i]);
    assert(i + 1 < k ==> r.take(k)[i + 1] == r[i + 1]);
    let all = texts(w.manifest.reset@);
    let f = ran(w, x, g, v, o, warm, a, rsh, out, r, i, said);
    if i + 1 < r.len() && crate::verbs::deeds::unit_of(r[i].event) == Some(Ok::<(), Seq<char>>(()))
        && (crate::verbs::deeds::text_of(r[i + 1].event) matches Some(Ok(_))) && v == Verb::Run {
        let s = Seq::<(bool, Seq<char>)>::empty().push(
            (false, x.name@ + ": "@ + label_of(v) + " finished"@),
        );
        let l = if k > i + 1 {
            k
        } else {
            i + 2
        };
        lemma_pristine(x, a, all, r, i + 2, s, l, j);
        match pristine_taken(x.name@, a, all, r, i + 2, s) {
            TalkView::Ask(q) => {
                let m = choose|m: int|
                    0 <= m < all.len() && is_pristine(x, #[trigger] all[m], q.deed);
                assert(all[m] == w.manifest.reset@[m]@);
            },
            _ => {
                if 0 <= j < all.len() {
                    let q = r.take(i + 2 + j);
                    assert(q[i] == r[i] && q[i + 1] == r[i + 1]);
                    assert(all[j] == w.manifest.reset@[j]@);
                }
            },
        }
    }
}

#[verifier::rlimit(60)]
#[verifier::spinoff_prover]
proof fn lemma_attempted(
    w: Work,
    x: Session,
    g: Guest,
    v: Verb,
    o: Order,
    p: Option<Profile>,
    r: Seq<Reply>,
    i: int,
    said: Said,
    k: int,
)
    requires
        0 <= i <= k <= r.len(),
        fitting(g, v, o),
    ensures
        match attempted(w, x, g, v, o, p, r, i, said) {
            TalkView::Ask(q) => of_a_run(w, v, p, x, g, r, q.deed),
            TalkView::Done(outcome, n, _) => {
                &&& i <= n <= r.len()
                &&& n <= k ==> attempted(w, x, g, v, o, p, r.take(k), i, said) == attempted(
                    w,
                    x,
                    g,
                    v,
                    o,
                    p,
                    r,
                    i,
                    said,
                )
                &&& outcome is Ok ==> i + 7 <= n
            },
        },
{
    reveal(attempted);
    lemma_opened(x, w.manifest.project@, r, i, said, k);
    lemma_script_path(w.store@, x.name@);
    match opened(x, w.manifest.project@, r, i, said) {
        TalkView::Done(Ok(at), n, t) => {
            assert(scripted(g, v, p, crate::verbs::execute::script_of(o, p)));
            assert(n < k ==> r.take(k)[n] == r[n]);
            assert(n + 1 < k ==> r.take(k)[n + 1] == r[n + 1]);
            assert(n + 2 < k ==> r.take(k)[n + 2] == r[n + 2]);
            if n + 2 < r.len() {
                let l = if k > n + 2 {
                    k
                } else {
                    n + 3
                };
                lemma_ran(
                    w,
                    x,
                    g,
                    v,
                    o,
                    p,
                    at.0,
                    at.2,
                    r,
                    n + 3,
                    Seq::empty(),
                    l,
                    -1,
                );
            }
        },
        _ => {},
    }
}

/// What a session in which a command ran was asked for, one after the other: the
/// job, the command, its results; and after a run a point to return to, of each
/// dataset.
#[verifier::rlimit(60)]
#[verifier::spinoff_prover]
proof fn lemma_attempted_steps(
    w: Work,
    x: Session,
    g: Guest,
    v: Verb,
    o: Order,
    p: Option<Profile>,
    r: Seq<Reply>,
    i: int,
    said: Said,
    j: int,
)
    requires
        0 <= i <= r.len(),
        fitting(g, v, o),
        attempted(w, x, g, v, o, p, r, i, said) matches TalkView::Done(Ok(_), _, _),
    ensures
        i + 7 <= r.len(),
        attempted(w, x, g, v, o, p, r.take(i + 2), i, said) matches TalkView::Ask(q) && is_upload(
            v,
            p,
            x,
            g,
            q.deed,
        ),
        attempted(w, x, g, v, o, p, r.take(i + 5), i, said) matches TalkView::Ask(q) && is_job(
            w,
            v,
            p,
            x,
            g,
            r.take(i + 5),
            q.deed,
        ),
        attempted(w, x, g, v, o, p, r.take(i + 6), i, said) matches TalkView::Ask(q)
            && is_collection(w, x, r.take(i + 6), q.deed),
        v == Verb::Run && 0 <= j < w.manifest.reset@.len() ==> i + 7 + j < r.len() && (attempted(
            w,
            x,
            g,
            v,
            o,
            p,
            r.take(i + 7 + j),
            i,
            said,
        ) matches TalkView::Ask(q) && is_pristine(x, w.manifest.reset@[j]@, q.deed)),
{
    reveal(attempted);
    let n0 = r.len() as int;
    lemma_attempted(w, x, g, v, o, p, r, i, said, n0);
    lemma_opened(x, w.manifest.project@, r, i, said, n0);
    lemma_script_path(w.store@, x.name@);
    let at = opened(x, w.manifest.project@, r, i, said)->Done_0->Ok_0;
    lemma_ran(w, x, g, v, o, p, at.0, at.2, r, i + 5, Seq::empty(), n0, j);
    let a = r.take(i + 2);
    let b = r.take(i + 5);
    let c = r.take(i + 6);
    lemma_opened(x, w.manifest.project@, r, i, said, i + 2);
    lemma_opened(x, w.manifest.project@, r, i, said, i + 5);
    lemma_opened(x, w.manifest.project@, r, i, said, i + 6);
    lemma_opened(x, w.manifest.project@, b, i, said, i + 5);
    lemma_opened(x, w.manifest.project@, c, i, said, i + 6);
    lemma_ran(w, x, g, v, o, p, at.0, at.2, b, i + 5, Seq::empty(), i + 5, j);
    lemma_ran(w, x, g, v, o, p, at.0, at.2, c, i + 5, Seq::empty(), i + 6, j);
    assert(scripted(g, v, p, crate::verbs::execute::script_of(o, p)));
    assert(b[i + 2] == r[i + 2] && b[i + 3] == r[i + 3] && b[i + 4] == r[i + 4]);
    assert(c[i + 2] == r[i + 2] && c[i + 3] == r[i + 3] && c[i + 4] == r[i + 4] && c[i + 5]
        == r[i + 5]);
    lemma_pulled(*w.cfg, w.store@, x, at.0, at.2, w.tree@, c);
    if v == Verb::Run && 0 <= j < w.manifest.reset@.len() {
        let d = r.take(i + 7 + j);
        lemma_opened(x, w.manifest.project@, r, i, said, i + 7 + j);
        assert(d[i + 2] == r[i + 2] && d[i + 3] == r[i + 3] && d[i + 4] == r[i + 4]);
    }
}

/// Nothing keeps a verb from running in a session: something was pushed into it,
/// the manifest still has its guest, and a command that runs in a container has
/// an image to run in.
pub open spec fn ready_for(m: Manifest, x: Session, v: Verb) -> bool {
    &&& x.synced_at is Some
    &&& guest_named(m.guests@, x.guest@) matches Some(g)
    &&& match v {
        Verb::Run => g.run.mode == Exec::Container ==> g.run.image is Some,
        Verb::Build => g.build matches Some(b) ==> b.mode == Exec::Container ==> b.image is Some,
    }
}

pub open spec fn all_ready(m: Manifest, all: Seq<Session>, v: Verb) -> bool {
    forall|l: int| 0 <= l < all.len() ==> ready_for(m, #[trigger] all[l], v)
}

/// A guest has a command for a verb: every guest runs, not every one builds.
pub open spec fn has_command(g: Guest, v: Verb) -> bool {
    v == Verb::Run || g.build is Some
}

/// The part of a conversation that is about one session runs from `m` on: what
/// that session is asked for is what the whole conversation asks for.
pub open spec fn run_turn(
    w: Work,
    v: Verb,
    session: Option<Seq<char>>,
    profile: Option<Seq<char>>,
    r: Seq<Reply>,
    from: int,
    said: Said,
    p: Option<Profile>,
    x: Session,
    m: int,
    s: Said,
) -> bool {
    let g = guest_named(w.manifest.guests@, x.guest@)->0;
    let o = order(g, v)->0;
    &&& from <= m <= r.len()
    &&& attempted(w, x, g, v, o, p, r, m, s) is Done
    &&& forall|k: int|
        m <= k <= r.len() ==> (attempted(
            w,
            x,
            g,
            v,
            o,
            p,
            #[trigger] r.take(k),
            m,
            s,
        ) matches TalkView::Ask(q) ==> executed(w, v, session, profile, r.take(k), from, said)
            == TalkView::<Outcome>::Ask(q))
}

spec fn loop_turn(
    w: Work,
    v: Verb,
    p: Option<Profile>,
    all: Seq<Session>,
    failures: nat,
    r: Seq<Reply>,
    from: int,
    said: Said,
    x: Session,
    m: int,
    s: Said,
) -> bool {
    let g = guest_named(w.manifest.guests@, x.guest@)->0;
    let o = order(g, v)->0;
    &&& from <= m <= r.len()
    &&& attempted(w, x, g, v, o, p, r, m, s) is Done
    &&& forall|k: int|
        m <= k <= r.len() ==> (attempted(
            w,
            x,
            g,
            v,
            o,
            p,
            #[trigger] r.take(k),
            m,
            s,
        ) matches TalkView::Ask(q) ==> all_executed(w, v, p, all, failures, r.take(k), from, said)
            == TalkView::<Outcome>::Ask(q))
}

spec fn went_well(w: Work, v: Verb, p: Option<Profile>, r: Seq<Reply>, x: Session, m: int, s: Said) -> bool {
    let g = guest_named(w.manifest.guests@, x.guest@)->0;
    attempted(w, x, g, v, order(g, v)->0, p, r, m, s) matches TalkView::Done(Ok(_), _, _)
}

/// A session that a verb asks something of, with its guest.
pub open spec fn run_asks(
    w: Work,
    v: Verb,
    p: Option<Profile>,
    x: Session,
    r: Seq<Reply>,
    d: DeedView,
) -> bool {
    &&& x.synced_at is Some
    &&& guest_named(w.manifest.guests@, x.guest@) matches Some(g)
    &&& has_command(g, v)
    &&& of_a_run(w, v, p, x, g, r, d)
}

#[verifier::rlimit(60)]
#[verifier::spinoff_prover]
proof fn lemma_all_executed(
    w: Work,
    v: Verb,
    p: Option<Profile>,
    all: Seq<Session>,
    failures: nat,
    r: Seq<Reply>,
    i: int,
    said: Said,
    j: int,
)
    requires
        0 <= i <= r.len(),
    ensures
        match all_executed(w, v, p, all, failures, r, i, said) {
            TalkView::Ask(q) => exists|l: int|
                0 <= l < all.len() && run_asks(w, v, p, #[trigger] all[l], r, q.deed),
            TalkView::Done(o, n, _) => {
                &&& i <= n <= r.len()
                &&& o is Ok ==> failures == 0 && all_ready(*w.manifest, all, v)
                &&& all_ready(*w.manifest, all, v) && 0 <= j < all.len() && has_command(
                    guest_named(w.manifest.guests@, all[j].guest@)->0,
                    v,
                ) ==> exists|m: int, s: Said|
                    {
                        &&& #[trigger] loop_turn(w, v, p, all, failures, r, i, said, all[j], m, s)
                        &&& o is Ok ==> went_well(w, v, p, r, all[j], m, s)
                    }
            },
        },
    decreases all.len(),
{
    if all.len() > 0 {
        let x = all[0];
        let rest = all.skip(1);
        let g = guest_named(w.manifest.guests@, x.guest@)->0;
        assert(forall|l: int| 0 <= l < rest.len() ==> rest[l] == all[l + 1]);
        if obstacle(*w.manifest, x, v) is None {
            assert(ready_for(*w.manifest, x, v));
            assert(all_ready(*w.manifest, rest, v) ==> all_ready(*w.manifest, all, v)) by {
                if all_ready(*w.manifest, rest, v) {
                    assert forall|l: int| 0 <= l < all.len() implies ready_for(
                        *w.manifest,
                        #[trigger] all[l],
                        v,
                    ) by {
                        if l > 0 {
                            assert(rest[l - 1] == all[l]);
                        }
                    }
                }
            }
            let (f, n, s2) = match order(g, v) {
                None => (
                    failures,
                    i,
                    said.push(
                        (false, x.name@ + ": "@ + g.name@ + " declares no build; skipping"@),
                    ),
                ),
                Some(o) => {
                    lemma_attempted(w, x, g, v, o, p, r, i, said, i);
                    match attempted(w, x, g, v, o, p, r, i, said) {
                        TalkView::Ask(q) => {
                            assert(run_asks(w, v, p, all[0], r, q.deed));
                            (failures, i, said)
                        },
                        TalkView::Done(Ok(_), n, t) => (failures, n, t),
                        TalkView::Done(Err(e), n, t) => (
                            failures + 1,
                            n,
                            reported(
                                t,
                                x,
                                x.name@ + ": "@ + label_of(v) + " failed: "@ + e,
                                reached(r, n, w.start),
                            ),
                        ),
                    }
                },
            };
            if order(g, v) is None || attempted(w, x, g, v, order(g, v)->0, p, r, i, said) is Done {
                lemma_all_executed(w, v, p, rest, f, r, n, s2, j - 1);
                assert(all_executed(w, v, p, all, failures, r, i, said) == all_executed(
                    w,
                    v,
                    p,
                    rest,
                    f,
                    r,
                    n,
                    s2,
                ));
                match all_executed(w, v, p, rest, f, r, n, s2) {
                    TalkView::Ask(q) => {
                        let l = choose|l: int|
                            0 <= l < rest.len() && run_asks(w, v, p, #[trigger] rest[l], r, q.deed);
                        assert(all[l + 1] == rest[l]);
                    },
                    TalkView::Done(o2, n2, _) => {
                        if all_ready(*w.manifest, all, v) && 0 <= j < all.len() && has_command(
                            guest_named(w.manifest.guests@, all[j].guest@)->0,
                            v,
                        ) {
                            if j == 0 {
                                assert(loop_turn(w, v, p, all, failures, r, i, said, all[0], i, said));
                                assert(o2 is Ok ==> went_well(w, v, p, r, all[0], i, said));
                            } else {
                                assert(all[j] == rest[j - 1]);
                                assert(all_ready(*w.manifest, rest, v));
                                let (m, s) = choose|m: int, s: Said|
                                    {
                                        &&& #[trigger] loop_turn(
                                            w,
                                            v,
                                            p,
                                            rest,
                                            f,
                                            r,
                                            n,
                                            s2,
                                            rest[j - 1],
                                            m,
                                            s,
                                        )
                                        &&& o2 is Ok ==> went_well(w, v, p, r, rest[j - 1], m, s)
                                    };
                                let gj = guest_named(w.manifest.guests@, all[j].guest@)->0;
                                let oj = order(gj, v)->0;
                                assert forall|k: int| m <= k <= r.len() implies (attempted(
                                    w,
                                    all[j],
                                    gj,
                                    v,
                                    oj,
                                    p,
                                    #[trigger] r.take(k),
                                    m,
                                    s,
                                ) matches TalkView::Ask(q) ==> all_executed(
                                    w,
                                    v,
                                    p,
                                    all,
                                    failures,
                                    r.take(k),
                                    i,
                                    said,
                                ) == TalkView::<Outcome>::Ask(q)) by {
                                    if order(g, v) is Some {
                                        lemma_attempted(
                                            w,
                                            x,
                                            g,
                                            v,
                                            order(g, v)->0,
                                            p,
                                            r,
                                            i,
                                            said,
                                            k,
                                        );
                                    }
                                    if n > 0 {
                                        assert(r.take(k)[n - 1] == r[n - 1]);
                                    }
                                    assert(all_executed(w, v, p, all, failures, r.take(k), i, said)
                                        == all_executed(w, v, p, rest, f, r.take(k), n, s2));
                                }
                                assert(loop_turn(w, v, p, all, failures, r, i, said, all[j], m, s));
                            }
                        }
                    },
                }
            }
        }
    }
}

/// The profile that a name stands for: the manifest's own, and none where none
/// was named.
pub open spec fn profiled(m: Manifest, name: Option<Seq<char>>, p: Option<Profile>) -> bool {
    match name {
        None => p is None,
        Some(n) => p is Some && find(m.profiles@, n) == p,
    }
}

/// Whatever `build` or `run` asks for, it asks of the store which sessions there
/// are, or it is about one of this project's sessions, into which something was
/// pushed: and then it is that session's guest whose command is run, in the image
/// and with the variables of that very verb, and that session's results that come
/// out. A profile that the manifest does not have asks for nothing.
pub proof fn law_what_a_run_asks_for(
    w: Work,
    v: Verb,
    session: Option<Seq<char>>,
    profile: Option<Seq<char>>,
    r: Seq<Reply>,
    i: int,
    said: Said,
)
    requires
        0 <= i <= r.len(),
    ensures
        executed(w, v, session, profile, r, i, said) matches TalkView::Ask(q) ==> (match q.deed {
            Deed::Get(name) => session == Some(name),
            Deed::List => session is None,
            d => exists|x: Session, p: Option<Profile>|
                theirs(r, w.manifest.project@, x) && profiled(*w.manifest, profile, p)
                    && #[trigger] run_asks(w, v, p, x, r, d),
        }),
{
    law_a_verb_acts_on_what_was_meant(
        session,
        w.manifest.project@,
        Here::Absent,
        r,
        i,
        said,
    );
    match profile_of(*w.manifest, profile) {
        Ok(p) => match implied(session, Some(w.manifest.project@), Here::Absent, r, i, said) {
            TalkView::Done(Ok(all), n, t) => {
                lemma_all_executed(w, v, p, all, 0, r, n, t, 0);
                match all_executed(w, v, p, all, 0, r, n, t) {
                    TalkView::Ask(q) => {
                        let l = choose|l: int|
                            0 <= l < all.len() && run_asks(w, v, p, #[trigger] all[l], r, q.deed);
                        assert(theirs(r, w.manifest.project@, all[l]));
                        assert(profiled(*w.manifest, profile, p));
                    },
                    _ => {},
                }
            },
            _ => {},
        },
        _ => {},
    }
}

/// What every verb here starts from: the sessions that it acts on.
pub open spec fn acts_on(
    w: Work,
    session: Option<Seq<char>>,
    r: Seq<Reply>,
    i: int,
    said: Said,
    all: Seq<Session>,
) -> bool {
    implied(session, Some(w.manifest.project@), Here::Absent, r, i, said) matches TalkView::Done(
        Ok(v),
        _,
        _,
    ) && v == all
}

/// No session is passed over: where nothing keeps the verb from running, each
/// session that has a command for it has had its turn by the time the verb ends,
/// whatever came of the ones before it.
pub proof fn law_every_session_is_run(
    w: Work,
    v: Verb,
    session: Option<Seq<char>>,
    profile: Option<Seq<char>>,
    r: Seq<Reply>,
    i: int,
    said: Said,
    p: Option<Profile>,
    all: Seq<Session>,
    j: int,
)
    requires
        0 <= i <= r.len(),
        acts_on(w, session, r, i, said, all),
        profiled(*w.manifest, profile, p),
        all_ready(*w.manifest, all, v),
        0 <= j < all.len(),
        has_command(guest_named(w.manifest.guests@, all[j].guest@)->0, v),
        !(v == Verb::Build && crate::verbs::execute::builds_nothing(*w.manifest)),
        executed(w, v, session, profile, r, i, said) is Done,
    ensures
        exists|m: int, s: Said| #[trigger]
            run_turn(w, v, session, profile, r, i, said, p, all[j], m, s),
{
    let f = implied(session, Some(w.manifest.project@), Here::Absent, r, i, said);
    let n = f->Done_1;
    let t = f->Done_2;
    lemma_implied_holds(session, Some(w.manifest.project@), Here::Absent, r, i, said, i);
    lemma_all_executed(w, v, p, all, 0, r, n, t, j);
    let (m, s) = choose|m: int, s: Said| #[trigger]
        loop_turn(w, v, p, all, 0, r, n, t, all[j], m, s);
    let g = guest_named(w.manifest.guests@, all[j].guest@)->0;
    let o = order(g, v)->0;
    assert forall|k: int| m <= k <= r.len() implies (attempted(
        w,
        all[j],
        g,
        v,
        o,
        p,
        #[trigger] r.take(k),
        m,
        s,
    ) matches TalkView::Ask(q) ==> executed(w, v, session, profile, r.take(k), i, said)
        == TalkView::<Outcome>::Ask(q)) by {
        lemma_implied_holds(session, Some(w.manifest.project@), Here::Absent, r, i, said, k);
    }
    assert(run_turn(w, v, session, profile, r, i, said, p, all[j], m, s));
}

/// A verb that succeeds has, in every session that has a command for it:
/// delivered the job, run it, and then taken the results out; and after a run it
/// has had a point to return to taken, of every dataset that is reset.
#[verifier::rlimit(60)]
#[verifier::spinoff_prover]
pub proof fn law_a_run_that_succeeds_missed_nothing(
    w: Work,
    v: Verb,
    session: Option<Seq<char>>,
    profile: Option<Seq<char>>,
    r: Seq<Reply>,
    i: int,
    said: Said,
    p: Option<Profile>,
    all: Seq<Session>,
    j: int,
    d: int,
)
    requires
        0 <= i <= r.len(),
        acts_on(w, session, r, i, said, all),
        profiled(*w.manifest, profile, p),
        0 <= j < all.len(),
        has_command(guest_named(w.manifest.guests@, all[j].guest@)->0, v),
        executed(w, v, session, profile, r, i, said) matches TalkView::Done(Ok(_), _, _),
    ensures
        ({
            let g = guest_named(w.manifest.guests@, all[j].guest@)->0;
            exists|a: int, b: int, c: int|
                #![trigger r.take(a), r.take(b), r.take(c)]
                {
                    &&& i <= a < b < c < r.len()
                    &&& executed(
                        w,
                        v,
                        session,
                        profile,
                        r.take(a),
                        i,
                        said,
                    ) matches TalkView::Ask(q) && is_upload(v, p, all[j], g, q.deed)
                    &&& executed(
                        w,
                        v,
                        session,
                        profile,
                        r.take(b),
                        i,
                        said,
                    ) matches TalkView::Ask(q) && is_job(w, v, p, all[j], g, r.take(b), q.deed)
                    &&& executed(
                        w,
                        v,
                        session,
                        profile,
                        r.take(c),
                        i,
                        said,
                    ) matches TalkView::Ask(q) && is_collection(w, all[j], r.take(c), q.deed)
                    &&& v == Verb::Run && 0 <= d < w.manifest.reset@.len() ==> exists|e: int|
                        c < e < r.len() && (executed(
                            w,
                            v,
                            session,
                            profile,
                            #[trigger] r.take(e),
                            i,
                            said,
                        ) matches TalkView::Ask(q) && is_pristine(
                            all[j],
                            w.manifest.reset@[d]@,
                            q.deed,
                        ))
                }
        }),
{
    let f = implied(session, Some(w.manifest.project@), Here::Absent, r, i, said);
    let n = f->Done_1;
    let t = f->Done_2;
    lemma_implied_holds(session, Some(w.manifest.project@), Here::Absent, r, i, said, i);
    lemma_all_executed(w, v, p, all, 0, r, n, t, j);
    let (m, s) = choose|m: int, s: Said|
        #[trigger] loop_turn(w, v, p, all, 0, r, n, t, all[j], m, s) && went_well(
            w,
            v,
            p,
            r,
            all[j],
            m,
            s,
        );
    let g = guest_named(w.manifest.guests@, all[j].guest@)->0;
    let o = order(g, v)->0;
    assert(ready_for(*w.manifest, all[j], v));
    lemma_attempted_steps(w, all[j], g, v, o, p, r, m, s, d);
    let a = m + 2;
    let b = m + 5;
    let c = m + 6;
    lemma_implied_holds(session, Some(w.manifest.project@), Here::Absent, r, i, said, a);
    lemma_implied_holds(session, Some(w.manifest.project@), Here::Absent, r, i, said, b);
    lemma_implied_holds(session, Some(w.manifest.project@), Here::Absent, r, i, said, c);
    assert(attempted(w, all[j], g, v, o, p, r.take(a), m, s) is Ask);
    assert(attempted(w, all[j], g, v, o, p, r.take(b), m, s) is Ask);
    assert(attempted(w, all[j], g, v, o, p, r.take(c), m, s) is Ask);
    if v == Verb::Run && 0 <= d < w.manifest.reset@.len() {
        let e = m + 7 + d;
        lemma_implied_holds(session, Some(w.manifest.project@), Here::Absent, r, i, said, e);
        assert(attempted(w, all[j], g, v, o, p, r.take(e), m, s) is Ask);
        assert(executed(w, v, session, profile, r.take(e), i, said) is Ask);
    }
}

proof fn lemma_all_executed_holds(
    w: Work,
    v: Verb,
    p: Option<Profile>,
    all: Seq<Session>,
    failures: nat,
    r: Seq<Reply>,
    i: int,
    said: Said,
    k: int,
)
    requires
        0 <= i <= k <= r.len(),
    ensures
        all_executed(w, v, p, all, failures, r, i, said) matches TalkView::Done(_, n, _) ==> i <= n
            <= r.len() && (n <= k ==> all_executed(w, v, p, all, failures, r.take(k), i, said)
            == all_executed(w, v, p, all, failures, r, i, said)),
    decreases all.len(),
{
    if all.len() > 0 {
        let x = all[0];
        let g = guest_named(w.manifest.guests@, x.guest@)->0;
        if obstacle(*w.manifest, x, v) is None {
            match order(g, v) {
                None => {
                    lemma_all_executed_holds(
                        w,
                        v,
                        p,
                        all.skip(1),
                        failures,
                        r,
                        i,
                        said.push(
                            (false, x.name@ + ": "@ + g.name@ + " declares no build; skipping"@),
                        ),
                        k,
                    );
                },
                Some(o) => {
                    lemma_attempted(w, x, g, v, o, p, r, i, said, k);
                    match attempted(w, x, g, v, o, p, r, i, said) {
                        TalkView::Ask(q) => {},
                        TalkView::Done(outcome, n, t) => {
                            let (f, s) = match outcome {
                                Ok(_) => (failures, t),
                                Err(e) => (
                                    failures + 1,
                                    reported(
                                        t,
                                        x,
                                        x.name@ + ": "@ + label_of(v) + " failed: "@ + e,
                                        reached(r, n, w.start),
                                    ),
                                ),
                            };
                            let l = if k >= n {
                                k
                            } else {
                                n
                            };
                            lemma_all_executed_holds(w, v, p, all.skip(1), f, r, n, s, l);
                            assert(0 < n <= k ==> r.take(k)[n - 1] == r[n - 1]);
                        },
                    }
                },
            }
        }
    }
}

/// What a `build` or a `run` comes to does not change as more is heard.
pub proof fn lemma_executed_holds(
    w: Work,
    v: Verb,
    session: Option<Seq<char>>,
    profile: Option<Seq<char>>,
    r: Seq<Reply>,
    i: int,
    said: Said,
    k: int,
)
    requires
        0 <= i <= k <= r.len(),
    ensures
        executed(w, v, session, profile, r, i, said) matches TalkView::Done(_, n, _) ==> i <= n
            <= r.len() && (n <= k ==> executed(w, v, session, profile, r.take(k), i, said)
            == executed(w, v, session, profile, r, i, said)),
{
    let project = w.manifest.project@;
    lemma_implied_holds(session, Some(project), Here::Absent, r, i, said, k);
    match profile_of(*w.manifest, profile) {
        Ok(p) => match implied(session, Some(project), Here::Absent, r, i, said) {
            TalkView::Done(Ok(all), n, t) => {
                let l = if k >= n {
                    k
                } else {
                    n
                };
                lemma_all_executed_holds(w, v, p, all, 0, r, n, t, l);
            },
            _ => {},
        },
        _ => {},
    }
}

}
