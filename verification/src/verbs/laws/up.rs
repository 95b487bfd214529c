//! What `up` promises.
use vstd::prelude::*;
use vstd::string::*;

use crate::address::Address;
use crate::config::{registry, Config};
use crate::dict::{find, names};
use crate::manifest::{Guest, Manifest};
use crate::session::{Session, SessionView};
use crate::text::{join, texts};
use crate::verbs::common::{all_images, law_each_image_is_fetched_once, ordered};
use crate::verbs::deeds::{
    machine_of, pid_of, text_of, unit_of, Deed, DeedView, Event, Outcome, Reply, Said, TalkView,
};
use crate::verbs::laws::{awaited, moment};
use crate::verbs::up::{
    all_up, beating, brought_up, completed, fresh, newborn, one_up, prefetched, prepared, raised,
    reachable, readied, renewing, reused, revived, triggered, Site,
};

verus! {

/// One session per guest: the project alone names it where the manifest has one
/// guest, and the project and the guest where it has more.
pub open spec fn called(m: Manifest, g: Guest, name: Seq<char>) -> bool {
    if m.guests@.len() == 1 {
        name == m.project@
    } else {
        name == m.project@ + "-"@ + g.name@
    }
}

/// The provider made this machine.
pub open spec fn made_here(r: Seq<Reply>, machine: Seq<char>) -> bool {
    exists|k: int|
        0 <= k < r.len() && ((#[trigger] r[k].event) matches Event::Machine(m) && m.0@ == machine)
}

/// The provider said that a machine is at this address.
pub open spec fn found_at(r: Seq<Reply>, a: Address) -> bool {
    exists|k: int| 0 <= k < r.len() && (#[trigger] r[k].event) == Event::Address(Some(a))
}

/// An image that a guest declares: what its build runs in, what its run runs in,
/// or one that the run wants fetched.
pub open spec fn declares(g: Guest, image: Seq<char>) -> bool {
    ||| g.build matches Some(b) && (b.image matches Some(i) && i@ == image)
    ||| g.run.image matches Some(i) && i@ == image
    ||| texts(g.run.images@).contains(image)
}

pub open spec fn all_declared(g: Guest, images: Seq<Seq<char>>) -> bool {
    &&& forall|s: Seq<char>| #[trigger] images.contains(s) <==> declares(g, s)
    &&& images.no_duplicates()
}

/// A machine as it is asked for: with what the guest wants of cores, memory and
/// disk, made from the template that the site registers for it, and due to expire
/// when the readiness grace runs out.
pub open spec fn of_a_birth(
    site: Site,
    g: Guest,
    r: Seq<Reply>,
    d: DeedView,
) -> bool {
    &&& d matches Deed::Create { name, template, cores, ram_gb, disk_gb, expires_at }
    &&& called(*site.manifest, g, name)
    &&& find(registry(site.cfg.guests@), g.name@) == Some(template)
    &&& cores == g.resources.cores
    &&& ram_gb == g.resources.ram_gb
    &&& disk_gb == Some(
        if g.resources.disk_gb is Some {
            g.resources.disk_gb->0
        } else {
            site.cfg.session.default_disk_gb
        },
    )
    &&& exists|k: int|
        #[trigger] awaited(r, k, d) && expires_at == moment(r, k, site.start)
            + site.cfg.session.ready_grace@
}

/// What a record of a new session says, whenever it is written.
pub open spec fn of_this_guest(
    site: Site,
    g: Guest,
    ttl: int,
    r: Seq<Reply>,
    s: SessionView,
) -> bool {
    &&& called(*site.manifest, g, s.name)
    &&& s.project == site.manifest.project@
    &&& s.guest == g.name@
    &&& find(registry(site.cfg.guests@), g.name@) == Some(s.template)
    &&& made_here(r, s.machine)
    &&& s.ttl == ttl
    &&& s.heartbeat_pid is None
    &&& s.synced_at is None
}

/// A session's record: right after its machine was made it has no address and
/// expires with the grace; once the machine is ready it has an address that
/// answered, and expires its whole time to live after it became ready.
pub open spec fn of_a_record(
    site: Site,
    g: Guest,
    ttl: int,
    r: Seq<Reply>,
    d: DeedView,
) -> bool {
    &&& d matches Deed::Put(s)
    &&& of_this_guest(site, g, ttl, r, s)
    &&& exists|k: int|
        {
            &&& #[trigger] awaited(r, k, d)
            &&& k > 0
            &&& match s.address {
                None => {
                    &&& r[k - 1].event matches Event::Machine(m) && m.0@ == s.machine
                    &&& s.created_at == moment(r, k - 1, site.start)
                    &&& s.ready_at is None
                    &&& s.expires_at == s.created_at + site.cfg.session.ready_grace@
                },
                Some(a) => {
                    &&& found_at(r, a)
                    &&& r[k - 1].event is Done
                    &&& s.ready_at == Some(moment(r, k - 1, site.start))
                    &&& s.expires_at == moment(r, k - 1, site.start) + ttl
                },
            }
        }
}

/// What bringing up a guest's session may ask for.
pub open spec fn of_an_up(site: Site, g: Guest, ttl: int, r: Seq<Reply>, d: DeedView) -> bool {
    match d {
        Deed::Get(name) => called(*site.manifest, g, name),
        Deed::Machines => true,
        Deed::List => true,
        Deed::Alive(pid) => exists|k: int|
            0 <= k < r.len() && ((#[trigger] r[k].event) matches Event::Found(Some(x))
                && x.heartbeat_pid == Some(pid)),
        Deed::StartHeartbeat(name) => called(*site.manifest, g, name),
        Deed::RecordHeartbeat(name, pid) => called(*site.manifest, g, name) && exists|k: int|
            #[trigger] awaited(r, k, d) && k > 0 && r[k - 1].event == Event::Pid(pid),
        Deed::Create { .. } => of_a_birth(site, g, r, d),
        Deed::Put(_) => of_a_record(site, g, ttl, r, d),
        Deed::Start(machine) => made_here(r, machine),
        Deed::AddressOf(machine) => made_here(r, machine),
        Deed::SetExpiry(machine, at) => made_here(r, machine) && exists|k: int|
            #[trigger] awaited(r, k, d) && k > 0 && at == r[k - 1].at@ + ttl,
        Deed::ForgetHosts(name) => called(*site.manifest, g, name),
        Deed::UploadRunner { session, address } => called(*site.manifest, g, session) && found_at(
            r,
            address,
        ),
        Deed::Run { session, address, command, .. } => {
            &&& called(*site.manifest, g, session)
            &&& found_at(r, address)
            &&& {
                ||| command == "true"@
                ||| command == "/tmp/reaper-runner.sh"@ + " firstboot"@
                ||| site.manifest.reset@.len() > 0 && command == "/tmp/reaper-runner.sh"@
                    + " control --project "@ + site.manifest.project@ + " start"@
            }
        },
        Deed::RunLive { session, address, command, .. } => {
            &&& called(*site.manifest, g, session)
            &&& found_at(r, address)
            &&& exists|images: Seq<Seq<char>>|
                #[trigger] all_declared(g, images) && command == "/tmp/reaper-runner.sh"@
                    + " pull "@ + join(images, " "@)
        },
        _ => false,
    }
}

/// Every image that a guest declares is fetched, once, and no other.
pub proof fn law_what_is_declared_is_fetched(g: Guest)
    ensures
        all_declared(g, names(ordered(all_images(g)))),
{
    let t = all_images(g);
    let o = ordered(t);
    let v = names(o);
    law_each_image_is_fetched_once(t);
    crate::dict::lemma_ascending_distinct(o);
    let b: Seq<Seq<char>> = match g.build {
        Some(b) => crate::verbs::common::maybe_one(b.image),
        None => Seq::empty(),
    };
    let own = crate::verbs::common::maybe_one(g.run.image);
    let more = texts(g.run.images@);
    assert(t =~= b + own + more);
    assert forall|s: Seq<char>| #[trigger] v.contains(s) <==> declares(g, s) by {
        if v.contains(s) {
            let k = choose|k: int| 0 <= k < v.len() && v[k] == s;
            assert(o[k].0 == s);
            assert(t.contains(o[k].0));
            let l = choose|l: int| 0 <= l < t.len() && t[l] == s;
            if l < b.len() {
                assert(b[l] == s);
            } else if l < b.len() + own.len() {
                assert(own[l - b.len()] == s);
            } else {
                assert(more[l - b.len() - own.len()] == s);
            }
        }
        if declares(g, s) {
            if g.build matches Some(x) && (x.image matches Some(i) && i@ == s) {
                assert(t[0] == s);
            } else if g.run.image matches Some(i) && i@ == s {
                assert(t[b.len() as int] == s);
            } else {
                let l = choose|l: int| 0 <= l < more.len() && more[l] == s;
                assert(t[b.len() + own.len() + l] == s);
            }
        }
    }
    assert forall|i: int, j: int| 0 <= i < v.len() && 0 <= j < v.len() && i != j implies v[i]
        != v[j] by {
        if i < j {
            assert(o[i].0 != o[j].0);
        } else {
            assert(o[j].0 != o[i].0);
        }
    }
}

#[verifier::rlimit(60)]
#[verifier::spinoff_prover]
proof fn lemma_reachable(
    site: Site,
    g: Guest,
    ttl: int,
    name: Seq<char>,
    machine: Seq<char>,
    deadline: int,
    r: Seq<Reply>,
    i: int,
    said: Said,
    last: Option<Seq<char>>,
    pause: u64,
)
    requires
        0 < i <= r.len(),
        called(*site.manifest, g, name),
        made_here(r, machine),
    ensures
        match reachable(site, name, machine, deadline, r, i, said, last, pause) {
            TalkView::Ask(q) => of_an_up(site, g, ttl, r, q.deed),
            TalkView::Done(o, n, _) => i <= n <= r.len() && (o matches Ok(Some(a)) ==> found_at(
                r,
                a,
            )),
        },
    decreases r.len() - i,
{
    if i < r.len() {
        match r[i].event {
            Event::Address(None) => {
                if r[i].at@ < deadline {
                    lemma_reachable(
                        site,
                        g,
                        ttl,
                        name,
                        machine,
                        deadline,
                        r,
                        i + 1,
                        Seq::empty(),
                        last,
                        3,
                    );
                }
            },
            Event::Address(Some(a)) => {
                assert(found_at(r, a));
                if i + 1 < r.len() {
                    match text_of(r[i + 1].event) {
                        Some(Err(e)) => {
                            let text = crate::address::address_text(a) + ": "@ + e;
                            if r[i + 1].at@ < deadline {
                                lemma_reachable(
                                    site,
                                    g,
                                    ttl,
                                    name,
                                    machine,
                                    deadline,
                                    r,
                                    i + 2,
                                    crate::verbs::up::note(Seq::empty(), name, last, text),
                                    Some(text),
                                    3,
                                );
                            }
                        },
                        _ => {},
                    }
                }
            },
            _ => {},
        }
    }
}

proof fn lemma_readied(
    site: Site,
    g: Guest,
    new: SessionView,
    a: Address,
    ttl: int,
    r: Seq<Reply>,
    i: int,
    said: Said,
)
    requires
        0 < i <= r.len(),
        of_this_guest(site, g, ttl, r, new),
        found_at(r, a),
    ensures
        match readied(site, new, a, ttl, r, i, said) {
            TalkView::Ask(q) => of_an_up(site, g, ttl, r, q.deed),
            TalkView::Done(_, n, _) => i <= n <= r.len(),
        },
{
    let ready_at = r[i - 1].at@;
    let set: DeedView = Deed::SetExpiry(new.machine, ready_at + ttl);
    let put: DeedView = Deed::Put(
        SessionView {
            address: Some(a),
            ready_at: Some(ready_at),
            expires_at: ready_at + ttl,
            ..new
        },
    );
    if i >= r.len() || unit_of(r[i].event) is None {
        assert(awaited(r, i, set));
    } else if unit_of(r[i].event)->0 is Ok {
        if i + 1 >= r.len() || unit_of(r[i + 1].event) is None {
            assert(awaited(r, i + 1, put));
            assert(of_a_record(site, g, ttl, r, put));
        } else if unit_of(r[i + 1].event)->0 is Ok {
            lemma_renewing(site, g, ttl, new.name, r, i + 2, Seq::empty());
        }
    }
}

proof fn lemma_renewing(
    site: Site,
    g: Guest,
    ttl: int,
    name: Seq<char>,
    r: Seq<Reply>,
    i: int,
    said: Said,
)
    requires
        0 <= i <= r.len(),
        called(*site.manifest, g, name),
    ensures
        match renewing(name, r, i, said) {
            TalkView::Ask(q) => of_an_up(site, g, ttl, r, q.deed),
            TalkView::Done(_, n, _) => i <= n <= r.len(),
        },
        match revived(name, false, r, i, said) {
            TalkView::Ask(q) => of_an_up(site, g, ttl, r, q.deed),
            TalkView::Done(_, n, _) => i <= n <= r.len(),
        },
{
    if i < r.len() {
        match pid_of(r[i].event) {
            Some(Ok(pid)) => {
                let d: DeedView = Deed::RecordHeartbeat(name, pid);
                if i + 1 >= r.len() || unit_of(r[i + 1].event) is None {
                    assert(awaited(r, i + 1, d));
                }
            },
            _ => {},
        }
    }
}

proof fn lemma_completed(
    site: Site,
    g: Guest,
    new: SessionView,
    a: Address,
    r: Seq<Reply>,
    i: int,
    said: Said,
)
    requires
        0 < i <= r.len(),
        of_this_guest(site, g, new.ttl, r, new),
        found_at(r, a),
    ensures
        match completed(site, g, new, a, r, i, said) {
            TalkView::Ask(q) => of_an_up(site, g, new.ttl, r, q.deed),
            TalkView::Done(_, n, _) => i <= n <= r.len(),
        },
{
    law_what_is_declared_is_fetched(g);
    let images = names(ordered(all_images(g)));
    match prepared(site, new.name, a, r, i, said) {
        TalkView::Done(Ok(_), n, s) => match prefetched(new.name, a, images, r, n, s) {
            TalkView::Ask(q) => {
                assert(all_declared(g, images));
            },
            TalkView::Done(_, n, s) => match triggered(site, new.name, a, r, n, s) {
                TalkView::Done(Ok(_), n, s) => {
                    lemma_readied(site, g, new, a, new.ttl, r, n, s);
                },
                _ => {},
            },
        },
        _ => {},
    }
}

proof fn lemma_raised(
    site: Site,
    g: Guest,
    new: SessionView,
    r: Seq<Reply>,
    i: int,
    said: Said,
)
    requires
        0 < i <= r.len(),
        of_this_guest(site, g, new.ttl, r, new),
        new.address is None,
        new.ready_at is None,
        r[i - 1].event matches Event::Machine(m) && m.0@ == new.machine,
        new.created_at == moment(r, i - 1, site.start),
        new.expires_at == new.created_at + site.cfg.session.ready_grace@,
    ensures
        match raised(site, g, new, r, i, said) {
            TalkView::Ask(q) => of_an_up(site, g, new.ttl, r, q.deed),
            TalkView::Done(_, n, _) => i <= n <= r.len(),
        },
{
    let put: DeedView = Deed::Put(new);
    if i >= r.len() || unit_of(r[i].event) is None {
        assert(awaited(r, i, put));
        assert(of_a_record(site, g, new.ttl, r, put));
    } else if unit_of(r[i].event)->0 is Ok && i + 1 < r.len() && unit_of(r[i + 1].event) == Some(
        Ok::<(), Seq<char>>(()),
    ) && i + 2 < r.len() && unit_of(r[i + 2].event) == Some(Ok::<(), Seq<char>>(())) {
        lemma_reachable(
            site,
            g,
            new.ttl,
            new.name,
            new.machine,
            new.expires_at,
            r,
            i + 3,
            Seq::empty(),
            None,
            0,
        );
        match reachable(
            site,
            new.name,
            new.machine,
            new.expires_at,
            r,
            i + 3,
            Seq::empty(),
            None,
            0,
        ) {
            TalkView::Done(Ok(Some(a)), n, s) => {
                lemma_completed(site, g, new, a, r, n, s);
            },
            _ => {},
        }
    }
}

#[verifier::rlimit(60)]
#[verifier::spinoff_prover]
proof fn lemma_one_up(site: Site, g: Guest, ttl: int, r: Seq<Reply>, i: int, said: Said)
    requires
        0 <= i <= r.len(),
        find(registry(site.cfg.guests@), g.name@) is Some,
    ensures
        match one_up(site, g, ttl, r, i, said) {
            TalkView::Ask(q) => of_an_up(site, g, ttl, r, q.deed),
            TalkView::Done(_, n, _) => i <= n <= r.len(),
        },
{
    reveal(one_up);
    let name = crate::verbs::common::name_of(
        site.manifest.project@,
        g.name@,
        site.manifest.guests@.len() == 1,
    );
    assert(called(*site.manifest, g, name));
    if i < r.len() {
        match r[i].event {
            Event::Found(Some(x)) => {
                if i + 2 <= r.len() {
                    lemma_renewing(site, g, ttl, name, r, i + 2, Seq::empty());
                }
                if i + 3 <= r.len() {
                    lemma_renewing(site, g, ttl, name, r, i + 3, Seq::empty());
                }
            },
            Event::Found(None) => {
                lemma_fresh(site, g, name, ttl, r, i + 1, Seq::empty());
            },
            _ => {},
        }
    }
}

proof fn lemma_fresh(
    site: Site,
    g: Guest,
    name: Seq<char>,
    ttl: int,
    r: Seq<Reply>,
    i: int,
    said: Said,
)
    requires
        0 <= i <= r.len(),
        called(*site.manifest, g, name),
        find(registry(site.cfg.guests@), g.name@) is Some,
    ensures
        match fresh(site, g, name, ttl, r, i, said) {
            TalkView::Ask(q) => of_an_up(site, g, ttl, r, q.deed),
            TalkView::Done(_, n, _) => i <= n <= r.len(),
        },
{
    if i < r.len() && r[i].event is Machines {
        let created = r[i].at@;
        let d = crate::verbs::up::birth(site, g, name, created);
        let template = crate::verbs::up::template_of(*site.cfg, g);
        if i + 1 >= r.len() || machine_of(r[i + 1].event) is None {
            assert(awaited(r, i + 1, d));
            assert(of_a_birth(site, g, r, d));
        } else {
            match r[i + 1].event {
                Event::Machine(m) => {
                    let new = newborn(site, g, name, template, m.0@, created, ttl);
                    assert(made_here(r, m.0@));
                    lemma_raised(site, g, new, r, i + 2, Seq::empty());
                },
                _ => {},
            }
        }
    }
}

proof fn lemma_all_up(site: Site, wanted: Seq<Guest>, ttl: int, r: Seq<Reply>, i: int, said: Said)
    requires
        0 <= i <= r.len(),
        forall|j: int|
            0 <= j < wanted.len() ==> find(
                registry(site.cfg.guests@),
                (#[trigger] wanted[j]).name@,
            ) is Some,
    ensures
        match all_up(site, wanted, ttl, r, i, said) {
            TalkView::Ask(q) => exists|j: int|
                0 <= j < wanted.len() && of_an_up(site, #[trigger] wanted[j], ttl, r, q.deed),
            TalkView::Done(_, n, _) => i <= n <= r.len(),
        },
    decreases wanted.len(),
{
    if wanted.len() > 0 {
        let rest = wanted.skip(1);
        lemma_one_up(site, wanted[0], ttl, r, i, said);
        match one_up(site, wanted[0], ttl, r, i, said) {
            TalkView::Ask(q) => {},
            TalkView::Done(Ok(_), n, s) => {
                assert(forall|j: int| 0 <= j < rest.len() ==> rest[j] == wanted[j + 1]);
                lemma_all_up(site, rest, ttl, r, n, s);
                match all_up(site, rest, ttl, r, n, s) {
                    TalkView::Ask(q) => {
                        let j = choose|j: int|
                            0 <= j < rest.len() && of_an_up(
                                site,
                                #[trigger] rest[j],
                                ttl,
                                r,
                                q.deed,
                            );
                        assert(wanted[j + 1] == rest[j]);
                    },
                    _ => {},
                }
            },
            _ => {},
        }
    }
}

proof fn lemma_registered(cfg: Config, wanted: Seq<Guest>)
    requires
        crate::verbs::up::first_unregistered(cfg, wanted) is None,
    ensures
        forall|j: int|
            0 <= j < wanted.len() ==> find(
                registry(cfg.guests@),
                (#[trigger] wanted[j]).name@,
            ) is Some,
    decreases wanted.len(),
{
    if wanted.len() > 0 {
        let rest = wanted.skip(1);
        lemma_registered(cfg, rest);
        assert forall|j: int| 0 <= j < wanted.len() implies find(
            registry(cfg.guests@),
            (#[trigger] wanted[j]).name@,
        ) is Some by {
            if j > 0 {
                assert(rest[j - 1] == wanted[j]);
            }
        }
    }
}

/// A guest that is to be brought up: the one that was named, or any of the
/// manifest's where none was.
pub open spec fn wants(m: Manifest, guest: Option<Seq<char>>, g: Guest) -> bool {
    m.guests@.contains(g) && (guest matches Some(name) ==> g.name@ == name)
}

/// How long a session is to last: what was asked for stands before what the
/// profile says, and that before what the site does by default.
pub open spec fn lasting(
    cfg: Config,
    m: Manifest,
    profile: Option<Seq<char>>,
    ttl: Option<Seq<char>>,
    span: int,
) -> bool {
    match ttl {
        Some(t) => crate::duration::reading(t) matches Ok(secs) && span == secs * 1_000_000_000,
        None => match profile {
            None => span == cfg.session.default_ttl@,
            Some(name) => find(m.profiles@, name) matches Some(p) && (match p.ttl {
                Some(t) => crate::duration::reading(t@) matches Ok(secs) && span == secs
                    * 1_000_000_000,
                None => span == cfg.session.default_ttl@,
            }),
        },
    }
}

/// Whatever `up` asks for, it probes the store or makes the provider ready, or it
/// is about one guest that was wanted: the machine has the cores, the memory and
/// the disk that this guest asks for; the record says whose it is; and the
/// session expires, on the machine and in the record, when its time to live has
/// passed since it became ready.
pub proof fn law_what_up_asks_for(
    site: Site,
    guest: Option<Seq<char>>,
    profile: Option<Seq<char>>,
    ttl: Option<Seq<char>>,
    key_present: bool,
    r: Seq<Reply>,
)
    ensures
        brought_up(site, guest, profile, ttl, key_present, r) matches TalkView::Ask(q) ==> (
        match q.deed {
            Deed::ProbeStore => true,
            Deed::Provider => true,
            d => exists|g: Guest, span: int|
                #![trigger wants(*site.manifest, guest, g), lasting(
                    *site.cfg,
                    *site.manifest,
                    profile,
                    ttl,
                    span,
                )]
                wants(*site.manifest, guest, g) && lasting(
                    *site.cfg,
                    *site.manifest,
                    profile,
                    ttl,
                    span,
                ) && of_an_up(site, g, span, r, d),
        }),
{
    match crate::verbs::up::wanted_of(*site.manifest, guest) {
        Ok(wanted) => {
            if crate::verbs::up::first_unregistered(*site.cfg, wanted) is None && r.len() > 1
                && unit_of(r[0].event) == Some(Ok::<(), Seq<char>>(())) && unit_of(r[1].event)
                == Some(Ok::<(), Seq<char>>(())) {
                lemma_registered(*site.cfg, wanted);
                match crate::verbs::common::ttl_of(*site.cfg, *site.manifest, profile, ttl) {
                    Ok(span) => {
                        assert(lasting(*site.cfg, *site.manifest, profile, ttl, span));
                        lemma_all_up(site, wanted, span, r, 2, Seq::empty());
                        match all_up(site, wanted, span, r, 2, Seq::empty()) {
                            TalkView::Ask(q) => {
                                let j = choose|j: int|
                                    0 <= j < wanted.len() && of_an_up(
                                        site,
                                        #[trigger] wanted[j],
                                        span,
                                        r,
                                        q.deed,
                                    );
                                if guest is Some {
                                    crate::verbs::laws::running::law_a_guest_is_found_by_its_name(
                                        site.manifest.guests@,
                                        guest->0,
                                    );
                                }
                                assert(wants(*site.manifest, guest, wanted[j]));
                            },
                            _ => {},
                        }
                    },
                    _ => {},
                }
            }
        },
        _ => {},
    }
}

#[verifier::rlimit(60)]
#[verifier::spinoff_prover]
proof fn lemma_reachable_holds(
    site: Site,
    name: Seq<char>,
    machine: Seq<char>,
    deadline: int,
    r: Seq<Reply>,
    i: int,
    said: Said,
    last: Option<Seq<char>>,
    pause: u64,
    k: int,
)
    requires
        0 < i <= k <= r.len(),
    ensures
        reachable(site, name, machine, deadline, r, i, said, last, pause) matches TalkView::Done(
            o,
            n,
            _,
        ) ==> {
            &&& i < n <= r.len()
            &&& n <= k ==> reachable(site, name, machine, deadline, r.take(k), i, said, last, pause)
                == reachable(site, name, machine, deadline, r, i, said, last, pause)
            &&& o == Ok::<Option<Address>, Seq<char>>(None) ==> r[n - 1].at@ >= deadline
            &&& reachable(
                site,
                name,
                machine,
                deadline,
                r.take(i),
                i,
                said,
                last,
                pause,
            ) matches TalkView::Ask(q) && q.pause == pause && (q.deed matches Deed::AddressOf(m)
                && m == machine)
        },
    decreases r.len() - i,
{
    assert(i < k ==> r.take(k)[i] == r[i]);
    assert(i + 1 < k ==> r.take(k)[i + 1] == r[i + 1]);
    if i < r.len() {
        match r[i].event {
            Event::Address(None) => {
                if r[i].at@ < deadline {
                    let l = if k > i {
                        k
                    } else {
                        i + 1
                    };
                    lemma_reachable_holds(
                        site,
                        name,
                        machine,
                        deadline,
                        r,
                        i + 1,
                        Seq::empty(),
                        last,
                        3,
                        l,
                    );
                }
            },
            Event::Address(Some(a)) => {
                if i + 1 < r.len() {
                    match text_of(r[i + 1].event) {
                        Some(Err(e)) => {
                            let text = crate::address::address_text(a) + ": "@ + e;
                            if r[i + 1].at@ < deadline {
                                let l = if k > i + 1 {
                                    k
                                } else {
                                    i + 2
                                };
                                lemma_reachable_holds(
                                    site,
                                    name,
                                    machine,
                                    deadline,
                                    r,
                                    i + 2,
                                    crate::verbs::up::note(Seq::empty(), name, last, text),
                                    Some(text),
                                    3,
                                    l,
                                );
                            }
                        },
                        _ => {},
                    }
                }
            },
            _ => {},
        }
    }
}

pub open spec fn is_firstboot(name: Seq<char>, d: DeedView) -> bool {
    d matches Deed::Run { session, command, .. } && session == name && command
        == "/tmp/reaper-runner.sh"@ + " firstboot"@
}

pub open spec fn is_fetch(name: Seq<char>, g: Guest, d: DeedView) -> bool {
    d matches Deed::RunLive { session, command, .. } && session == name && exists|
        images: Seq<Seq<char>>,
    |
        #[trigger] all_declared(g, images) && command == "/tmp/reaper-runner.sh"@ + " pull "@
            + join(images, " "@)
}

pub open spec fn is_trigger(name: Seq<char>, m: Manifest, d: DeedView) -> bool {
    d matches Deed::Run { session, command, .. } && session == name && command
        == "/tmp/reaper-runner.sh"@ + " control --project "@ + m.project@ + " start"@
}

pub open spec fn is_ready(name: Seq<char>, at: int, until: int, d: DeedView) -> bool {
    d matches Deed::Put(s) && s.name == name && s.address is Some && s.ready_at == Some(at)
        && s.expires_at == until
}

/// What a machine that answers is asked for by the time its session is up: its
/// storage; what the guest declares, if it declares anything; the reset trigger,
/// if anything is reset; then its real expiry, on the machine and in the record,
/// and its heartbeat, in this order.
spec fn all_done(
    site: Site,
    g: Guest,
    new: SessionView,
    a: Address,
    r: Seq<Reply>,
    i: int,
    said: Said,
    e: int,
) -> bool {
    let f = |q: Seq<Reply>| completed(site, g, new, a, q, i, said);
    &&& i + 1 < e < e + 2 < r.len()
    &&& f(r.take(i + 1)) matches TalkView::Ask(q) && is_firstboot(new.name, q.deed)
    &&& (exists|s: Seq<char>| #[trigger] declares(g, s)) ==> (f(
        r.take(i + 2),
    ) matches TalkView::Ask(q) && is_fetch(new.name, g, q.deed))
    &&& site.manifest.reset@.len() > 0 ==> (f(r.take(e - 1)) matches TalkView::Ask(q) && is_trigger(
        new.name,
        *site.manifest,
        q.deed,
    ))
    &&& f(r.take(e)) matches TalkView::Ask(q) && (q.deed matches Deed::SetExpiry(m, t) && m
        == new.machine && t == r[e - 1].at@ + new.ttl)
    &&& f(r.take(e + 1)) matches TalkView::Ask(q) && is_ready(
        new.name,
        r[e - 1].at@,
        r[e - 1].at@ + new.ttl,
        q.deed,
    )
    &&& f(r.take(e + 2)) matches TalkView::Ask(q) && (q.deed matches Deed::StartHeartbeat(n) && n
        == new.name)
}

#[verifier::rlimit(60)]
#[verifier::spinoff_prover]
proof fn lemma_readied_holds(
    site: Site,
    new: SessionView,
    a: Address,
    r: Seq<Reply>,
    i: int,
    said: Said,
    k: int,
)
    requires
        0 < i <= k <= r.len(),
    ensures
        match readied(site, new, a, new.ttl, r, i, said) {
            TalkView::Ask(_) => true,
            TalkView::Done(o, n, _) => {
                &&& i <= n <= r.len()
                &&& n <= k ==> readied(site, new, a, new.ttl, r.take(k), i, said) == readied(
                    site,
                    new,
                    a,
                    new.ttl,
                    r,
                    i,
                    said,
                )
                &&& o is Ok ==> {
                    &&& i + 2 < r.len()
                    &&& readied(site, new, a, new.ttl, r.take(i), i, said) matches TalkView::Ask(q)
                        && (q.deed matches Deed::SetExpiry(m, t) && m == new.machine && t == r[i
                        - 1].at@ + new.ttl)
                    &&& readied(
                        site,
                        new,
                        a,
                        new.ttl,
                        r.take(i + 1),
                        i,
                        said,
                    ) matches TalkView::Ask(q) && is_ready(
                        new.name,
                        r[i - 1].at@,
                        r[i - 1].at@ + new.ttl,
                        q.deed,
                    )
                    &&& readied(
                        site,
                        new,
                        a,
                        new.ttl,
                        r.take(i + 2),
                        i,
                        said,
                    ) matches TalkView::Ask(q) && (q.deed matches Deed::StartHeartbeat(n) && n
                        == new.name)
                }
            },
        },
{
    assert forall|l: int, m: int| 0 <= m < l <= r.len() implies #[trigger] r.take(l)[m] == r[m] by {}
    assert(r.take(k)[i - 1] == r[i - 1]);
    assert(i < k ==> r.take(k)[i] == r[i]);
    assert(i + 1 < k ==> r.take(k)[i + 1] == r[i + 1]);
    assert(i + 2 < k ==> r.take(k)[i + 2] == r[i + 2]);
    assert(i + 3 < k ==> r.take(k)[i + 3] == r[i + 3]);
    assert(r.take(i)[i - 1] == r[i - 1]);
    if i + 2 <= r.len() {
        assert(r.take(i + 1)[i - 1] == r[i - 1] && r.take(i + 1)[i] == r[i]);
        assert(r.take(i + 2)[i - 1] == r[i - 1] && r.take(i + 2)[i] == r[i] && r.take(i + 2)[i + 1]
            == r[i + 1]);
    }
}

#[verifier::rlimit(60)]
#[verifier::spinoff_prover]
proof fn lemma_completed_holds(
    site: Site,
    g: Guest,
    new: SessionView,
    a: Address,
    r: Seq<Reply>,
    i: int,
    said: Said,
    k: int,
)
    requires
        0 < i <= k <= r.len(),
    ensures
        match completed(site, g, new, a, r, i, said) {
            TalkView::Ask(_) => true,
            TalkView::Done(o, n, _) => {
                &&& i <= n <= r.len()
                &&& n <= k ==> completed(site, g, new, a, r.take(k), i, said) == completed(
                    site,
                    g,
                    new,
                    a,
                    r,
                    i,
                    said,
                )
                &&& o is Ok ==> exists|e: int| #[trigger]
                    all_done(site, g, new, a, r, i, said, e)
            },
        },
{
    law_what_is_declared_is_fetched(g);
    let images = names(ordered(all_images(g)));
    let n0 = r.len() as int;
    match prepared(site, new.name, a, r, i, said) {
        TalkView::Done(Ok(_), n, s) => {
            assert(n == i + 2);
            match prefetched(new.name, a, images, r, n, s) {
                TalkView::Done(_, m, s2) => {
                    match triggered(site, new.name, a, r, m, s2) {
                        TalkView::Done(Ok(_), e, s3) => {
                            lemma_completed_parts(site, g, new, a, r, i, said, n, s, m, s2, e, s3);
                            let k1 = if k >= e {
                                k
                            } else {
                                e
                            };
                            lemma_readied_holds(site, new, a, r, e, s3, k1);
                            assert(r.take(n0) =~= r);
                            assert(completed(site, g, new, a, r.take(k1), i, said) == readied(
                                site,
                                new,
                                a,
                                new.ttl,
                                r.take(k1),
                                e,
                                s3,
                            ));
                            assert(completed(site, g, new, a, r, i, said) == readied(
                                site,
                                new,
                                a,
                                new.ttl,
                                r,
                                e,
                                s3,
                            ));
                            if readied(site, new, a, new.ttl, r, e, s3) matches TalkView::Done(
                                Ok(_),
                                _,
                                _,
                            ) {
                                assert(completed(site, g, new, a, r.take(e), i, said) == readied(
                                    site,
                                    new,
                                    a,
                                    new.ttl,
                                    r.take(e),
                                    e,
                                    s3,
                                ));
                                assert(completed(site, g, new, a, r.take(e + 1), i, said)
                                    == readied(site, new, a, new.ttl, r.take(e + 1), e, s3));
                                assert(completed(site, g, new, a, r.take(e + 2), i, said)
                                    == readied(site, new, a, new.ttl, r.take(e + 2), e, s3));
                                assert(all_done(site, g, new, a, r, i, said, e)) by {
                                    lemma_completed_opening(
                                        site,
                                        g,
                                        new,
                                        a,
                                        r,
                                        i,
                                        said,
                                        n,
                                        s,
                                        m,
                                        s2,
                                        e,
                                        s3,
                                    );
                                }
                            }
                        },
                        _ => {
                            lemma_completed_short(site, g, new, a, r, i, said, k);
                        },
                    }
                },
                _ => {},
            }
        },
        _ => {
            lemma_completed_short(site, g, new, a, r, i, said, k);
        },
    }
}

/// A completion that ends before the machine is ready ends the same way however
/// much more is heard.
#[verifier::rlimit(60)]
#[verifier::spinoff_prover]
proof fn lemma_completed_short(
    site: Site,
    g: Guest,
    new: SessionView,
    a: Address,
    r: Seq<Reply>,
    i: int,
    said: Said,
    k: int,
)
    requires
        0 < i <= k <= r.len(),
        ({
            let images = names(ordered(all_images(g)));
            match prepared(site, new.name, a, r, i, said) {
                TalkView::Done(Ok(_), n, s) => match prefetched(new.name, a, images, r, n, s) {
                    TalkView::Done(_, m, s2) => !(triggered(
                        site,
                        new.name,
                        a,
                        r,
                        m,
                        s2,
                    ) matches TalkView::Done(Ok(_), _, _)),
                    _ => true,
                },
                _ => true,
            }
        }),
    ensures
        completed(site, g, new, a, r, i, said) matches TalkView::Done(o, n, _) ==> o is Err && i
            <= n <= r.len() && (n <= k ==> completed(site, g, new, a, r.take(k), i, said)
            == completed(site, g, new, a, r, i, said)),
{
    assert(i < k ==> r.take(k)[i] == r[i]);
    assert(i + 1 < k ==> r.take(k)[i + 1] == r[i + 1]);
    assert(i + 2 < k ==> r.take(k)[i + 2] == r[i + 2]);
    assert(i + 3 < k ==> r.take(k)[i + 3] == r[i + 3]);
}

#[verifier::rlimit(60)]
#[verifier::spinoff_prover]
proof fn lemma_completed_parts(
    site: Site,
    g: Guest,
    new: SessionView,
    a: Address,
    r: Seq<Reply>,
    i: int,
    said: Said,
    n: int,
    s: Said,
    m: int,
    s2: Said,
    e: int,
    s3: Said,
)
    requires
        0 < i <= r.len(),
        prepared(site, new.name, a, r, i, said) == TalkView::Done(
            Ok::<(), Seq<char>>(()),
            n,
            s,
        ),
        prefetched(new.name, a, names(ordered(all_images(g))), r, n, s) == TalkView::Done((), m, s2),
        triggered(site, new.name, a, r, m, s2) == TalkView::Done(Ok::<(), Seq<char>>(()), e, s3),
    ensures
        n == i + 2,
        n <= m <= e <= r.len(),
        forall|l: int|
            e <= l <= r.len() ==> completed(site, g, new, a, #[trigger] r.take(l), i, said)
                == readied(site, new, a, new.ttl, r.take(l), e, s3),
{
    assert forall|l: int| e <= l <= r.len() implies completed(
        site,
        g,
        new,
        a,
        #[trigger] r.take(l),
        i,
        said,
    ) == readied(site, new, a, new.ttl, r.take(l), e, s3) by {
        assert(r.take(l)[i] == r[i]);
        assert(r.take(l)[i + 1] == r[i + 1]);
        assert(n < m ==> r.take(l)[n] == r[n]);
        assert(m < e ==> r.take(l)[m] == r[m]);
        assert(prepared(site, new.name, a, r.take(l), i, said) == prepared(
            site,
            new.name,
            a,
            r,
            i,
            said,
        ));
        assert(prefetched(new.name, a, names(ordered(all_images(g))), r.take(l), n, s)
            == prefetched(new.name, a, names(ordered(all_images(g))), r, n, s));
        assert(triggered(site, new.name, a, r.take(l), m, s2) == triggered(
            site,
            new.name,
            a,
            r,
            m,
            s2,
        ));
    }
}

#[verifier::rlimit(60)]
#[verifier::spinoff_prover]
proof fn lemma_completed_opening(
    site: Site,
    g: Guest,
    new: SessionView,
    a: Address,
    r: Seq<Reply>,
    i: int,
    said: Said,
    n: int,
    s: Said,
    m: int,
    s2: Said,
    e: int,
    s3: Said,
)
    requires
        0 < i <= r.len(),
        prepared(site, new.name, a, r, i, said) == TalkView::Done(
            Ok::<(), Seq<char>>(()),
            n,
            s,
        ),
        prefetched(new.name, a, names(ordered(all_images(g))), r, n, s) == TalkView::Done((), m, s2),
        triggered(site, new.name, a, r, m, s2) == TalkView::Done(Ok::<(), Seq<char>>(()), e, s3),
    ensures
        completed(site, g, new, a, r.take(i + 1), i, said) matches TalkView::Ask(q)
            && is_firstboot(new.name, q.deed),
        (exists|x: Seq<char>| #[trigger] declares(g, x)) ==> (completed(
            site,
            g,
            new,
            a,
            r.take(i + 2),
            i,
            said,
        ) matches TalkView::Ask(q) && is_fetch(new.name, g, q.deed)),
        site.manifest.reset@.len() > 0 ==> (completed(
            site,
            g,
            new,
            a,
            r.take(e - 1),
            i,
            said,
        ) matches TalkView::Ask(q) && is_trigger(new.name, *site.manifest, q.deed)),
{
    law_what_is_declared_is_fetched(g);
    let images = names(ordered(all_images(g)));
    assert(all_declared(g, images));
    assert(r.take(i + 1)[i] == r[i]);
    assert(r.take(i + 2)[i] == r[i] && r.take(i + 2)[i + 1] == r[i + 1]);
    if exists|x: Seq<char>| #[trigger] declares(g, x) {
        let x = choose|x: Seq<char>| #[trigger] declares(g, x);
        assert(images.contains(x));
        assert(images.len() > 0);
    }
    if site.manifest.reset@.len() > 0 {
        let l = e - 1;
        assert(l == m);
        assert(r.take(l)[i] == r[i] && r.take(l)[i + 1] == r[i + 1]);
        assert(n < m ==> r.take(l)[n] == r[n]);
        assert(prepared(site, new.name, a, r.take(l), i, said) == prepared(
            site,
            new.name,
            a,
            r,
            i,
            said,
        ));
        assert(prefetched(new.name, a, images, r.take(l), n, s) == prefetched(
            new.name,
            a,
            images,
            r,
            n,
            s,
        ));
    }
}

/// What a machine that answers is asked for, as a part of a conversation.
pub open spec fn outfits(
    f: spec_fn(Seq<Reply>) -> TalkView<Outcome>,
    site: Site,
    g: Guest,
    name: Seq<char>,
    machine: Seq<char>,
    ttl: int,
    r: Seq<Reply>,
    b: int,
    e: int,
) -> bool {
    &&& 0 <= b < b + 1 < e < e + 2 < r.len()
    &&& f(r.take(b + 1)) matches TalkView::Ask(q) && is_firstboot(name, q.deed)
    &&& (exists|s: Seq<char>| #[trigger] declares(g, s)) ==> (f(
        r.take(b + 2),
    ) matches TalkView::Ask(q) && is_fetch(name, g, q.deed))
    &&& site.manifest.reset@.len() > 0 ==> (f(r.take(e - 1)) matches TalkView::Ask(q) && is_trigger(
        name,
        *site.manifest,
        q.deed,
    ))
    &&& f(r.take(e)) matches TalkView::Ask(q) && (q.deed matches Deed::SetExpiry(m, t) && m
        == machine && t == r[e - 1].at@ + ttl)
    &&& f(r.take(e + 1)) matches TalkView::Ask(q) && is_ready(
        name,
        r[e - 1].at@,
        r[e - 1].at@ + ttl,
        q.deed,
    )
    &&& f(r.take(e + 2)) matches TalkView::Ask(q) && (q.deed matches Deed::StartHeartbeat(n) && n
        == name)
}

/// A guest's part of a conversation that brings it up, from reply `i` on.
///
/// Its session is looked for. Where there is none, the machines are counted; one
/// is made; it is recorded, started and waited for; and unless nothing answered
/// before the grace ran out, it is made ready. Where there is one, its machine is
/// looked for, and a heartbeat that is not alive is started again.
pub open spec fn brings_up(
    f: spec_fn(Seq<Reply>) -> TalkView<Outcome>,
    site: Site,
    g: Guest,
    ttl: int,
    r: Seq<Reply>,
    i: int,
    b: int,
    e: int,
) -> bool {
    let name = if site.manifest.guests@.len() == 1 {
        site.manifest.project@
    } else {
        site.manifest.project@ + "-"@ + g.name@
    };
    &&& 0 <= i < i + 2 < r.len()
    &&& f(r.take(i)) matches TalkView::Ask(q) && (q.deed matches Deed::Get(n) && n == name)
    &&& f(r.take(i + 1)) matches TalkView::Ask(q) && q.deed is Machines
    &&& match r[i].event {
        Event::Found(None) => {
            &&& i + 6 < r.len()
            &&& r[i + 1].event matches Event::Machines(live) && live@.len()
                < site.cfg.session.max_concurrent
            &&& f(r.take(i + 2)) matches TalkView::Ask(q) && of_a_birth(
                site,
                g,
                r.take(i + 2),
                q.deed,
            )
            &&& r[i + 2].event matches Event::Machine(m)
            &&& f(r.take(i + 3)) matches TalkView::Ask(q) && (q.deed matches Deed::Put(s) && s.name
                == name && s.machine == m.0@ && s.address is None)
            &&& f(r.take(i + 4)) matches TalkView::Ask(q) && (q.deed matches Deed::Start(x) && x
                == m.0@)
            &&& f(r.take(i + 5)) matches TalkView::Ask(q) && (q.deed matches Deed::ForgetHosts(n)
                && n == name)
            &&& f(r.take(i + 6)) matches TalkView::Ask(q) && (q.deed matches Deed::AddressOf(x) && x
                == m.0@)
            &&& {
                ||| i + 6 <= b < r.len() && r[b].at@ >= r[i + 1].at@
                    + site.cfg.session.ready_grace@
                ||| outfits(f, site, g, name, m.0@, ttl, r, b, e)
            }
        },
        Event::Found(Some(x)) => {
            &&& x.project@ == site.manifest.project@
            &&& x.address is Some
            &&& r[i + 1].event matches Event::Machines(live) && crate::provider::lists(
                live@,
                x.machine@,
            )
            &&& match x.heartbeat_pid {
                None => f(r.take(i + 2)) matches TalkView::Ask(q) && (
                q.deed matches Deed::StartHeartbeat(n) && n == name),
                Some(p) => {
                    &&& f(r.take(i + 2)) matches TalkView::Ask(q) && (q.deed matches Deed::Alive(
                        pid,
                    ) && pid == p)
                    &&& r[i + 2].event == Event::Flag(false) ==> i + 3 < r.len() && (f(
                        r.take(i + 3),
                    ) matches TalkView::Ask(q) && (q.deed matches Deed::StartHeartbeat(n) && n
                        == name))
                },
            }
        },
        _ => false,
    }
}

spec fn raising(site: Site, g: Guest, new: SessionView, i: int, said: Said) -> spec_fn(
    Seq<Reply>,
) -> TalkView<Outcome> {
    |q: Seq<Reply>| raised(site, g, new, q, i, said)
}

#[verifier::rlimit(60)]
#[verifier::spinoff_prover]
proof fn lemma_raised_holds(
    site: Site,
    g: Guest,
    new: SessionView,
    r: Seq<Reply>,
    i: int,
    said: Said,
    k: int,
)
    requires
        0 < i <= k <= r.len(),
    ensures
        match raised(site, g, new, r, i, said) {
            TalkView::Ask(_) => true,
            TalkView::Done(o, n, _) => {
                &&& i <= n <= r.len()
                &&& n <= k ==> raised(site, g, new, r.take(k), i, said) == raised(
                    site,
                    g,
                    new,
                    r,
                    i,
                    said,
                )
                &&& o is Ok ==> {
                    &&& i + 3 < n
                    &&& raised(site, g, new, r.take(i), i, said) matches TalkView::Ask(q)
                        && q.deed == Deed::<Seq<char>, Seq<Seq<char>>, SessionView, int, int>::Put(
                        new,
                    )
                    &&& raised(site, g, new, r.take(i + 1), i, said) matches TalkView::Ask(q) && (
                    q.deed matches Deed::Start(x) && x == new.machine)
                    &&& raised(site, g, new, r.take(i + 2), i, said) matches TalkView::Ask(q) && (
                    q.deed matches Deed::ForgetHosts(x) && x == new.name)
                    &&& raised(site, g, new, r.take(i + 3), i, said) matches TalkView::Ask(q) && (
                    q.deed matches Deed::AddressOf(x) && x == new.machine)
                    &&& {
                        ||| r[n - 1].at@ >= new.expires_at
                        ||| exists|b: int, e: int|
                            b >= i && #[trigger] outfits(
                                raising(site, g, new, i, said),
                                site,
                                g,
                                new.name,
                                new.machine,
                                new.ttl,
                                r,
                                b,
                                e,
                            )
                    }
                }
            },
        },
{
    let none = Seq::<(bool, Seq<char>)>::empty();
    assert(i < k ==> r.take(k)[i] == r[i]);
    assert(i + 1 < k ==> r.take(k)[i + 1] == r[i + 1]);
    assert(i + 2 < k ==> r.take(k)[i + 2] == r[i + 2]);
    if i + 2 < r.len() && unit_of(r[i].event) == Some(Ok::<(), Seq<char>>(())) && unit_of(
        r[i + 1].event,
    ) == Some(Ok::<(), Seq<char>>(())) && unit_of(r[i + 2].event) == Some(
        Ok::<(), Seq<char>>(()),
    ) {
        let from = i + 3;
        let f = reachable(
            site,
            new.name,
            new.machine,
            new.expires_at,
            r,
            from,
            none,
            None,
            0,
        );
        let k1 = if k >= from {
            k
        } else {
            from
        };
        lemma_reachable_holds(
            site,
            new.name,
            new.machine,
            new.expires_at,
            r,
            from,
            none,
            None,
            0,
            k1,
        );
        assert(r.take(i + 1)[i] == r[i]);
        assert(r.take(i + 2)[i] == r[i] && r.take(i + 2)[i + 1] == r[i + 1]);
        assert(r.take(i + 3)[i] == r[i] && r.take(i + 3)[i + 1] == r[i + 1] && r.take(i + 3)[i + 2]
            == r[i + 2]);
        match f {
            TalkView::Done(Ok(Some(a)), b, s) => {
                let k2 = if k >= b {
                    k
                } else {
                    b
                };
                lemma_completed_holds(site, g, new, a, r, b, s, k2);
                assert forall|l: int| b <= l <= r.len() implies raised(
                    site,
                    g,
                    new,
                    #[trigger] r.take(l),
                    i,
                    said,
                ) == completed(site, g, new, a, r.take(l), b, s) by {
                    lemma_reachable_holds(
                        site,
                        new.name,
                        new.machine,
                        new.expires_at,
                        r,
                        from,
                        none,
                        None,
                        0,
                        l,
                    );
                    assert(r.take(l)[i] == r[i]);
                    assert(r.take(l)[i + 1] == r[i + 1]);
                    assert(r.take(l)[i + 2] == r[i + 2]);
                }
                assert(raised(site, g, new, r, i, said) == completed(site, g, new, a, r, b, s));
                match completed(site, g, new, a, r, b, s) {
                    TalkView::Done(Ok(_), n, _) => {
                        let e = choose|e: int| #[trigger]
                            all_done(site, g, new, a, r, b, s, e);
                        let h = raising(site, g, new, i, said);
                        assert(h(r.take(b + 1)) == completed(site, g, new, a, r.take(b + 1), b, s));
                        assert(h(r.take(b + 2)) == completed(site, g, new, a, r.take(b + 2), b, s));
                        assert(h(r.take(e)) == completed(site, g, new, a, r.take(e), b, s));
                        assert(h(r.take(e - 1)) == completed(site, g, new, a, r.take(e - 1), b, s));
                        assert(h(r.take(e + 1)) == completed(site, g, new, a, r.take(e + 1), b, s));
                        assert(h(r.take(e + 2)) == completed(site, g, new, a, r.take(e + 2), b, s));
                        assert(outfits(h, site, g, new.name, new.machine, new.ttl, r, b, e));
                    },
                    _ => {},
                }
            },
            _ => {},
        }
    }
}

spec fn singly(site: Site, g: Guest, ttl: int, i: int, said: Said) -> spec_fn(
    Seq<Reply>,
) -> TalkView<Outcome> {
    |q: Seq<Reply>| one_up(site, g, ttl, q, i, said)
}

spec fn jointly(site: Site, wanted: Seq<Guest>, ttl: int, i: int, said: Said) -> spec_fn(
    Seq<Reply>,
) -> TalkView<Outcome> {
    |q: Seq<Reply>| all_up(site, wanted, ttl, q, i, said)
}

/// `up`, as a function of what it is told.
pub open spec fn upping(
    site: Site,
    guest: Option<Seq<char>>,
    profile: Option<Seq<char>>,
    ttl: Option<Seq<char>>,
    key_present: bool,
) -> spec_fn(Seq<Reply>) -> TalkView<Outcome> {
    |q: Seq<Reply>| brought_up(site, guest, profile, ttl, key_present, q)
}

/// What a part asks for, the whole that carries it on asks for.
#[verifier::rlimit(60)]
#[verifier::spinoff_prover]
proof fn lemma_lift(
    f: spec_fn(Seq<Reply>) -> TalkView<Outcome>,
    h: spec_fn(Seq<Reply>) -> TalkView<Outcome>,
    site: Site,
    g: Guest,
    ttl: int,
    r: Seq<Reply>,
    i: int,
    b: int,
    e: int,
)
    requires
        brings_up(f, site, g, ttl, r, i, b, e),
        forall|l: int|
            i <= l <= r.len() ==> (f(#[trigger] r.take(l)) matches TalkView::Ask(q) ==> h(r.take(l))
                == TalkView::<Outcome>::Ask(q)),
        b >= i,
    ensures
        brings_up(h, site, g, ttl, r, i, b, e),
{
    assert(r.take(i).len() == i);
    assert(r.take(i + 1).len() == i + 1);
    assert(r.take(i + 2).len() == i + 2);
    if i + 3 < r.len() {
        assert(r.take(i + 3).len() == i + 3);
    }
    if i + 6 < r.len() {
        assert(r.take(i + 4).len() == i + 4);
        assert(r.take(i + 5).len() == i + 5);
        assert(r.take(i + 6).len() == i + 6);
    }
    let name = if site.manifest.guests@.len() == 1 {
        site.manifest.project@
    } else {
        site.manifest.project@ + "-"@ + g.name@
    };
    match r[i].event {
        Event::Found(None) => {
            let m = r[i + 2].event->Machine_0;
            if outfits(f, site, g, name, m.0@, ttl, r, b, e) {
                assert(outfits(h, site, g, name, m.0@, ttl, r, b, e));
            }
        },
        _ => {},
    }
}

/// A heartbeat that is not alive is started again; one that is alive is left.
#[verifier::rlimit(60)]
#[verifier::spinoff_prover]
proof fn lemma_revived_holds(
    name: Seq<char>,
    x: Session,
    r: Seq<Reply>,
    i: int,
    said: Said,
    k: int,
)
    requires
        0 <= i <= k <= r.len(),
    ensures
        match beating(x, r, i, said) {
            TalkView::Ask(_) => true,
            TalkView::Done(alive, m, s) => {
                &&& i <= m <= r.len()
                &&& m <= k ==> beating(x, r.take(k), i, said) == beating(x, r, i, said)
                &&& match x.heartbeat_pid {
                    None => !alive && m == i && s == said,
                    Some(p) => m == i + 1 && r[i].event == Event::Flag(alive) && (beating(
                        x,
                        r.take(i),
                        i,
                        said,
                    ) matches TalkView::Ask(q) && (q.deed matches Deed::Alive(pid) && pid == p)),
                }
            },
        },
        forall|alive: bool|
            #![trigger revived(name, alive, r, i, said)]
            match revived(name, alive, r, i, said) {
                TalkView::Ask(_) => true,
                TalkView::Done(o, m, _) => {
                    &&& i <= m <= r.len()
                    &&& m <= k ==> revived(name, alive, r.take(k), i, said) == revived(
                        name,
                        alive,
                        r,
                        i,
                        said,
                    )
                    &&& !alive && o is Ok ==> i + 1 < r.len() && (revived(
                        name,
                        alive,
                        r.take(i),
                        i,
                        said,
                    ) matches TalkView::Ask(q) && (q.deed matches Deed::StartHeartbeat(n) && n
                        == name))
                },
            },
{
    assert(i < k ==> r.take(k)[i] == r[i]);
    assert(i + 1 < k ==> r.take(k)[i + 1] == r[i + 1]);
}

proof fn lemma_reused_parts(
    site: Site,
    name: Seq<char>,
    x: Session,
    r: Seq<Reply>,
    i: int,
    said: Said,
    alive: bool,
    m: int,
    s: Said,
    k: int,
)
    requires
        0 <= i < m <= k <= r.len(),
        x.project@ == site.manifest.project@,
        x.address is Some,
        r[i].event matches Event::Machines(live) && crate::provider::lists(live@, x.machine@),
        beating(x, r, i + 1, Seq::empty()) == TalkView::Done(alive, m, s),
    ensures
        reused(site, name, x, r.take(k), i, said) == (match revived(name, alive, r.take(k), m, s) {
            TalkView::Ask(q) => TalkView::<Outcome>::Ask(q),
            TalkView::Done(Err(e), n, s) => TalkView::Done(Err(e), n, s),
            TalkView::Done(Ok(_), n, s) => TalkView::Done(
                Ok(()),
                n,
                s.push(
                    (
                        false,
                        crate::verbs::up::reusing(
                            name,
                            x,
                            crate::verbs::deeds::reached(r.take(k), n, site.start),
                        ),
                    ),
                ),
            ),
        }),
{
    assert(r.take(k)[i] == r[i]);
    lemma_revived_holds(name, x, r, i + 1, Seq::empty(), k);
}

#[verifier::rlimit(60)]
#[verifier::spinoff_prover]
proof fn lemma_reused_holds(
    site: Site,
    name: Seq<char>,
    x: Session,
    r: Seq<Reply>,
    i: int,
    said: Said,
    k: int,
)
    requires
        0 <= i <= k <= r.len(),
    ensures
        match reused(site, name, x, r, i, said) {
            TalkView::Ask(_) => true,
            TalkView::Done(o, n, _) => {
                &&& i <= n <= r.len()
                &&& n <= k ==> reused(site, name, x, r.take(k), i, said) == reused(
                    site,
                    name,
                    x,
                    r,
                    i,
                    said,
                )
                &&& o is Ok ==> {
                    &&& i + 1 < r.len()
                    &&& x.project@ == site.manifest.project@
                    &&& x.address is Some
                    &&& r[i].event matches Event::Machines(live) && crate::provider::lists(
                        live@,
                        x.machine@,
                    )
                    &&& reused(site, name, x, r.take(i), i, said) matches TalkView::Ask(q) && q.deed
                        is Machines
                    &&& match x.heartbeat_pid {
                        None => reused(
                            site,
                            name,
                            x,
                            r.take(i + 1),
                            i,
                            said,
                        ) matches TalkView::Ask(q) && (q.deed matches Deed::StartHeartbeat(n) && n
                            == name),
                        Some(p) => {
                            &&& reused(
                                site,
                                name,
                                x,
                                r.take(i + 1),
                                i,
                                said,
                            ) matches TalkView::Ask(q) && (q.deed matches Deed::Alive(pid) && pid
                                == p)
                            &&& r[i + 1].event == Event::Flag(false) ==> i + 2 < r.len() && (reused(
                                site,
                                name,
                                x,
                                r.take(i + 2),
                                i,
                                said,
                            ) matches TalkView::Ask(q) && (q.deed matches Deed::StartHeartbeat(n)
                                && n == name))
                        },
                    }
                }
            },
        },
{
    let none = Seq::<(bool, Seq<char>)>::empty();
    let n0 = r.len() as int;
    assert(r.take(n0) =~= r);
    assert(i < k ==> r.take(k)[i] == r[i]);
    if i < r.len() && x.project@ == site.manifest.project@ && x.address is Some && (
    r[i].event matches Event::Machines(live) && crate::provider::lists(live@, x.machine@)) {
        lemma_revived_holds(name, x, r, i + 1, none, n0);
        assert(r.take(i + 1)[i] == r[i]);
        match beating(x, r, i + 1, none) {
            TalkView::Ask(q) => {},
            TalkView::Done(alive, m, s) => {
                lemma_revived_holds(name, x, r, m, s, n0);
                lemma_reused_parts(site, name, x, r, i, said, alive, m, s, n0);
                lemma_reused_parts(site, name, x, r, i, said, alive, m, s, m);
                if m <= k {
                    lemma_revived_holds(name, x, r, m, s, k);
                    lemma_reused_parts(site, name, x, r, i, said, alive, m, s, k);
                }
                match revived(name, alive, r, m, s) {
                    TalkView::Done(_, n, _) => {
                        assert(0 < n <= k ==> r.take(k)[n - 1] == r[n - 1]);
                    },
                    _ => {},
                }
            },
        }
    }
}

#[verifier::rlimit(60)]
#[verifier::spinoff_prover]
proof fn lemma_one_up_reused(
    site: Site,
    g: Guest,
    ttl: int,
    r: Seq<Reply>,
    i: int,
    said: Said,
    k: int,
)
    requires
        0 <= i <= k <= r.len(),
        i < r.len(),
        r[i].event is Found,
        r[i].event->Found_0 is Some,
    ensures
        match one_up(site, g, ttl, r, i, said) {
            TalkView::Ask(_) => true,
            TalkView::Done(o, n, _) => {
                &&& i <= n <= r.len()
                &&& n <= k ==> one_up(site, g, ttl, r.take(k), i, said) == one_up(
                    site,
                    g,
                    ttl,
                    r,
                    i,
                    said,
                )
                &&& o is Ok ==> brings_up(singly(site, g, ttl, i, said), site, g, ttl, r, i, i, i)
            },
        },
{
    reveal(one_up);
    let f = singly(site, g, ttl, i, said);
    let x = r[i].event->Found_0->0;
    let name = crate::verbs::common::name_of(
        site.manifest.project@,
        g.name@,
        site.manifest.guests@.len() == 1,
    );
    let none = Seq::<(bool, Seq<char>)>::empty();
    let k1 = if k > i {
        k
    } else {
        i + 1
    };
    lemma_reused_holds(site, name, x, r, i + 1, none, k1);
    assert forall|l: int| i < l <= r.len() implies one_up(
        site,
        g,
        ttl,
        #[trigger] r.take(l),
        i,
        said,
    ) == reused(site, name, x, r.take(l), i + 1, none) by {
        assert(r.take(l)[i] == r[i]);
    }
    assert(one_up(site, g, ttl, r, i, said) == reused(site, name, x, r, i + 1, none));
    match one_up(site, g, ttl, r, i, said) {
        TalkView::Done(Ok(_), n, _) => {
            assert(f(r.take(i)) == one_up(site, g, ttl, r.take(i), i, said));
            assert(f(r.take(i + 1)) == one_up(site, g, ttl, r.take(i + 1), i, said));
            assert(f(r.take(i + 2)) == one_up(site, g, ttl, r.take(i + 2), i, said));
            assert(f(r.take(i + 3)) == one_up(site, g, ttl, r.take(i + 3), i, said));
        },
        _ => {},
    }
}

/// A machine is made for a guest that has no session, after the machines there
/// are were counted and found to be few enough.
spec fn is_made(site: Site, r: Seq<Reply>, i: int) -> bool {
    &&& 0 <= i < i + 2 < r.len()
    &&& r[i].event == Event::Found(None)
    &&& r[i + 1].event matches Event::Machines(live) && live@.len()
        < site.cfg.session.max_concurrent
    &&& r[i + 2].event is Machine
    &&& r[i + 1].at@ + site.cfg.session.ready_grace@ <= crate::time::last_moment()
}

spec fn newly(site: Site, g: Guest, ttl: int, r: Seq<Reply>, i: int) -> SessionView {
    newborn(
        site,
        g,
        crate::verbs::common::name_of(
            site.manifest.project@,
            g.name@,
            site.manifest.guests@.len() == 1,
        ),
        crate::verbs::up::template_of(*site.cfg, g),
        r[i + 2].event->Machine_0.0@,
        r[i + 1].at@,
        ttl,
    )
}

proof fn lemma_one_up_raises(
    site: Site,
    g: Guest,
    ttl: int,
    r: Seq<Reply>,
    i: int,
    said: Said,
    l: int,
)
    requires
        is_made(site, r, i),
        i + 3 <= l <= r.len(),
    ensures
        one_up(site, g, ttl, r.take(l), i, said) == raised(
            site,
            g,
            newly(site, g, ttl, r, i),
            r.take(l),
            i + 3,
            Seq::empty(),
        ),
{
    reveal(one_up);
    assert(r.take(l)[i] == r[i]);
    assert(r.take(l)[i + 1] == r[i + 1]);
    assert(r.take(l)[i + 2] == r[i + 2]);
}

proof fn lemma_one_up_begins(
    site: Site,
    g: Guest,
    ttl: int,
    r: Seq<Reply>,
    i: int,
    said: Said,
)
    requires
        is_made(site, r, i),
        find(registry(site.cfg.guests@), g.name@) is Some,
    ensures
        ({
            let name = newly(site, g, ttl, r, i).name;
            &&& one_up(site, g, ttl, r.take(i), i, said) matches TalkView::Ask(q) && (
            q.deed matches Deed::Get(n) && n == name)
            &&& one_up(site, g, ttl, r.take(i + 1), i, said) matches TalkView::Ask(q) && q.deed
                is Machines
            &&& one_up(site, g, ttl, r.take(i + 2), i, said) matches TalkView::Ask(q) && of_a_birth(
                site,
                g,
                r.take(i + 2),
                q.deed,
            )
        }),
{
    reveal(one_up);
    let name = newly(site, g, ttl, r, i).name;
    assert(r.take(i + 1)[i] == r[i]);
    assert(r.take(i + 2)[i] == r[i] && r.take(i + 2)[i + 1] == r[i + 1]);
    let d = crate::verbs::up::birth(site, g, name, r[i + 1].at@);
    assert(awaited(r.take(i + 2), i + 2, d));
    assert(of_a_birth(site, g, r.take(i + 2), d));
}

/// Where no machine is made, bringing a guest up that has no session fails, and
/// fails the same way however much more is heard.
proof fn lemma_one_up_ends(
    site: Site,
    g: Guest,
    ttl: int,
    r: Seq<Reply>,
    i: int,
    said: Said,
    k: int,
)
    requires
        0 <= i <= k <= r.len(),
        !is_made(site, r, i),
        i < r.len() ==> !(r[i].event matches Event::Found(Some(_))),
    ensures
        one_up(site, g, ttl, r, i, said) matches TalkView::Done(o, n, _) ==> o is Err && i <= n
            <= r.len() && (n <= k ==> one_up(site, g, ttl, r.take(k), i, said) == one_up(
            site,
            g,
            ttl,
            r,
            i,
            said,
        )),
{
    reveal(one_up);
    assert(i < k ==> r.take(k)[i] == r[i]);
    assert(i + 1 < k ==> r.take(k)[i + 1] == r[i + 1]);
    assert(i + 2 < k ==> r.take(k)[i + 2] == r[i + 2]);
}

proof fn lemma_one_up_holds(
    site: Site,
    g: Guest,
    ttl: int,
    r: Seq<Reply>,
    i: int,
    said: Said,
    k: int,
)
    requires
        0 <= i <= k <= r.len(),
        find(registry(site.cfg.guests@), g.name@) is Some,
    ensures
        match one_up(site, g, ttl, r, i, said) {
            TalkView::Ask(_) => true,
            TalkView::Done(o, n, _) => {
                &&& i <= n <= r.len()
                &&& n <= k ==> one_up(site, g, ttl, r.take(k), i, said) == one_up(
                    site,
                    g,
                    ttl,
                    r,
                    i,
                    said,
                )
                &&& o is Ok ==> exists|b: int, e: int|
                    b >= i && #[trigger] brings_up(
                        singly(site, g, ttl, i, said),
                        site,
                        g,
                        ttl,
                        r,
                        i,
                        b,
                        e,
                    )
            },
        },
{
    if i < r.len() && r[i].event is Found && r[i].event->Found_0 is Some {
        lemma_one_up_reused(site, g, ttl, r, i, said, k);
    } else if is_made(site, r, i) {
        lemma_one_up_made(site, g, ttl, r, i, said, k);
    } else {
        lemma_one_up_ends(site, g, ttl, r, i, said, k);
    }
}

#[verifier::rlimit(60)]
#[verifier::spinoff_prover]
proof fn lemma_one_up_made(
    site: Site,
    g: Guest,
    ttl: int,
    r: Seq<Reply>,
    i: int,
    said: Said,
    k: int,
)
    requires
        0 <= i <= k <= r.len(),
        find(registry(site.cfg.guests@), g.name@) is Some,
        is_made(site, r, i),
    ensures
        match one_up(site, g, ttl, r, i, said) {
            TalkView::Ask(_) => true,
            TalkView::Done(o, n, _) => {
                &&& i <= n <= r.len()
                &&& n <= k ==> one_up(site, g, ttl, r.take(k), i, said) == one_up(
                    site,
                    g,
                    ttl,
                    r,
                    i,
                    said,
                )
                &&& o is Ok ==> exists|b: int, e: int|
                    b >= i && #[trigger] brings_up(
                        singly(site, g, ttl, i, said),
                        site,
                        g,
                        ttl,
                        r,
                        i,
                        b,
                        e,
                    )
            },
        },
{
    let f = singly(site, g, ttl, i, said);
    let new = newly(site, g, ttl, r, i);
    let none = Seq::<(bool, Seq<char>)>::empty();
    let h = raising(site, g, new, i + 3, none);
    let n0 = r.len() as int;
    let k1 = if k >= i + 3 {
        k
    } else {
        i + 3
    };
    assert(r.take(n0) =~= r);
    lemma_one_up_raises(site, g, ttl, r, i, said, n0);
    lemma_one_up_raises(site, g, ttl, r, i, said, k1);
    lemma_raised_holds(site, g, new, r, i + 3, none, k1);
    lemma_one_up_begins(site, g, ttl, r, i, said);
    if raised(site, g, new, r, i + 3, none) is Done && raised(site, g, new, r, i + 3, none)->Done_0
        is Ok {
        let n = raised(site, g, new, r, i + 3, none)->Done_1;
        assert forall|l: int| i + 3 <= l <= r.len() implies f(#[trigger] r.take(l)) == h(
            r.take(l),
        ) by {
            lemma_one_up_raises(site, g, ttl, r, i, said, l);
        }
        assert(f(r.take(i + 3)) == h(r.take(i + 3)));
        assert(f(r.take(i + 4)) == h(r.take(i + 4)));
        assert(f(r.take(i + 5)) == h(r.take(i + 5)));
        assert(f(r.take(i + 6)) == h(r.take(i + 6)));
        if r[n - 1].at@ >= new.expires_at {
            assert(brings_up(f, site, g, ttl, r, i, n - 1, 0));
        } else {
            let (b, e) = choose|b: int, e: int|
                b >= i + 3 && #[trigger] outfits(
                    h,
                    site,
                    g,
                    new.name,
                    new.machine,
                    new.ttl,
                    r,
                    b,
                    e,
                );
            assert(f(r.take(b + 1)) == h(r.take(b + 1)));
            assert(f(r.take(b + 2)) == h(r.take(b + 2)));
            assert(f(r.take(e - 1)) == h(r.take(e - 1)));
            assert(f(r.take(e)) == h(r.take(e)));
            assert(f(r.take(e + 1)) == h(r.take(e + 1)));
            assert(f(r.take(e + 2)) == h(r.take(e + 2)));
            assert(outfits(f, site, g, new.name, new.machine, ttl, r, b, e));
            assert(brings_up(f, site, g, ttl, r, i, b, e));
        }
    }
}

#[verifier::rlimit(60)]
#[verifier::spinoff_prover]
proof fn lemma_all_up_turns(
    site: Site,
    wanted: Seq<Guest>,
    ttl: int,
    r: Seq<Reply>,
    i: int,
    said: Said,
    j: int,
)
    requires
        0 <= i <= r.len(),
        0 <= j < wanted.len(),
        forall|l: int|
            0 <= l < wanted.len() ==> find(
                registry(site.cfg.guests@),
                (#[trigger] wanted[l]).name@,
            ) is Some,
        all_up(site, wanted, ttl, r, i, said) matches TalkView::Done(Ok(_), _, _),
    ensures
        exists|m: int, b: int, e: int|
            b >= m >= i && #[trigger] brings_up(
                jointly(site, wanted, ttl, i, said),
                site,
                wanted[j],
                ttl,
                r,
                m,
                b,
                e,
            ),
    decreases wanted.len(),
{
    let g = wanted[0];
    let rest = wanted.skip(1);
    let h = jointly(site, wanted, ttl, i, said);
    lemma_one_up_holds(site, g, ttl, r, i, said, i);
    let n = one_up(site, g, ttl, r, i, said)->Done_1;
    let s = one_up(site, g, ttl, r, i, said)->Done_2;
    if j == 0 {
        let f = singly(site, g, ttl, i, said);
        let (b, e) = choose|b: int, e: int|
            b >= i && #[trigger] brings_up(f, site, g, ttl, r, i, b, e);
        assert forall|l: int| i <= l <= r.len() implies (match f(#[trigger] r.take(l)) {
            TalkView::Ask(q) => h(r.take(l)) == TalkView::<Outcome>::Ask(q),
            _ => true,
        }) by {}
        lemma_lift(f, h, site, g, ttl, r, i, b, e);
    } else {
        assert(forall|l: int| 0 <= l < rest.len() ==> rest[l] == wanted[l + 1]);
        lemma_all_up_turns(site, rest, ttl, r, n, s, j - 1);
        let f = jointly(site, rest, ttl, n, s);
        assert(rest[j - 1] == wanted[j]);
        let (m, b, e) = choose|m: int, b: int, e: int|
            b >= m >= n && #[trigger] brings_up(f, site, rest[j - 1], ttl, r, m, b, e);
        assert forall|l: int| m <= l <= r.len() implies (match f(#[trigger] r.take(l)) {
            TalkView::Ask(q) => h(r.take(l)) == TalkView::<Outcome>::Ask(q),
            _ => true,
        }) by {
            lemma_one_up_holds(site, g, ttl, r, i, said, l);
        }
        lemma_lift(f, h, site, wanted[j], ttl, r, m, b, e);
    }
}

/// An `up` that succeeds has given every guest that was wanted its turn: each new
/// machine was made as its guest asks, recorded before it was started, and, once
/// it answered, made ready, given its real expiry on the machine and in the
/// record, and then its heartbeat; and each session that was there already has a
/// heartbeat that beats.
pub proof fn law_every_guest_is_brought_up(
    site: Site,
    guest: Option<Seq<char>>,
    profile: Option<Seq<char>>,
    ttl: Option<Seq<char>>,
    key_present: bool,
    r: Seq<Reply>,
    span: int,
    j: int,
)
    requires
        0 <= j < site.manifest.guests@.len(),
        guest matches Some(name) ==> site.manifest.guests@[j].name@ == name && (forall|l: int|
            0 <= l < j ==> (#[trigger] site.manifest.guests@[l]).name@ != name),
        lasting(*site.cfg, *site.manifest, profile, ttl, span),
        brought_up(site, guest, profile, ttl, key_present, r) matches TalkView::Done(Ok(_), _, _),
    ensures
        exists|m: int, b: int, e: int| #[trigger]
            brings_up(
                upping(site, guest, profile, ttl, key_present),
                site,
                site.manifest.guests@[j],
                span,
                r,
                m,
                b,
                e,
            ),
{
    let none = Seq::<(bool, Seq<char>)>::empty();
    let h = upping(site, guest, profile, ttl, key_present);
    let wanted = crate::verbs::up::wanted_of(*site.manifest, guest)->Ok_0;
    lemma_registered(*site.cfg, wanted);
    let l0 = if guest is Some {
        lemma_first_of_its_name(site.manifest.guests@, j);
        0
    } else {
        j
    };
    assert(wanted[l0] == site.manifest.guests@[j]);
    assert(crate::verbs::common::ttl_of(*site.cfg, *site.manifest, profile, ttl) == Ok::<
        int,
        Seq<char>,
    >(span));
    assert(brought_up(site, guest, profile, ttl, key_present, r) == all_up(
        site,
        wanted,
        span,
        r,
        2,
        none,
    ));
    lemma_all_up_turns(site, wanted, span, r, 2, none, l0);
    let f = jointly(site, wanted, span, 2, none);
    let (m, b, e) = choose|m: int, b: int, e: int|
        b >= m >= 2 && #[trigger] brings_up(f, site, wanted[l0], span, r, m, b, e);
    assert forall|l: int| m <= l <= r.len() implies (match f(#[trigger] r.take(l)) {
        TalkView::Ask(q) => h(r.take(l)) == TalkView::<Outcome>::Ask(q),
        _ => true,
    }) by {
        assert(r.take(l)[0] == r[0]);
        assert(r.take(l)[1] == r[1]);
    }
    lemma_lift(f, h, site, wanted[l0], span, r, m, b, e);
}

proof fn lemma_first_of_its_name(guests: Seq<Guest>, j: int)
    requires
        0 <= j < guests.len(),
        forall|l: int| 0 <= l < j ==> (#[trigger] guests[l]).name@ != guests[j].name@,
    ensures
        crate::manifest::guest_named(guests, guests[j].name@) == Some(guests[j]),
    decreases guests.len(),
{
    if j > 0 {
        let rest = guests.skip(1);
        assert(rest[j - 1] == guests[j]);
        assert forall|l: int| 0 <= l < j - 1 implies (#[trigger] rest[l]).name@ != rest[j
            - 1].name@ by {
            assert(rest[l] == guests[l + 1]);
        }
        lemma_first_of_its_name(rest, j - 1);
    }
}

}
