//! What the verbs share.
use vstd::prelude::*;
use vstd::string::*;

use crate::address::Address;
use crate::config::{registry, Config};
use crate::dict::{find, names, names_of, place, Dict};
use crate::duration::{
    complaint, format_rough, parse as parse_duration, reading, rough,
};
use crate::manifest::{Guest, Manifest};
use crate::paths::{maybe, parent, parent_of, with_file_name, with_name};
use crate::scan::{after, lines, lines_of, strip, trim, trimmed};
use crate::session::Session;
use crate::text::{debug_text, join, join_text, quoted, same, texts};
use crate::time::{last_moment, Duration, SystemTime};
use crate::transport::{Ssh, SshView};
use crate::verbs::deeds::{
    ask, ask_found, ask_list, found, lines as said_lines, listed, Deed, Line, Reply, Said, Talk,
    TalkView,
};

verus! {

/// Where the runner lands in a guest.
pub const RUNNER_PATH: &'static str = "/tmp/reaper-runner.sh";

/// Where a rendered job lands beside it.
pub const JOB_PATH: &'static str = "/tmp/reaper-job.sh";

/// The snapshot a session takes for itself, and the one `reset` returns to
/// unless told otherwise.
pub const PRISTINE: &'static str = "pristine";

// ---------------------------------------------------------------------------
// Names and sentences
// ---------------------------------------------------------------------------

/// One session per guest. The name is the project alone when there is only one,
/// because `my-project` reads better than `my-project-some-guest` and most
/// projects have exactly one.
pub open spec fn name_of(project: Seq<char>, guest: Seq<char>, single: bool) -> Seq<char> {
    if single {
        project
    } else {
        project + "-"@ + guest
    }
}

pub fn session_name(project: &str, guest: &str, single: bool) -> (r: String)
    ensures
        r@ == name_of(project@, guest@, single),
{
    if single {
        project.to_string()
    } else {
        project.to_string().concat("-").concat(guest)
    }
}

/// The names, or that there are none.
pub open spec fn known(names: Seq<Seq<char>>) -> Seq<char> {
    if names.len() == 0 {
        "none"@
    } else {
        join(names, ", "@)
    }
}

pub open spec fn no_profile(m: Manifest, name: Seq<char>) -> Seq<char> {
    "the manifest has no profile "@ + debug_text(name) + "; it defines: "@ + known(
        names(m.profiles@),
    )
}

pub fn complain_of_profile(m: &Manifest, name: &str) -> (r: String)
    ensures
        r@ == no_profile(*m, name@),
{
    let defined = names_of(&m.profiles);
    let list = if defined.len() == 0 {
        "none".to_string()
    } else {
        join_text(&defined, ", ")
    };
    assert(texts(defined@).len() == defined@.len());
    "the manifest has no profile ".to_string().concat(quoted(name).as_str()).concat(
        "; it defines: ",
    ).concat(list.as_str())
}

/// A span that a text stands for, in nanoseconds.
pub open spec fn span(text: Seq<char>) -> Result<int, Seq<char>> {
    match reading(text) {
        Ok(n) => Ok((n * 1_000_000_000) as int),
        Err(reason) => Err(complaint(text, reason)),
    }
}

pub open spec fn span_view(r: Result<Duration, String>) -> Result<int, Seq<char>> {
    match r {
        Ok(d) => Ok(d@),
        Err(e) => Err(e@),
    }
}

pub fn read_span(text: &str) -> (r: Result<Duration, String>)
    ensures
        span_view(r) == span(text@),
{
    match parse_duration(text) {
        Ok(d) => Ok(d),
        Err(e) => Err(e.message()),
    }
}

/// How long a session is to last: what was asked for, or what the profile says,
/// or what the site does by default.
pub open spec fn ttl_of(
    cfg: Config,
    m: Manifest,
    profile: Option<Seq<char>>,
    over: Option<Seq<char>>,
) -> Result<int, Seq<char>> {
    match over {
        Some(t) => span(t),
        None => match profile {
            None => Ok(cfg.session.default_ttl@),
            Some(name) => match find(m.profiles@, name) {
                None => Err(no_profile(m, name)),
                Some(p) => match p.ttl {
                    Some(t) => span(t@),
                    None => Ok(cfg.session.default_ttl@),
                },
            },
        },
    }
}

pub fn ttl_for(
    cfg: &Config,
    m: &Manifest,
    profile: &Option<String>,
    over: &Option<String>,
) -> (r: Result<Duration, String>)
    ensures
        span_view(r) == ttl_of(*cfg, *m, maybe(*profile), maybe(*over)),
{
    match over {
        Some(t) => {
            return read_span(t.as_str());
        },
        None => {},
    }
    match profile {
        Some(name) => match m.profiles.get(name.as_str()) {
            None => {
                return Err(complain_of_profile(m, name.as_str()));
            },
            Some(p) => match &p.ttl {
                Some(t) => {
                    return read_span(t.as_str());
                },
                None => {},
            },
        },
        None => {},
    }
    Ok(cfg.session.default_ttl)
}

/// The sentence for a guest the site does not register, if it does not. Shared
/// by `up` (a refusal) and `doctor` (a finding) so the two can never drift into
/// disagreeing about what registered means.
pub open spec fn unregistered(cfg: Config, guest: Seq<char>) -> Option<Seq<char>> {
    if find(registry(cfg.guests@), guest) is Some {
        None
    } else {
        Some(
            "no guest named "@ + debug_text(guest) + " is registered here; this site offers: "@
                + join(names(cfg.guests@), ", "@)
                + ". Registering one is a template build and an entry in "@ + cfg.path@
                + " -- see docs/guests.md"@,
        )
    }
}

pub fn unregistered_guest(cfg: &Config, guest: &str) -> (r: Option<String>)
    ensures
        maybe(r) == unregistered(*cfg, guest@),
{
    if cfg.template_for(guest).is_some() {
        return None;
    }
    let offers = cfg.guest_names();
    Some(
        "no guest named ".to_string().concat(quoted(guest).as_str()).concat(
            " is registered here; this site offers: ",
        ).concat(join_text(&offers, ", ").as_str()).concat(
            ". Registering one is a template build and an entry in ",
        ).concat(cfg.path.as_str()).concat(" -- see docs/guests.md"),
    )
}

/// The sentence for a configured ssh key that does not exist. Shared by `up`
/// and `doctor` for the same no-drift reason.
pub open spec fn missing_key(cfg: Config, present: bool) -> Option<Seq<char>> {
    match cfg.session.ssh_key {
        None => None,
        Some(k) => if present {
            None
        } else {
            Some(
                "session.ssh_key "@ + k@
                    + " does not exist, so no session could ever be reached. Fix the path in "@
                    + cfg.path@ + " before creating machines"@,
            )
        },
    }
}

pub fn missing_ssh_key(cfg: &Config, present: bool) -> (r: Option<String>)
    ensures
        maybe(r) == missing_key(*cfg, present),
{
    match &cfg.session.ssh_key {
        None => None,
        Some(k) => {
            if present {
                None
            } else {
                Some(
                    "session.ssh_key ".to_string().concat(k.as_str()).concat(
                        " does not exist, so no session could ever be reached. Fix the path in ",
                    ).concat(cfg.path.as_str()).concat(" before creating machines"),
                )
            }
        },
    }
}

/// Why a verb against this session probably failed, when the session is past
/// its expiry. The record knows better than the transport does, so it says so.
pub open spec fn expiry_words(s: Session, now: SystemTime) -> Option<Seq<char>> {
    if s.expires_at@ >= now@ {
        None
    } else {
        Some(
            s.name@ + ": this session expired "@ + rough(
                ((now@ - s.expires_at@) / 1_000_000_000) as nat,
            )
                + " ago, so the machine has very likely been collected and its address means nothing now. `reaper down "@
                + s.name@ + "` clears the record and `reaper up` starts fresh"@,
        )
    }
}

pub fn expiry_note(s: &Session, now: &SystemTime) -> (r: Option<String>)
    ensures
        maybe(r) == expiry_words(*s, *now),
{
    match s.remaining(*now) {
        Some(d) => {
            d.bounds();
            return None;
        },
        None => {},
    }
    let past = match now.duration_since(&s.expires_at) {
        Some(d) => d,
        None => Duration::from_secs(0),
    };
    past.bounds();
    Some(
        s.name.clone().concat(": this session expired ").concat(
            format_rough(past).as_str(),
        ).concat(
            " ago, so the machine has very likely been collected and its address means nothing now. `reaper down ",
        ).concat(s.name.as_str()).concat("` clears the record and `reaper up` starts fresh"),
    )
}

/// A moment so much later.
pub open spec fn later_than(t: SystemTime, d: Duration) -> Result<int, Seq<char>> {
    if t@ + d@ <= last_moment() {
        Ok(t@ + d@)
    } else {
        Err("that moment is further away than any clock can show"@)
    }
}

pub open spec fn moment_view(r: Result<SystemTime, String>) -> Result<int, Seq<char>> {
    match r {
        Ok(t) => Ok(t@),
        Err(e) => Err(e@),
    }
}

pub fn later(t: &SystemTime, d: &Duration) -> (r: Result<SystemTime, String>)
    ensures
        moment_view(r) == later_than(*t, *d),
{
    match t.checked_add(d) {
        Some(x) => {
            x.bounds();
            Ok(x)
        },
        None => Err("that moment is further away than any clock can show".to_string()),
    }
}

// ---------------------------------------------------------------------------
// Files that a session owns, beside the session store
// ---------------------------------------------------------------------------

pub open spec fn state_name(store: Seq<char>, prefix: Seq<char>, session: Seq<char>) -> Seq<char> {
    with_name(store, prefix + "-"@ + session)
}

pub fn state_file(store: &str, prefix: &str, session: &str) -> (r: String)
    ensures
        r@ == state_name(store@, prefix@, session@),
{
    with_file_name(store, prefix.to_string().concat("-").concat(session).as_str())
}

pub open spec fn log_name(store: Seq<char>, session: Seq<char>) -> Seq<char> {
    with_name(store, "heartbeat-"@ + session + ".log"@)
}

/// Where a session's heartbeat writes what it has to say.
pub fn heartbeat_log(store: &str, session: &str) -> (r: String)
    ensures
        r@ == log_name(store@, session@),
{
    with_file_name(
        store,
        "heartbeat-".to_string().concat(session).concat(".log").as_str(),
    )
}

/// What a session accumulates on the workstation: its known-hosts file, its rsh
/// wrapper, its heartbeat log. Removed when the session is forgotten.
pub fn workstation_files(store: &str, session: &str) -> (r: Vec<String>)
    ensures
        texts(r@) == seq![
            state_name(store@, "known-hosts"@, session@),
            state_name(store@, "rsh"@, session@),
            log_name(store@, session@),
        ],
{
    let v = vec![
        state_file(store, "known-hosts", session),
        state_file(store, "rsh", session),
        heartbeat_log(store, session),
    ];
    assert(texts(v@) =~= seq![
        state_name(store@, "known-hosts"@, session@),
        state_name(store@, "rsh"@, session@),
        log_name(store@, session@),
    ]);
    v
}

/// The directory a manifest sits in, which is the tree that gets synced. Taken
/// from the manifest rather than from the current directory, so that naming a
/// manifest points at a project rather than just at a file.
pub open spec fn root(path: Seq<char>) -> Seq<char> {
    match parent(path) {
        Some(p) => if p.len() == 0 {
            "."@
        } else {
            p
        },
        None => "."@,
    }
}

pub fn root_of(path: &str) -> (r: String)
    ensures
        r@ == root(path@),
{
    match parent_of(path) {
        Some(p) => {
            if p.as_str().is_empty() {
                ".".to_string()
            } else {
                p
            }
        },
        None => ".".to_string(),
    }
}

// ---------------------------------------------------------------------------
// The transport to a session
// ---------------------------------------------------------------------------

/// How a session at an address is reached. The known-hosts file is the
/// session's own, and thrown away with the session: a shared one would
/// accumulate keys for addresses that get recycled.
pub open spec fn transport(cfg: Config, store: Seq<char>, session: Seq<char>, address: Address) -> SshView {
    SshView {
        program: cfg.session.ssh_command@,
        user: cfg.session.ssh_user@,
        address,
        key: maybe(cfg.session.ssh_key),
        known_hosts: state_name(store, "known-hosts"@, session),
        connect_timeout: cfg.session.ssh_connect_timeout,
        io_timeout: cfg.session.io_timeout,
    }
}

pub fn ssh_to(cfg: &Config, store: &str, session: &str, address: Address) -> (r: Ssh)
    ensures
        r@ == transport(*cfg, store@, session@, address),
{
    let key = match &cfg.session.ssh_key {
        Some(k) => Some(k.clone()),
        None => None,
    };
    Ssh::new(
        cfg.session.ssh_command.clone(),
        cfg.session.ssh_user.clone(),
        address,
        key,
        state_file(store, "known-hosts", session),
        cfg.session.ssh_connect_timeout,
        cfg.session.io_timeout,
    )
}

pub open spec fn no_address(s: Session) -> Seq<char> {
    s.name@
        + ": no address, so there is nothing to connect to. It may still be starting; `reaper list` will show one when it has"@
}

/// Where a session is reached, or why it cannot be.
pub fn address_of(s: &Session) -> (r: Result<Address, String>)
    ensures
        match r {
            Ok(a) => s.address == Some(a),
            Err(e) => s.address is None && e@ == no_address(*s),
        },
{
    match s.address {
        Some(a) => Ok(a),
        None => Err(
            s.name.clone().concat(
                ": no address, so there is nothing to connect to. It may still be starting; `reaper list` will show one when it has",
            ),
        ),
    }
}

/// What the last line that starts with a word says after it.
pub open spec fn said_after(l: Seq<Seq<char>>, word: Seq<char>) -> Option<Seq<char>>
    decreases l.len(),
{
    if l.len() == 0 {
        None
    } else {
        match after(l.last(), word) {
            Some(v) => Some(trim(v)),
            None => said_after(l.drop_last(), word),
        }
    }
}

/// Where the runner says a project's tree and results live.
///
/// Deliberately not computed here. Pool layout belongs to the runner, and a
/// second opinion would be a second thing to keep in step.
pub open spec fn workspace_of(reply: Seq<char>) -> Result<(Seq<char>, Seq<char>), Seq<char>> {
    match (said_after(lines(reply), "work="@), said_after(lines(reply), "out="@)) {
        (Some(w), Some(o)) => Ok((w, o)),
        _ => Err(
            "the runner did not say where the workspace is; it replied: "@ + debug_text(reply),
        ),
    }
}

fn find_after(l: &Vec<String>, word: &str) -> (r: Option<String>)
    ensures
        maybe(r) == said_after(texts(l@), word@),
{
    let ghost all = texts(l@);
    let mut i: usize = l.len();
    assert(all.take(l@.len() as int) =~= all);
    while i > 0
        invariant
            i <= l@.len(),
            all == texts(l@),
            said_after(all, word@) == said_after(all.take(i as int), word@),
        decreases i,
    {
        assert(all.take(i as int).last() == l@[i - 1]@);
        assert(all.take(i as int).drop_last() =~= all.take(i - 1));
        match strip(l[i - 1].as_str(), word) {
            Some(v) => {
                return Some(trimmed(v.as_str()));
            },
            None => {},
        }
        i -= 1;
    }
    None
}

pub open spec fn pair_view(r: Result<(String, String), String>) -> Result<
    (Seq<char>, Seq<char>),
    Seq<char>,
> {
    match r {
        Ok(p) => Ok((p.0@, p.1@)),
        Err(e) => Err(e@),
    }
}

pub fn workspace(reply: &str) -> (r: Result<(String, String), String>)
    ensures
        pair_view(r) == workspace_of(reply@),
{
    let l = lines_of(reply);
    match (find_after(&l, "work="), find_after(&l, "out=")) {
        (Some(w), Some(o)) => Ok((w, o)),
        _ => Err(
            "the runner did not say where the workspace is; it replied: ".to_string().concat(
                quoted(reply).as_str(),
            ),
        ),
    }
}

// ---------------------------------------------------------------------------
// Images
// ---------------------------------------------------------------------------

pub open spec fn maybe_one(s: Option<String>) -> Seq<Seq<char>> {
    match s {
        Some(x) => seq![x@],
        None => Seq::empty(),
    }
}

/// Every image a guest declared, as it declared them.
pub open spec fn all_images(g: Guest) -> Seq<Seq<char>> {
    (match g.build {
        Some(b) => maybe_one(b.image),
        None => Seq::empty(),
    }) + maybe_one(g.run.image) + texts(g.run.images@)
}

/// The texts in order, each once.
pub open spec fn ordered(t: Seq<Seq<char>>) -> Seq<(Seq<char>, bool)>
    decreases t.len(),
{
    if t.len() == 0 {
        Seq::empty()
    } else {
        place(ordered(t.drop_last()), t.last(), true)
    }
}

/// Every image a guest declared, in one list and without duplicates.
///
/// Pre-pulling covers the toolchain as well as the tenant's own stack: both are
/// declared, both are needed, and a digest already in the store costs nothing
/// to ask for again.
pub fn declared_images(g: &Guest) -> (r: Vec<String>)
    ensures
        texts(r@) == names(ordered(all_images(*g))),
{
    let mut d: Dict<bool> = Dict::new();
    let ghost mut seen: Seq<Seq<char>> = Seq::empty();
    assert(d@ == ordered(seen));
    match &g.build {
        Some(b) => match &b.image {
            Some(i) => {
                d.insert(i.clone(), true);
                proof {
                    assert(seen.push(i@).drop_last() =~= seen);
                    seen = seen.push(i@);
                }
                assert(d@ == ordered(seen));
            },
            None => {},
        },
        None => {},
    }
    assert(d@ == ordered(seen));
    match &g.run.image {
        Some(i) => {
            d.insert(i.clone(), true);
            proof {
                assert(seen.push(i@).drop_last() =~= seen);
                seen = seen.push(i@);
            }
        },
        None => {},
    }
    let ghost first = seen;
    let ghost all = texts(g.run.images@);
    assert(d@ == ordered(first));
    let mut k: usize = 0;
    assert(first + all.take(0) =~= first);
    while k < g.run.images.len()
        invariant
            k <= g.run.images@.len(),
            all == texts(g.run.images@),
            d@ == ordered(first + all.take(k as int)),
        decreases g.run.images@.len() - k,
    {
        d.insert(g.run.images[k].clone(), true);
        proof {
            let next = first + all.take(k + 1);
            assert(next.drop_last() =~= first + all.take(k as int));
            assert(next.last() == g.run.images@[k as int]@);
        }
        k += 1;
    }
    proof {
        assert(all.take(all.len() as int) =~= all);
        assert(first + all =~= all_images(*g));
    }
    names_of(&d)
}

/// Nothing is fetched twice, and everything that was declared is.
pub proof fn law_each_image_is_fetched_once(t: Seq<Seq<char>>)
    ensures
        crate::dict::ascending(ordered(t)),
        forall|i: int| 0 <= i < t.len() ==> names(ordered(t)).contains(#[trigger] t[i]),
        forall|i: int| 0 <= i < ordered(t).len() ==> t.contains((#[trigger] ordered(t)[i]).0),
    decreases t.len(),
{
    if t.len() > 0 {
        let rest = t.drop_last();
        let o = ordered(rest);
        let p = ordered(t);
        law_each_image_is_fetched_once(rest);
        crate::dict::lemma_place_ascending(o, t.last(), true);
        assert forall|i: int| 0 <= i < t.len() implies names(p).contains(#[trigger] t[i]) by {
            crate::dict::lemma_place_find(o, t.last(), true, t[i]);
            if i < rest.len() {
                assert(rest[i] == t[i]);
                let k = choose|k: int| 0 <= k < names(o).len() && names(o)[k] == t[i];
                crate::dict::lemma_found(o, t[i]);
                assert(o[k].0 == t[i]);
            }
            let j = crate::dict::lemma_stands(p, t[i]);
            assert(names(p)[j] == t[i]);
        }
        assert forall|i: int| 0 <= i < p.len() implies t.contains((#[trigger] p[i]).0) by {
            crate::dict::lemma_found(p, p[i].0);
            crate::dict::lemma_place_find(o, t.last(), true, p[i].0);
            if p[i].0 == t.last() {
                assert(t[t.len() - 1] == p[i].0);
            } else {
                let k = crate::dict::lemma_stands(o, p[i].0);
                assert(rest.contains(o[k].0));
                let m = choose|m: int| 0 <= m < rest.len() && rest[m] == o[k].0;
                assert(t[m] == p[i].0);
            }
        }
    }
}

// ---------------------------------------------------------------------------
// Which sessions
// ---------------------------------------------------------------------------

/// What stands in the current directory.
pub enum Here {
    /// No manifest.
    Absent,
    /// A manifest, of this project.
    Project(String),
    /// A manifest that cannot be read, and why.
    Broken(String),
}

pub open spec fn no_session(name: Seq<char>) -> Seq<char> {
    "no session named "@ + debug_text(name) + "; try `reaper list`"@
}

pub open spec fn belongs(name: Seq<char>, owner: Seq<char>, project: Seq<char>) -> Seq<char> {
    "session "@ + debug_text(name) + " belongs to "@ + debug_text(owner)
        + ", but this command is acting for "@ + debug_text(project)
        + ". Run it from that project (or with its --manifest), or name one of this project's sessions"@
}

pub open spec fn nothing_implied() -> Seq<char> {
    "not inside a project, so there is nothing implied. Name a session, or run this where a .reaper.toml is"@
}

pub open spec fn no_sessions(project: Seq<char>) -> Seq<char> {
    "no sessions for "@ + debug_text(project)
        + ". `reaper up` creates one (it is not part of              `reaper test`, which needs a session to already be there); `reaper list`              shows what is running"@
}

/// The sessions of a project.
pub open spec fn of_project(v: Seq<Session>, project: Seq<char>) -> Seq<Session>
    decreases v.len(),
{
    if v.len() == 0 {
        Seq::empty()
    } else if v.last().project@ == project {
        of_project(v.drop_last(), project).push(v.last())
    } else {
        of_project(v.drop_last(), project)
    }
}

/// The project that a verb acts for: the one it was pointed at, or the one here.
pub open spec fn acting_for(project: Option<Seq<char>>, here: Here) -> Result<Seq<char>, Seq<char>> {
    match project {
        Some(p) => Ok(p),
        None => match here {
            Here::Absent => Err(nothing_implied()),
            Here::Broken(e) => Err(e@),
            Here::Project(p) => Ok(p@),
        },
    }
}

/// The sessions a verb acts on: the one that was named, if it is this
/// project's; otherwise this project's sessions.
pub open spec fn implied(
    explicit: Option<Seq<char>>,
    project: Option<Seq<char>>,
    here: Here,
    r: Seq<Reply>,
    i: int,
    said: Said,
) -> TalkView<Result<Seq<Session>, Seq<char>>> {
    match explicit {
        Some(name) => match found(r, i, ask(said, 0, Deed::Get(name))) {
            TalkView::Ask(a) => TalkView::Ask(a),
            TalkView::Done(Err(e), n, s) => TalkView::Done(Err(e), n, s),
            TalkView::Done(Ok(None), n, s) => TalkView::Done(Err(no_session(name)), n, s),
            TalkView::Done(Ok(Some(x)), n, s) => if project is Some && x.project@ != project->0 {
                TalkView::Done(Err(belongs(name, x.project@, project->0)), n, s)
            } else {
                TalkView::Done(Ok(seq![x]), n, s)
            },
        },
        None => match acting_for(project, here) {
            Err(e) => TalkView::Done(Err(e), i, said),
            Ok(p) => match listed(r, i, ask(said, 0, Deed::List)) {
                TalkView::Ask(a) => TalkView::Ask(a),
                TalkView::Done(Err(e), n, s) => TalkView::Done(Err(e), n, s),
                TalkView::Done(Ok(v), n, s) => if of_project(v@, p).len() == 0 {
                    TalkView::Done(Err(no_sessions(p)), n, s)
                } else {
                    TalkView::Done(Ok(of_project(v@, p)), n, s)
                },
            },
        },
    }
}

pub open spec fn sessions_talk(t: Talk<Result<Vec<Session>, String>>) -> TalkView<
    Result<Seq<Session>, Seq<char>>,
> {
    match t {
        Talk::Ask(a) => TalkView::Ask(a@),
        Talk::Done(v, n, s) => TalkView::Done(
            match v {
                Ok(x) => Ok(x@),
                Err(e) => Err(e@),
            },
            n as int,
            said_lines(s@),
        ),
    }
}

fn only_of(v: &Vec<Session>, project: &str) -> (r: Vec<Session>)
    ensures
        r@ == of_project(v@, project@),
{
    let mut out: Vec<Session> = Vec::new();
    let mut i: usize = 0;
    assert(v@.take(0) =~= Seq::empty());
    while i < v.len()
        invariant
            i <= v@.len(),
            out@ == of_project(v@.take(i as int), project@),
        decreases v@.len() - i,
    {
        assert(v@.take(i + 1).drop_last() =~= v@.take(i as int));
        assert(v@.take(i + 1).last() == v@[i as int]);
        if same(v[i].project.as_str(), project) {
            out.push(v[i].copy());
        }
        i += 1;
    }
    assert(v@.take(v@.len() as int) =~= v@);
    out
}

pub fn implied_sessions(
    explicit: &Option<String>,
    project: &Option<String>,
    here: &Here,
    r: &Vec<Reply>,
    i: usize,
    said: Vec<Line>,
) -> (t: Talk<Result<Vec<Session>, String>>)
    requires
        i <= r@.len(),
    ensures
        sessions_talk(t) == implied(
            maybe(*explicit),
            maybe(*project),
            *here,
            r@,
            i as int,
            said_lines(said@),
        ),
        crate::verbs::deeds::within(t, i, r@),
{
    match explicit {
        Some(name) => match ask_found(r, i, said, Deed::Get(name.clone())) {
            Talk::Ask(a) => Talk::Ask(a),
            Talk::Done(v, n, s) => match v {
                Err(e) => Talk::Done(Err(e), n, s),
                Ok(None) => Talk::Done(
                    Err(
                        "no session named ".to_string().concat(
                            quoted(name.as_str()).as_str(),
                        ).concat("; try `reaper list`"),
                    ),
                    n,
                    s,
                ),
                Ok(Some(x)) => {
                    // A verb that knows which project it is acting for must not
                    // cross to another project's machine on the strength of a
                    // typo. Verbs with no project in hand still work.
                    match project {
                        Some(p) => {
                            if !same(x.project.as_str(), p.as_str()) {
                                return Talk::Done(
                                    Err(
                                        "session ".to_string().concat(
                                            quoted(name.as_str()).as_str(),
                                        ).concat(" belongs to ").concat(
                                            quoted(x.project.as_str()).as_str(),
                                        ).concat(", but this command is acting for ").concat(
                                            quoted(p.as_str()).as_str(),
                                        ).concat(
                                            ". Run it from that project (or with its --manifest), or name one of this project's sessions",
                                        ),
                                    ),
                                    n,
                                    s,
                                );
                            }
                        },
                        None => {},
                    }
                    let one = vec![x.copy()];
                    assert(one@ =~= seq![*x]);
                    Talk::Done(Ok(one), n, s)
                },
            },
        },
        None => {
            let p = match project {
                Some(p) => p,
                None => match here {
                    Here::Absent => {
                        return Talk::Done(
                            Err(
                                "not inside a project, so there is nothing implied. Name a session, or run this where a .reaper.toml is".to_string(),
                            ),
                            i,
                            said,
                        );
                    },
                    Here::Broken(e) => {
                        return Talk::Done(Err(e.clone()), i, said);
                    },
                    Here::Project(p) => p,
                },
            };
            match ask_list(r, i, said) {
                Talk::Ask(a) => Talk::Ask(a),
                Talk::Done(v, n, s) => match v {
                    Err(e) => Talk::Done(Err(e), n, s),
                    Ok(all) => {
                        let mine = only_of(all, p.as_str());
                        if mine.len() == 0 {
                            Talk::Done(
                                Err(
                                    "no sessions for ".to_string().concat(
                                        quoted(p.as_str()).as_str(),
                                    ).concat(
                                        ". `reaper up` creates one (it is not part of              `reaper test`, which needs a session to already be there); `reaper list`              shows what is running",
                                    ),
                                ),
                                n,
                                s,
                            )
                        } else {
                            Talk::Done(Ok(mine), n, s)
                        }
                    },
                },
            }
        },
    }
}

/// A verb that acts for a project never crosses to another project's session.
pub proof fn law_a_verb_keeps_to_its_project(
    explicit: Option<Seq<char>>,
    project: Seq<char>,
    here: Here,
    r: Seq<Reply>,
    i: int,
    said: Said,
)
    ensures
        implied(explicit, Some(project), here, r, i, said) matches TalkView::Done(Ok(v), _, _) ==> {
            &&& v.len() > 0
            &&& forall|k: int| 0 <= k < v.len() ==> (#[trigger] v[k]).project@ == project
        },
{
    if explicit is None {
        match listed(r, i, ask(said, 0, Deed::List)) {
            TalkView::Done(Ok(v), _, _) => {
                lemma_of_project(v@, project);
            },
            _ => {},
        }
    }
}

proof fn lemma_of_project(v: Seq<Session>, project: Seq<char>)
    ensures
        forall|k: int|
            0 <= k < of_project(v, project).len() ==> (#[trigger] of_project(
                v,
                project,
            )[k]).project@ == project,
    decreases v.len(),
{
    if v.len() > 0 {
        lemma_of_project(v.drop_last(), project);
        let o = of_project(v, project);
        let p = of_project(v.drop_last(), project);
        assert forall|k: int| 0 <= k < o.len() implies (#[trigger] o[k]).project@ == project by {
            if k < p.len() {
                assert(o[k] == p[k]);
            }
        }
    }
}

}
