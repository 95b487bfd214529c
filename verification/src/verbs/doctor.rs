//! The site, judged.
//!
//! Every problem is a finding rather than an abort -- knowing that three things
//! broke is worth more than knowing that one did -- and nothing here creates
//! anything unless a canary is asked for.
use vstd::prelude::*;
use vstd::string::*;

use crate::config::{registry, Config};
use crate::dict::{names, place, Dict};
use crate::duration::exact;
use crate::manifest::{Guest, Manifest};
use crate::paths::{join as join_paths, joined, maybe};
use crate::provider::{is_listed, lists, Finding, Health, MachineRef, MachineSummary, RegisteredGuest};
use crate::scan::{has_char, lines as lines_in, lines_of};
use crate::session::Session;
use crate::text::{dec, decimal, decimal_wide, join, join_text, same, split, split_text, texts};
use crate::time::{Duration, SystemTime};
use crate::verbs::common::{
    missing_key, missing_ssh_key, read_span, span, unregistered, unregistered_guest,
};
use crate::verbs::deeds::{
    ask, ask_done, ask_fate, ask_findings, ask_list, ask_machine, ask_machines, ask_text, diagnosed,
    done, fared, lasted, lines, listed, machines, made, now, reached, say, silence, so_far, told,
    value_talk, warn, within, Deed, Fate, Line, Outcome, Reply, Said, Talk, TalkView,
};
use crate::verbs::sessions::{vouch, vouched};

verus! {

/// What the report added up to: the failures decide how a run of the doctor
/// ends, and the rest is for the reader.
#[derive(Debug, Clone, Copy, PartialEq, Eq, Structural)]
pub struct DoctorVerdict {
    pub fail: u128,
}

/// How a run of the doctor ends: 0 healthy or warned, 1 if anything failed, 2
/// if it could not run at all.
pub open spec fn ending(v: Option<DoctorVerdict>) -> u8 {
    match v {
        None => 2,
        Some(v) => if v.fail == 0 {
            0
        } else {
            1
        },
    }
}

pub fn exit_code(v: &Result<DoctorVerdict, String>) -> (r: u8)
    ensures
        r == ending(
            match *v {
                Ok(x) => Some(x),
                Err(_) => None,
            },
        ),
{
    match v {
        Err(_) => 2,
        Ok(x) => if x.fail == 0 {
            0
        } else {
            1
        },
    }
}

// ---------------------------------------------------------------------------
// The report
// ---------------------------------------------------------------------------

/// How many findings of each kind a report holds.
#[derive(Debug)]
pub struct Report<N = u128> {
    pub ok: N,
    pub warn: N,
    pub fail: N,
}

impl Report<u128> {
    pub open spec fn view(&self) -> Report<nat> {
        Report { ok: self.ok as nat, warn: self.warn as nat, fail: self.fail as nat }
    }

    pub fn new() -> (r: Report)
        ensures
            r@ == blank_report(),
    {
        Report { ok: 0, warn: 0, fail: 0 }
    }
}

pub open spec fn blank_report() -> Report<nat> {
    Report { ok: 0, warn: 0, fail: 0 }
}

/// How many findings there are in all.
pub open spec fn total(t: Report<nat>) -> nat {
    t.ok + t.warn + t.fail
}

/// The report with one finding more.
pub open spec fn tallied(t: Report<nat>, h: Health) -> Report<nat> {
    match h {
        Health::Fine => Report { ok: t.ok + 1, ..t },
        Health::Warn => Report { warn: t.warn + 1, ..t },
        Health::Fail => Report { fail: t.fail + 1, ..t },
    }
}

fn tally(t: Report, h: Health) -> (r: Report)
    requires
        total(t@) < u128::MAX,
    ensures
        r@ == tallied(t@, h),
{
    match h {
        Health::Fine => Report { ok: t.ok + 1, warn: t.warn, fail: t.fail },
        Health::Warn => Report { ok: t.ok, warn: t.warn + 1, fail: t.fail },
        Health::Fail => Report { ok: t.ok, warn: t.warn, fail: t.fail + 1 },
    }
}

/// The heading of a part of the report.
pub open spec fn headed(said: Said, title: Seq<char>) -> Said {
    said.push((false, ""@)).push((false, "--- "@ + title + " ---"@)).push((false, ""@))
}

fn head(said: Vec<Line>, title: &str) -> (r: Vec<Line>)
    ensures
        lines(r@) == headed(lines(said@), title@),
{
    let heading = "--- ".to_string().concat(title).concat(" ---");
    say(say(say(said, "".to_string()), heading), "".to_string())
}

pub open spec fn word(h: Health) -> Seq<char> {
    match h {
        Health::Fine => "ok  "@,
        Health::Warn => "WARN"@,
        Health::Fail => "FAIL"@,
    }
}

/// The lines below a finding, set in.
pub open spec fn set_in(said: Said, detail: Seq<Seq<char>>) -> Said
    decreases detail.len(),
{
    if detail.len() == 0 {
        said
    } else {
        set_in(said, detail.drop_last()).push((false, "      "@ + detail.last()))
    }
}

/// A finding, as it is reported.
pub open spec fn written(said: Said, f: Finding<Seq<char>>) -> Said {
    set_in(said.push((false, word(f.health) + "  "@ + f.label)), lines_in(f.detail))
}

fn write(said: Vec<Line>, f: &Finding) -> (r: Vec<Line>)
    ensures
        lines(r@) == written(lines(said@), f@),
{
    let w = match f.health {
        Health::Fine => "ok  ",
        Health::Warn => "WARN",
        Health::Fail => "FAIL",
    };
    let mut out = say(said, w.to_string().concat("  ").concat(f.label.as_str()));
    let detail = lines_of(f.detail.as_str());
    let ghost all = texts(detail@);
    let ghost base = lines(out@);
    let mut i: usize = 0;
    assert(all.take(0) =~= Seq::empty());
    while i < detail.len()
        invariant
            i <= detail@.len(),
            all == texts(detail@),
            lines(out@) == set_in(base, all.take(i as int)),
        decreases detail@.len() - i,
    {
        assert(all.take(i + 1).drop_last() =~= all.take(i as int));
        assert(all.take(i + 1).last() == detail@[i as int]@);
        out = say(out, "      ".to_string().concat(detail[i].as_str()));
        i += 1;
    }
    assert(all.take(detail@.len() as int) =~= all);
    out
}

/// The last line of a report.
pub open spec fn summed(said: Said, t: Report<nat>) -> Said {
    said.push((false, ""@)).push(
        (
            false,
            dec(t.ok) + " ok, "@ + dec(t.warn) + " warnings, "@ + dec(t.fail) + " failed"@,
        ),
    )
}

fn sum_up(said: Vec<Line>, t: &Report) -> (r: Vec<Line>)
    ensures
        lines(r@) == summed(lines(said@), t@),
{
    let line = decimal_wide(t.ok).concat(" ok, ").concat(decimal_wide(t.warn).as_str()).concat(
        " warnings, ",
    ).concat(decimal_wide(t.fail).as_str()).concat(" failed");
    say(say(said, "".to_string()), line)
}

pub open spec fn finding(label: Seq<char>, health: Health, detail: Seq<char>) -> Finding<
    Seq<char>,
> {
    Finding { label, health, detail }
}

fn made_finding(label: &str, health: Health, detail: String) -> (r: Finding)
    ensures
        r@ == finding(label@, health, detail@),
{
    Finding { label: label.to_string(), health, detail }
}

// ---------------------------------------------------------------------------
// The workstation
// ---------------------------------------------------------------------------

/// The manifest in reach.
pub enum Reach {
    Absent,
    Valid(Manifest),
    Broken(String),
}

/// What a run of the doctor goes by.
pub struct Checkup<'a> {
    pub cfg: &'a Config,
    /// Where the session store is.
    pub store: &'a str,
    pub key_present: bool,
    pub manifest: Reach,
    /// Where the manifest was looked for.
    pub manifest_at: &'a str,
    pub canary: bool,
    pub start: SystemTime,
}

/// The site configuration parses.
pub open spec fn site_finding(cfg: Config) -> Finding<Seq<char>> {
    finding(
        "site configuration"@,
        Health::Fine,
        cfg.path@ + " parses, "@ + dec(cfg.guests@.len()) + " guest(s) registered"@,
    )
}

fn judge_site(cfg: &Config) -> (r: Finding)
    ensures
        r@ == site_finding(*cfg),
{
    made_finding(
        "site configuration",
        Health::Fine,
        cfg.path.clone().concat(" parses, ").concat(
            decimal(cfg.guests.len() as u64).as_str(),
        ).concat(" guest(s) registered"),
    )
}

pub open spec fn key_finding(cfg: Config, present: bool) -> Finding<Seq<char>> {
    match missing_key(cfg, present) {
        Some(complaint) => finding("session key"@, Health::Fail, complaint),
        None => match cfg.session.ssh_key {
            Some(k) => finding("session key"@, Health::Fine, k@ + " exists"@),
            None => finding(
                "session key"@,
                Health::Warn,
                "no session.ssh_key is configured; whatever identities ssh offers will be tried, which works until it quietly does not"@,
            ),
        },
    }
}

fn judge_key(cfg: &Config, present: bool) -> (r: Finding)
    ensures
        r@ == key_finding(*cfg, present),
{
    match missing_ssh_key(cfg, present) {
        Some(complaint) => made_finding("session key", Health::Fail, complaint),
        None => match &cfg.session.ssh_key {
            Some(k) => made_finding("session key", Health::Fine, k.clone().concat(" exists")),
            None => made_finding(
                "session key",
                Health::Warn,
                "no session.ssh_key is configured; whatever identities ssh offers will be tried, which works until it quietly does not".to_string(),
            ),
        },
    }
}

pub open spec fn tool_finding(
    what: Seq<char>,
    command: Seq<char>,
    place: Option<Seq<char>>,
) -> Finding<Seq<char>> {
    match place {
        Some(p) => finding(what, Health::Fine, command + " is "@ + p),
        None => finding(
            what,
            Health::Fail,
            command
                + " is not on PATH and is not an executable path; every session operation needs it"@,
        ),
    }
}

fn judge_tool(what: &str, command: &str, place: &Option<String>) -> (r: Finding)
    ensures
        r@ == tool_finding(what@, command@, maybe(*place)),
{
    match place {
        Some(p) => made_finding(
            what,
            Health::Fine,
            command.to_string().concat(" is ").concat(p.as_str()),
        ),
        None => made_finding(
            what,
            Health::Fail,
            command.to_string().concat(
                " is not on PATH and is not an executable path; every session operation needs it",
            ),
        ),
    }
}

/// Where a command may be: an explicit path is looked for where it says, a bare
/// name in each directory of the search path.
pub open spec fn places(command: Seq<char>, path: Option<Seq<char>>) -> Seq<Seq<char>> {
    if command.contains('/') {
        seq![command]
    } else {
        match path {
            None => Seq::empty(),
            Some(p) => split(p, seq![':']).map_values(|d: Seq<char>| joined(d, command)),
        }
    }
}

/// The places to look for a command. Of those, the first that is an executable
/// file is where it is.
pub fn resolvable(command: &str, path: &Option<String>) -> (r: Vec<String>)
    ensures
        texts(r@) == places(command@, maybe(*path)),
{
    let mut out: Vec<String> = Vec::new();
    if has_char(command, '/') {
        out.push(command.to_string());
        assert(texts(out@) =~= seq![command@]);
        return out;
    }
    match path {
        None => {
            assert(texts(out@) =~= Seq::empty());
        },
        Some(p) => {
            let seps: [char; 1] = [':'];
            assert(seps@ =~= seq![':']);
            let dirs = split_text(p.as_str(), &seps);
            let ghost all = split(p@, seq![':']);
            let mut i: usize = 0;
            while i < dirs.len()
                invariant
                    i <= dirs@.len(),
                    all == texts(dirs@),
                    out@.len() == i,
                    forall|j: int|
                        0 <= j < i ==> (#[trigger] out@[j])@ == joined(all[j], command@),
                decreases dirs@.len() - i,
            {
                assert(all[i as int] == dirs@[i as int]@);
                out.push(join_paths(dirs[i].as_str(), command));
                i += 1;
            }
            assert(texts(out@) =~= all.map_values(|d: Seq<char>| joined(d, command@)));
        },
    }
    out
}

pub open spec fn store_finding(store: Seq<char>, probe: Outcome) -> Finding<Seq<char>> {
    match probe {
        Ok(_) => finding("session store"@, Health::Fine, store + " is writable"@),
        Err(e) => finding("session store"@, Health::Fail, e),
    }
}

fn judge_store(store: &str, probe: &Result<(), String>) -> (r: Finding)
    ensures
        r@ == store_finding(store@, crate::verbs::deeds::outcome(*probe)),
{
    match probe {
        Ok(_) => made_finding(
            "session store",
            Health::Fine,
            store.to_string().concat(" is writable"),
        ),
        Err(e) => made_finding("session store", Health::Fail, e.clone()),
    }
}

/// The templates that are registered, each once, in order.
pub open spec fn templates(guests: Seq<(Seq<char>, Seq<char>)>) -> Seq<(Seq<char>, bool)>
    decreases guests.len(),
{
    if guests.len() == 0 {
        Seq::empty()
    } else {
        place(templates(guests.drop_last()), guests.last().1, true)
    }
}

/// The guests that a template is registered for.
pub open spec fn guests_of(guests: Seq<(Seq<char>, Seq<char>)>, template: Seq<char>) -> Seq<
    Seq<char>,
>
    decreases guests.len(),
{
    if guests.len() == 0 {
        Seq::empty()
    } else if guests.last().1 == template {
        guests_of(guests.drop_last(), template).push(guests.last().0)
    } else {
        guests_of(guests.drop_last(), template)
    }
}

/// A sentence for each template that several guests share.
pub open spec fn shared(
    guests: Seq<(Seq<char>, Seq<char>)>,
    among: Seq<(Seq<char>, bool)>,
) -> Seq<Seq<char>>
    decreases among.len(),
{
    if among.len() == 0 {
        Seq::empty()
    } else {
        let before = shared(guests, among.drop_last());
        let t = among.last().0;
        if guests_of(guests, t).len() > 1 {
            before.push(t + " is registered for "@ + join(guests_of(guests, t), " and "@))
        } else {
            before
        }
    }
}

/// Two guests naming one template is legal and worth a person's eyes: their
/// sessions clone the same machine.
pub open spec fn registry_finding(cfg: Config) -> Finding<Seq<char>> {
    let guests = registry(cfg.guests@);
    let found = shared(guests, templates(guests));
    if found.len() == 0 {
        finding("guest registry"@, Health::Fine, "every guest has its own template"@)
    } else {
        finding("guest registry"@, Health::Warn, join(found, "\n"@))
    }
}

fn templates_of(cfg: &Config) -> (r: Dict<bool>)
    ensures
        r@ == templates(registry(cfg.guests@)),
{
    let ghost all = registry(cfg.guests@);
    let mut d: Dict<bool> = Dict::new();
    let mut i: usize = 0;
    assert(all.take(0) =~= Seq::empty());
    while i < cfg.guests.len()
        invariant
            i <= cfg.guests@.len(),
            all == registry(cfg.guests@),
            d@ == templates(all.take(i as int)),
        decreases cfg.guests@.len() - i,
    {
        assert(all.take(i + 1).drop_last() =~= all.take(i as int));
        let g = cfg.guests.value(i);
        assert(all.take(i + 1).last().1 == g.template@);
        d.insert(g.template.clone(), true);
        i += 1;
    }
    assert(all.take(cfg.guests@.len() as int) =~= all);
    d
}

fn sharers(cfg: &Config, template: &str) -> (r: Vec<String>)
    ensures
        texts(r@) == guests_of(registry(cfg.guests@), template@),
{
    let ghost all = registry(cfg.guests@);
    let mut out: Vec<String> = Vec::new();
    let mut i: usize = 0;
    assert(all.take(0) =~= Seq::empty());
    assert(texts(out@) =~= Seq::empty());
    while i < cfg.guests.len()
        invariant
            i <= cfg.guests@.len(),
            all == registry(cfg.guests@),
            texts(out@) == guests_of(all.take(i as int), template@),
        decreases cfg.guests@.len() - i,
    {
        assert(all.take(i + 1).drop_last() =~= all.take(i as int));
        let g = cfg.guests.value(i);
        assert(all.take(i + 1).last().1 == g.template@);
        if same(g.template.as_str(), template) {
            let ghost was = texts(out@);
            let name = cfg.guests.key(i).clone();
            assert(all.take(i + 1).last().0 == name@);
            out.push(name);
            assert(texts(out@) =~= was.push(name@));
        }
        i += 1;
    }
    assert(all.take(cfg.guests@.len() as int) =~= all);
    out
}

fn judge_registry(cfg: &Config) -> (r: Finding)
    ensures
        r@ == registry_finding(*cfg),
{
    let ghost guests = registry(cfg.guests@);
    let among = templates_of(cfg);
    let ghost all = among@;
    let mut out: Vec<String> = Vec::new();
    let mut i: usize = 0;
    assert(all.take(0) =~= Seq::empty());
    assert(texts(out@) =~= Seq::empty());
    while i < among.len()
        invariant
            i <= among@.len(),
            all == among@,
            guests == registry(cfg.guests@),
            texts(out@) == shared(guests, all.take(i as int)),
        decreases among@.len() - i,
    {
        assert(all.take(i + 1).drop_last() =~= all.take(i as int));
        assert(all.take(i + 1).last() == all[i as int]);
        let t = among.key(i);
        let who = sharers(cfg, t.as_str());
        assert(texts(who@).len() == who@.len());
        if who.len() > 1 {
            let ghost was = texts(out@);
            let line = t.clone().concat(" is registered for ").concat(
                join_text(&who, " and ").as_str(),
            );
            out.push(line);
            assert(texts(out@) =~= was.push(line@));
        }
        i += 1;
    }
    assert(all.take(among@.len() as int) =~= all);
    assert(texts(out@).len() == out@.len());
    if out.len() == 0 {
        made_finding(
            "guest registry",
            Health::Fine,
            "every guest has its own template".to_string(),
        )
    } else {
        made_finding("guest registry", Health::Warn, join_text(&out, "\n"))
    }
}

/// A sentence for each guest that the site does not register.
pub open spec fn strangers(cfg: Config, guests: Seq<Guest>) -> Seq<Seq<char>>
    decreases guests.len(),
{
    if guests.len() == 0 {
        Seq::empty()
    } else {
        let before = strangers(cfg, guests.drop_last());
        match unregistered(cfg, guests.last().name@) {
            Some(complaint) => before.push(complaint),
            None => before,
        }
    }
}

/// The manifest, when one is in reach. Its absence is a normal state for a
/// doctor run from anywhere, not an unchecked hazard.
pub open spec fn manifest_finding(c: Checkup) -> Finding<Seq<char>> {
    match c.manifest {
        Reach::Absent => finding(
            "manifest"@,
            Health::Fine,
            "no manifest at "@ + c.manifest_at@ + "; nothing to judge"@,
        ),
        Reach::Broken(e) => finding("manifest"@, Health::Fail, e@),
        Reach::Valid(m) => if strangers(*c.cfg, m.guests@).len() == 0 {
            finding(
                "manifest"@,
                Health::Fine,
                c.manifest_at@ + " is valid and every guest it names is registered"@,
            )
        } else {
            finding("manifest"@, Health::Fail, join(strangers(*c.cfg, m.guests@), "\n"@))
        },
    }
}

fn judge_manifest(c: &Checkup) -> (r: Finding)
    ensures
        r@ == manifest_finding(*c),
{
    match &c.manifest {
        Reach::Absent => made_finding(
            "manifest",
            Health::Fine,
            "no manifest at ".to_string().concat(c.manifest_at).concat("; nothing to judge"),
        ),
        Reach::Broken(e) => made_finding("manifest", Health::Fail, e.clone()),
        Reach::Valid(m) => {
            let mut out: Vec<String> = Vec::new();
            let mut i: usize = 0;
            assert(m.guests@.take(0) =~= Seq::empty());
            assert(texts(out@) =~= Seq::empty());
            while i < m.guests.len()
                invariant
                    i <= m.guests@.len(),
                    texts(out@) == strangers(*c.cfg, m.guests@.take(i as int)),
                decreases m.guests@.len() - i,
            {
                assert(m.guests@.take(i + 1).drop_last() =~= m.guests@.take(i as int));
                assert(m.guests@.take(i + 1).last() == m.guests@[i as int]);
                let ghost was = texts(out@);
                match unregistered_guest(c.cfg, m.guests[i].name.as_str()) {
                    Some(complaint) => {
                        out.push(complaint);
                        assert(texts(out@) =~= was.push(complaint@));
                    },
                    None => {},
                }
                i += 1;
            }
            assert(m.guests@.take(m.guests@.len() as int) =~= m.guests@);
            assert(texts(out@).len() == out@.len());
            if out.len() == 0 {
                made_finding(
                    "manifest",
                    Health::Fine,
                    c.manifest_at.to_string().concat(
                        " is valid and every guest it names is registered",
                    ),
                )
            } else {
                made_finding("manifest", Health::Fail, join_text(&out, "\n"))
            }
        },
    }
}

/// The guests as the provider is to judge them.
pub open spec fn enrolled(cfg: Config) -> Seq<RegisteredGuest<Seq<char>>> {
    registry(cfg.guests@).map_values(
        |g: (Seq<char>, Seq<char>)| RegisteredGuest { name: g.0, template: g.1 },
    )
}

/// The guests that the site registers, each with its template.
pub fn registered(cfg: &Config) -> (r: Vec<RegisteredGuest>)
    ensures
        r@.map_values(|g: RegisteredGuest| g@) == enrolled(*cfg),
{
    let ghost all = registry(cfg.guests@);
    let mut out: Vec<RegisteredGuest> = Vec::new();
    let mut i: usize = 0;
    while i < cfg.guests.len()
        invariant
            i <= cfg.guests@.len(),
            all == registry(cfg.guests@),
            out@.len() == i,
            forall|j: int|
                0 <= j < i ==> (#[trigger] out@[j])@ == (RegisteredGuest {
                    name: all[j].0,
                    template: all[j].1,
                }),
        decreases cfg.guests@.len() - i,
    {
        out.push(
            RegisteredGuest {
                name: cfg.guests.key(i).clone(),
                template: cfg.guests.value(i).template.clone(),
            },
        );
        i += 1;
    }
    assert(out@.map_values(|g: RegisteredGuest| g@) =~= enrolled(*cfg));
    out
}

// ---------------------------------------------------------------------------
// The sessions, judged against the machines they claim
// ---------------------------------------------------------------------------

/// The worse of what was found so far and a warning.
pub open spec fn at_least_warn(h: Health) -> Health {
    match h {
        Health::Fine => Health::Warn,
        _ => h,
    }
}

fn warned(h: Health) -> (r: Health)
    ensures
        r == at_least_warn(h),
{
    match h {
        Health::Fine => Health::Warn,
        _ => h,
    }
}

/// What the machines say of a session, if they could be listed.
pub open spec fn machine_note(x: Session, live: Option<Seq<MachineSummary>>) -> (
    Health,
    Seq<Seq<char>>,
) {
    match live {
        None => (Health::Fine, seq!["machine check skipped: the provider could not list"@]),
        Some(l) => if lists(l, x.machine@) {
            (Health::Fine, Seq::empty())
        } else {
            (
                Health::Fail,
                seq![
                    "its machine is gone; `reaper down "@ + x.name@ + "` clears the record"@,
                ],
            )
        },
    }
}

/// The expiry has decayed past two heartbeats. Renewal pushes the expiry to the
/// full time to live every interval, so what remains should stay within an
/// interval or so of it. Letting it decay past two is the symptom of a
/// heartbeat that is running but no longer renewing.
pub open spec fn decayed(cfg: Config, x: Session, at: SystemTime) -> bool {
    &&& x.expires_at@ >= at@
    &&& x.ttl@ >= 2 * cfg.session.heartbeat_interval@
    &&& x.expires_at@ - at@ < x.ttl@ - 2 * cfg.session.heartbeat_interval@
}

/// What is wrong with a session's heartbeat, if anything is.
pub open spec fn beat_note(cfg: Config, x: Session, at: SystemTime, ours: bool) -> Option<
    Seq<char>,
> {
    match x.heartbeat_pid {
        None => Some("it has no heartbeat: the expiry never moves"@),
        Some(_) => if !ours {
            Some("its heartbeat is dead: the expiry has stopped moving"@)
        } else if decayed(cfg, x, at) {
            Some(
                "its heartbeat is alive but the expiry has decayed to "@ + dec(
                    ((x.expires_at@ - at@) / 1_000_000_000) as nat,
                ) + "s of a "@ + dec((x.ttl@ / 1_000_000_000) as nat)
                    + "s ttl -- renewal may not be happening"@,
            )
        } else {
            None
        },
    }
}

/// A session, judged: its machine, its expiry, and its heartbeat.
pub open spec fn session_judged(
    cfg: Config,
    x: Session,
    live: Option<Seq<MachineSummary>>,
    at: SystemTime,
    ours: bool,
) -> (Health, Seq<Seq<char>>) {
    let (h, v) = machine_note(x, live);
    let (h, v) = if x.expires_at@ < at@ {
        (
            at_least_warn(h),
            v.push("its record is expired: the sweeper may take the machine at any moment"@),
        )
    } else {
        (h, v)
    };
    match beat_note(cfg, x, at, ours) {
        Some(n) => (at_least_warn(h), v.push(n)),
        None => (h, v),
    }
}

pub open spec fn session_finding(
    cfg: Config,
    x: Session,
    live: Option<Seq<MachineSummary>>,
    at: SystemTime,
    ours: bool,
) -> Finding<Seq<char>> {
    let (h, v) = session_judged(cfg, x, live, at, ours);
    finding(
        "session "@ + x.name@,
        h,
        join(
            if v.len() == 0 {
                seq!["record, machine and heartbeat agree"@]
            } else {
                v
            },
            "\n"@,
        ),
    )
}

fn note(v: Vec<String>, text: String) -> (r: Vec<String>)
    ensures
        texts(r@) == texts(v@).push(text@),
{
    let mut out = v;
    let ghost t = text@;
    out.push(text);
    assert(texts(out@) =~= texts(v@).push(t));
    out
}

fn judge_beat(cfg: &Config, x: &Session, at: &SystemTime, ours: bool) -> (r: Option<String>)
    ensures
        maybe(r) == beat_note(*cfg, *x, *at, ours),
{
    match x.heartbeat_pid {
        None => Some("it has no heartbeat: the expiry never moves".to_string()),
        Some(_) => {
            if !ours {
                return Some("its heartbeat is dead: the expiry has stopped moving".to_string());
            }
            x.ttl.bounds();
            cfg.session.heartbeat_interval.bounds();
            let left = match x.remaining(*at) {
                Some(d) => d,
                None => {
                    return None;
                },
            };
            left.bounds();
            let once = match x.ttl.checked_sub(&cfg.session.heartbeat_interval) {
                Some(d) => d,
                None => {
                    return None;
                },
            };
            let floor = match once.checked_sub(&cfg.session.heartbeat_interval) {
                Some(d) => d,
                None => {
                    return None;
                },
            };
            if left.shorter_than(&floor) {
                Some(
                    "its heartbeat is alive but the expiry has decayed to ".to_string().concat(
                        decimal(left.as_secs()).as_str(),
                    ).concat("s of a ").concat(decimal(x.ttl.as_secs()).as_str()).concat(
                        "s ttl -- renewal may not be happening",
                    ),
                )
            } else {
                None
            }
        },
    }
}

pub open spec fn live_view(live: Option<&Vec<MachineSummary>>) -> Option<Seq<MachineSummary>> {
    match live {
        Some(l) => Some(l@),
        None => None,
    }
}

/// A session, judged against the machines there are.
pub fn judge_session(
    cfg: &Config,
    x: &Session,
    live: Option<&Vec<MachineSummary>>,
    at: &SystemTime,
    ours: bool,
) -> (r: Finding)
    ensures
        r@ == session_finding(*cfg, *x, live_view(live), *at, ours),
{
    let mut notes: Vec<String> = Vec::new();
    let mut worst = Health::Fine;
    assert(texts(notes@) =~= Seq::empty());
    match live {
        None => {
            notes = note(notes, "machine check skipped: the provider could not list".to_string());
            assert(texts(notes@) =~= machine_note(*x, live_view(live)).1);
        },
        Some(l) => {
            if !is_listed(l, &x.machine) {
                worst = Health::Fail;
                notes = note(
                    notes,
                    "its machine is gone; `reaper down ".to_string().concat(
                        x.name.as_str(),
                    ).concat("` clears the record"),
                );
                assert(texts(notes@) =~= machine_note(*x, live_view(live)).1);
            }
        },
    }
    match x.remaining(*at) {
        Some(d) => {
            d.bounds();
        },
        None => {
            worst = warned(worst);
            notes = note(
                notes,
                "its record is expired: the sweeper may take the machine at any moment".to_string(),
            );
        },
    }
    match judge_beat(cfg, x, at, ours) {
        Some(n) => {
            worst = warned(worst);
            notes = note(notes, n);
        },
        None => {},
    }
    assert(texts(notes@).len() == notes@.len());
    if notes.len() == 0 {
        notes = note(notes, "record, machine and heartbeat agree".to_string());
        assert(texts(notes@) =~= seq!["record, machine and heartbeat agree"@]);
    }
    let label = "session ".to_string().concat(x.name.as_str());
    made_finding(label.as_str(), worst, join_text(&notes, "\n"))
}

// ---------------------------------------------------------------------------
// The conversation
// ---------------------------------------------------------------------------

/// The findings of a provider, one after the other.
pub open spec fn all_tallied(t: Report<nat>, v: Seq<Finding>) -> Report<nat>
    decreases v.len(),
{
    if v.len() == 0 {
        t
    } else {
        tallied(all_tallied(t, v.drop_last()), v.last().health)
    }
}

pub open spec fn all_written(said: Said, v: Seq<Finding>) -> Said
    decreases v.len(),
{
    if v.len() == 0 {
        said
    } else {
        written(all_written(said, v.drop_last()), v.last()@)
    }
}

proof fn lemma_all_tallied(t: Report<nat>, v: Seq<Finding>)
    ensures
        total(all_tallied(t, v)) == total(t) + v.len(),
    decreases v.len(),
{
    if v.len() > 0 {
        lemma_all_tallied(t, v.drop_last());
    }
}

/// One of the tools that every session operation needs.
pub open spec fn tool_checked(
    what: Seq<char>,
    command: Seq<char>,
    t: Report<nat>,
    r: Seq<Reply>,
    i: int,
    said: Said,
) -> TalkView<Report<nat>> {
    match told(r, i, ask(said, 0, Deed::Find(command))) {
        TalkView::Ask(q) => TalkView::Ask(q),
        TalkView::Done(p, n, s) => {
            let f = tool_finding(
                what,
                command,
                match p {
                    Ok(p) => Some(p),
                    Err(_) => None,
                },
            );
            TalkView::Done(tallied(t, f.health), n, written(s, f))
        },
    }
}

pub open spec fn report_talk(t: Talk<Report>) -> TalkView<Report<nat>> {
    match t {
        Talk::Ask(a) => TalkView::Ask(a@),
        Talk::Done(v, n, s) => TalkView::Done(v@, n as int, lines(s@)),
    }
}

fn check_tool(
    what: &str,
    command: &str,
    t: Report,
    r: &Vec<Reply>,
    i: usize,
    said: Vec<Line>,
) -> (o: Talk<Report>)
    requires
        i <= r@.len(),
        total(t@) < u128::MAX,
    ensures
        report_talk(o) == tool_checked(what@, command@, t@, r@, i as int, lines(said@)),
        within(o, i, r@),
        o matches Talk::Done(after, _, _) ==> total(after@) == total(t@) + 1,
{
    match ask_text(r, i, said, 0, Deed::Find(command.to_string())) {
        Talk::Ask(q) => Talk::Ask(q),
        Talk::Done(p, n, s) => {
            let place = match p {
                Ok(p) => Some(p),
                Err(_) => None,
            };
            let f = judge_tool(what, command, &place);
            Talk::Done(tally(t, f.health), n, write(s, &f))
        },
    }
}

/// What a report on the workstation starts with.
pub open spec fn opening(c: Checkup) -> (Report<nat>, Said) {
    let f = site_finding(*c.cfg);
    let g = key_finding(*c.cfg, c.key_present);
    (
        tallied(tallied(blank_report(), f.health), g.health),
        written(written(headed(Seq::empty(), "workstation"@), f), g),
    )
}

fn open_report(c: &Checkup) -> (r: (Report, Vec<Line>))
    ensures
        (r.0@, lines(r.1@)) == opening(*c),
        total(r.0@) == 2,
{
    let f = judge_site(c.cfg);
    let g = judge_key(c.cfg, c.key_present);
    let t = tally(tally(Report::new(), f.health), g.health);
    (t, write(write(head(silence(), "workstation"), &f), &g))
}

/// What a report on the workstation ends with.
pub open spec fn closing(c: Checkup, o: Outcome, t: Report<nat>, said: Said) -> (
    Report<nat>,
    Said,
) {
    let f = store_finding(c.store@, o);
    let g = registry_finding(*c.cfg);
    let h = manifest_finding(c);
    (
        tallied(tallied(tallied(t, f.health), g.health), h.health),
        written(written(written(said, f), g), h),
    )
}

fn close_report(c: &Checkup, o: &Result<(), String>, t: Report, said: Vec<Line>) -> (r: (
    Report,
    Vec<Line>,
))
    requires
        total(t@) == 4,
    ensures
        (r.0@, lines(r.1@)) == closing(
            *c,
            crate::verbs::deeds::outcome(*o),
            t@,
            lines(said@),
        ),
        total(r.0@) == 7,
{
    let f = judge_store(c.store, o);
    let g = judge_registry(c.cfg);
    let h = judge_manifest(c);
    (
        tally(tally(tally(t, f.health), g.health), h.health),
        write(write(write(said, &f), &g), &h),
    )
}

/// The workstation's part of the report.
pub open spec fn workstation(c: Checkup, r: Seq<Reply>) -> TalkView<Report<nat>> {
    match tool_checked(
        "ssh command"@,
        c.cfg.session.ssh_command@,
        opening(c).0,
        r,
        0,
        opening(c).1,
    ) {
        TalkView::Ask(q) => TalkView::Ask(q),
        TalkView::Done(t, n, s) => match tool_checked(
            "rsync command"@,
            c.cfg.session.rsync_command@,
            t,
            r,
            n,
            s,
        ) {
            TalkView::Ask(q) => TalkView::Ask(q),
            TalkView::Done(t, n, s) => match done(r, n, ask(s, 0, Deed::ProbeStore)) {
                TalkView::Ask(q) => TalkView::Ask(q),
                TalkView::Done(o, n, s) => TalkView::Done(
                    closing(c, o, t, s).0,
                    n,
                    closing(c, o, t, s).1,
                ),
            },
        },
    }
}

fn check_workstation(c: &Checkup, r: &Vec<Reply>) -> (o: Talk<Report>)
    ensures
        report_talk(o) == workstation(*c, r@),
        within(o, 0, r@),
        o matches Talk::Done(t, _, _) ==> total(t@) == 7,
{
    let (t, said) = open_report(c);
    let (t, n, s) = match check_tool(
        "ssh command",
        c.cfg.session.ssh_command.as_str(),
        t,
        r,
        0,
        said,
    ) {
        Talk::Ask(q) => {
            return Talk::Ask(q);
        },
        Talk::Done(t, n, s) => (t, n, s),
    };
    let (t, n, s) = match check_tool(
        "rsync command",
        c.cfg.session.rsync_command.as_str(),
        t,
        r,
        n,
        s,
    ) {
        Talk::Ask(q) => {
            return Talk::Ask(q);
        },
        Talk::Done(t, n, s) => (t, n, s),
    };
    match ask_done(r, n, s, 0, Deed::ProbeStore) {
        Talk::Ask(q) => Talk::Ask(q),
        Talk::Done(o, n, s) => {
            let (t, s) = close_report(c, &o, t, s);
            Talk::Done(t, n, s)
        },
    }
}

/// The records, one after the other.
pub open spec fn records(
    cfg: Config,
    v: Seq<Session>,
    live: Option<Seq<MachineSummary>>,
    at: SystemTime,
    t: Report<nat>,
    r: Seq<Reply>,
    i: int,
    said: Said,
) -> TalkView<Report<nat>>
    decreases v.len(),
{
    if v.len() == 0 {
        TalkView::Done(t, i, said)
    } else {
        match vouched(v[0], r, i, said) {
            TalkView::Ask(q) => TalkView::Ask(q),
            TalkView::Done(ours, n, s) => {
                let f = session_finding(cfg, v[0], live, at, ours);
                records(cfg, v.skip(1), live, at, tallied(t, f.health), r, n, written(s, f))
            },
        }
    }
}

fn check_records(
    cfg: &Config,
    v: &Vec<Session>,
    live: Option<&Vec<MachineSummary>>,
    at: &SystemTime,
    t: Report,
    r: &Vec<Reply>,
    i: usize,
    said: Vec<Line>,
) -> (o: Talk<Report>)
    requires
        i <= r@.len(),
        total(t@) + v@.len() < u128::MAX,
    ensures
        report_talk(o) == records(
            *cfg,
            v@,
            live_view(live),
            *at,
            t@,
            r@,
            i as int,
            lines(said@),
        ),
        within(o, i, r@),
        o matches Talk::Done(after, _, _) ==> total(after@) == total(t@) + v@.len(),
{
    let ghost whole = records(
        *cfg,
        v@,
        live_view(live),
        *at,
        t@,
        r@,
        i as int,
        lines(said@),
    );
    let mut score: Report = t;
    let mut here: usize = i;
    let mut lately: Vec<Line> = said;
    let mut k: usize = 0;
    assert(v@.skip(0) =~= v@);
    while k < v.len()
        invariant
            k <= v@.len(),
            i <= here <= r@.len(),
            total(t@) + v@.len() < u128::MAX,
            total(score@) == total(t@) + k,
            whole == records(*cfg, v@, live_view(live), *at, t@, r@, i as int, lines(said@)),
            whole == records(
                *cfg,
                v@.skip(k as int),
                live_view(live),
                *at,
                score@,
                r@,
                here as int,
                lines(lately@),
            ),
        decreases v@.len() - k,
    {
        assert(v@.skip(k as int)[0] == v@[k as int]);
        assert(v@.skip(k as int).skip(1) =~= v@.skip(k + 1));
        match vouch(&v[k], r, here, lately) {
            Talk::Ask(q) => {
                return Talk::Ask(q);
            },
            Talk::Done(ours, n, s) => {
                let f = judge_session(cfg, &v[k], live, at, ours);
                score = tally(score, f.health);
                lately = write(s, &f);
                here = n;
            },
        }
        k += 1;
    }
    Talk::Done(score, here, lately)
}

/// The sessions' part of the report.
pub open spec fn checked_sessions(
    c: Checkup,
    t: Report<nat>,
    r: Seq<Reply>,
    i: int,
    said: Said,
) -> TalkView<Report<nat>> {
    match machines(r, i, ask(headed(said, "sessions"@), 0, Deed::Machines)) {
        TalkView::Ask(q) => TalkView::Ask(q),
        TalkView::Done(live, n, s) => match listed(r, n, ask(s, 0, Deed::List)) {
            TalkView::Ask(q) => TalkView::Ask(q),
            TalkView::Done(Err(e), n, s) => TalkView::Done(
                tallied(t, Health::Fail),
                n,
                written(s, finding("session store"@, Health::Fail, e)),
            ),
            TalkView::Done(Ok(v), n, s) => if v@.len() == 0 {
                TalkView::Done(
                    tallied(t, Health::Fine),
                    n,
                    written(s, finding("sessions"@, Health::Fine, "no sessions recorded"@)),
                )
            } else {
                records(
                    *c.cfg,
                    v@,
                    match live {
                        Ok(l) => Some(l@),
                        Err(_) => None,
                    },
                    reached(r, n, c.start),
                    t,
                    r,
                    n,
                    s,
                )
            },
        },
    }
}

fn check_sessions(c: &Checkup, t: Report, r: &Vec<Reply>, i: usize, said: Vec<Line>) -> (o: Talk<
    Report,
>)
    requires
        i <= r@.len(),
        total(t@) + 0x1_0000_0000_0000_0000 < u128::MAX,
    ensures
        report_talk(o) == checked_sessions(*c, t@, r@, i as int, lines(said@)),
        within(o, i, r@),
        o matches Talk::Done(after, _, _) ==> total(after@) <= total(t@)
            + 0x1_0000_0000_0000_0000,
{
    let (live, n, s) = match ask_machines(r, i, head(said, "sessions"), 0) {
        Talk::Ask(q) => {
            return Talk::Ask(q);
        },
        Talk::Done(o, n, s) => {
            let live = match o {
                Ok(l) => Some(l),
                Err(_) => None,
            };
            (live, n, s)
        },
    };
    match ask_list(r, n, s) {
        Talk::Ask(q) => Talk::Ask(q),
        Talk::Done(o, n, s) => match o {
            Err(e) => {
                let f = made_finding("session store", Health::Fail, e);
                Talk::Done(tally(t, Health::Fail), n, write(s, &f))
            },
            Ok(v) => {
                if v.len() == 0 {
                    let f = made_finding(
                        "sessions",
                        Health::Fine,
                        "no sessions recorded".to_string(),
                    );
                    Talk::Done(tally(t, Health::Fine), n, write(s, &f))
                } else {
                    let when = now(r, n, &c.start);
                    check_records(c.cfg, v, live, &when, t, r, n, s)
                }
            },
        },
    }
}

// ---------------------------------------------------------------------------
// The canary
// ---------------------------------------------------------------------------

/// The whole seconds from one point of a conversation to a later one.
pub open spec fn elapsed(from: int, to: int) -> nat {
    if to < from {
        0
    } else {
        ((to - from) / 1_000_000_000) as nat
    }
}

fn secs_between(from: &Duration, to: &Duration) -> (r: u64)
    ensures
        r == elapsed(from@, to@),
{
    match to.checked_sub(from) {
        Some(d) => {
            d.bounds();
            d.as_secs()
        },
        None => 0,
    }
}

pub open spec fn collected_words(secs: nat) -> Seq<char> {
    "the sweeper collected it after "@ + dec(secs) + "s -- the dead-man's switch is live"@
}

pub open spec fn late_words(secs: nat) -> Seq<char> {
    "the sweeper took it only as the wait expired (~"@ + dec(secs)
        + "s) -- alive, but slower than sweep_within expects"@
}

pub open spec fn absent_words(patience: int, cleanup: Seq<char>) -> Seq<char> {
    "nothing collected an expired machine in "@ + exact((patience / 1_000_000_000) as nat)
        + ": the sweeper is absent or stopped; "@ + cleanup
}

/// What one more finding makes of a report.
pub open spec fn concluded(
    t: Report<nat>,
    said: Said,
    n: int,
    f: Finding<Seq<char>>,
) -> TalkView<Report<nat>> {
    TalkView::Done(tallied(t, f.health), n, written(said, f))
}

fn conclude(t: Report, said: Vec<Line>, n: usize, f: Finding) -> (o: Talk<Report>)
    requires
        total(t@) < u128::MAX,
    ensures
        report_talk(o) == concluded(t@, lines(said@), n as int, f@),
        o matches Talk::Done(after, m, _) && m == n && total(after@) == total(t@) + 1,
{
    Talk::Done(tally(t, f.health), n, write(said, &f))
}

/// Nothing took the canary in time: it is destroyed by hand.
pub open spec fn by_hand(
    machine: Seq<char>,
    started: int,
    patience: int,
    t: Report<nat>,
    r: Seq<Reply>,
    i: int,
    said: Said,
) -> TalkView<Report<nat>> {
    match fared(r, i, ask(said, 0, Deed::Destroy(machine))) {
        TalkView::Ask(q) => TalkView::Ask(q),
        TalkView::Done(Fate::Well, n, s) => concluded(
            t,
            s,
            n,
            finding(
                "canary"@,
                Health::Fail,
                absent_words(patience, "the canary has been destroyed by hand"@),
            ),
        ),
        // Collected between the last look and now: late, but alive.
        TalkView::Done(Fate::Gone(_), n, s) => concluded(
            t,
            s,
            n,
            finding(
                "canary"@,
                Health::Warn,
                late_words(elapsed(started, lasted(r, n))),
            ),
        ),
        TalkView::Done(Fate::Failed(e), n, s) => concluded(
            t,
            s,
            n,
            finding(
                "canary"@,
                Health::Fail,
                absent_words(
                    patience,
                    "and destroying it failed too ("@ + e
                        + "); it is expired, so a working sweeper would still collect it"@,
                ),
            ),
        ),
    }
}

/// Looking for the canary until it is gone or patience is. A look that fails is
/// absorbed; the deadline bounds it.
pub open spec fn watched(
    machine: MachineRef<Seq<char>>,
    started: int,
    patience: int,
    t: Report<nat>,
    r: Seq<Reply>,
    i: int,
    said: Said,
    pause: u64,
) -> TalkView<Report<nat>>
    decreases r.len() - i,
{
    match machines(r, i, ask(said, pause, Deed::Machines)) {
        TalkView::Ask(q) => TalkView::Ask(q),
        TalkView::Done(o, n, s) => {
            let at = lasted(r, n);
            if o matches Ok(l) && !lists(l@, machine) {
                concluded(
                    t,
                    s,
                    n,
                    finding("canary"@, Health::Fine, collected_words(elapsed(started, at))),
                )
            } else {
                let s = match o {
                    Ok(_) => s,
                    Err(e) => s.push(
                        (true, "reaper: canary poll failed ("@ + e + "); retrying"@),
                    ),
                };
                if at >= started + patience {
                    by_hand(machine.0, started, patience, t, r, n, s)
                } else {
                    watched(machine, started, patience, t, r, n, s, 5)
                }
            }
        },
    }
}

/// The active check of the sweeper: make a machine that is expired from birth,
/// and watch for the sweeper to take it. Safe by construction -- even a doctor
/// that dies leaves nothing that the sweeper will not collect -- and the
/// strongest evidence there is: a canary disappearing is the sweeper working.
pub open spec fn canary_talk(
    c: Checkup,
    patience: int,
    t: Report<nat>,
    r: Seq<Reply>,
    i: int,
    said: Said,
) -> TalkView<Report<nat>> {
    let at = reached(r, i, c.start);
    let guests = registry(c.cfg.guests@);
    if guests.len() == 0 {
        concluded(
            t,
            said,
            i,
            finding("canary"@, Health::Fail, "no guest is registered to clone from"@),
        )
    } else if at@ - 1_000_000_000 < crate::time::first_moment() {
        concluded(
            t,
            said,
            i,
            finding("canary"@, Health::Fail, "no moment before this one can be told"@),
        )
    } else {
        match made(
            r,
            i,
            ask(
                said,
                0,
                Deed::Create {
                    name: "reaper-doctor-canary"@,
                    template: guests[0].1,
                    cores: None,
                    ram_gb: None,
                    disk_gb: None,
                    expires_at: at@ - 1_000_000_000,
                },
            ),
        ) {
            TalkView::Ask(q) => TalkView::Ask(q),
            TalkView::Done(Err(e), n, s) => concluded(
                t,
                s,
                n,
                finding(
                    "canary"@,
                    Health::Fail,
                    "could not create the canary (from "@ + guests[0].0 + "'s template): "@ + e,
                ),
            ),
            TalkView::Done(Ok(m), n, s) => watched(
                m@,
                lasted(r, n),
                patience,
                t,
                r,
                n,
                s.push(
                    (
                        false,
                        "      canary "@ + m.0@
                            + " created, already expired; waiting up to "@ + exact(
                            (patience / 1_000_000_000) as nat,
                        ) + " for the sweeper"@,
                    ),
                ),
                0,
            ),
        }
    }
}

fn destroy_by_hand(
    machine: &MachineRef,
    started: &Duration,
    patience: &Duration,
    t: Report,
    r: &Vec<Reply>,
    i: usize,
    said: Vec<Line>,
) -> (o: Talk<Report>)
    requires
        i <= r@.len(),
        total(t@) < u128::MAX,
    ensures
        report_talk(o) == by_hand(
            machine.0@,
            started@,
            patience@,
            t@,
            r@,
            i as int,
            lines(said@),
        ),
        within(o, i, r@),
        o matches Talk::Done(after, _, _) ==> total(after@) == total(t@) + 1,
{
    patience.bounds();
    let (f, n, s) = match ask_fate(r, i, said, 0, Deed::Destroy(machine.0.clone())) {
        Talk::Ask(q) => {
            return Talk::Ask(q);
        },
        Talk::Done(f, n, s) => (f, n, s),
    };
    let cleanup = match f {
        Fate::Well => "the canary has been destroyed by hand".to_string(),
        Fate::Gone(_) => {
            let when = so_far(r, n);
            let words = "the sweeper took it only as the wait expired (~".to_string().concat(
                decimal(secs_between(started, &when)).as_str(),
            ).concat("s) -- alive, but slower than sweep_within expects");
            return conclude(t, s, n, made_finding("canary", Health::Warn, words));
        },
        Fate::Failed(e) => "and destroying it failed too (".to_string().concat(
            e.as_str(),
        ).concat("); it is expired, so a working sweeper would still collect it"),
    };
    let words = "nothing collected an expired machine in ".to_string().concat(
        crate::duration::format(*patience).as_str(),
    ).concat(": the sweeper is absent or stopped; ").concat(cleanup.as_str());
    conclude(t, s, n, made_finding("canary", Health::Fail, words))
}

/// Has `patience` run out between `started` and `at`?
fn is_over(started: &Duration, patience: &Duration, at: &Duration) -> (r: bool)
    ensures
        r == (at@ >= started@ + patience@),
{
    match at.checked_sub(started) {
        Some(d) => !d.shorter_than(patience),
        None => {
            patience.bounds();
            false
        },
    }
}

fn watch(
    machine: &MachineRef,
    started: &Duration,
    patience: &Duration,
    t: Report,
    r: &Vec<Reply>,
    i: usize,
    said: Vec<Line>,
) -> (o: Talk<Report>)
    requires
        i <= r@.len(),
        total(t@) < u128::MAX,
    ensures
        report_talk(o) == watched(
            machine@,
            started@,
            patience@,
            t@,
            r@,
            i as int,
            lines(said@),
            0,
        ),
        within(o, i, r@),
        o matches Talk::Done(after, _, _) ==> total(after@) == total(t@) + 1,
{
    let ghost whole = watched(
        machine@,
        started@,
        patience@,
        t@,
        r@,
        i as int,
        lines(said@),
        0,
    );
    let mut here: usize = i;
    let mut lately: Vec<Line> = said;
    let mut pause: u64 = 0;
    loop
        invariant
            i <= here <= r@.len(),
            total(t@) < u128::MAX,
            whole == watched(
                machine@,
                started@,
                patience@,
                t@,
                r@,
                i as int,
                lines(said@),
                0,
            ),
            whole == watched(
                machine@,
                started@,
                patience@,
                t@,
                r@,
                here as int,
                lines(lately@),
                pause,
            ),
        decreases r@.len() - here,
    {
        let (o, n, s) = match ask_machines(r, here, lately, pause) {
            Talk::Ask(q) => {
                return Talk::Ask(q);
            },
            Talk::Done(o, n, s) => (o, n, s),
        };
        let when = so_far(r, n);
        let gone = match o {
            Ok(l) => !is_listed(l, machine),
            Err(_) => false,
        };
        if gone {
            let words = "the sweeper collected it after ".to_string().concat(
                decimal(secs_between(started, &when)).as_str(),
            ).concat("s -- the dead-man's switch is live");
            return conclude(t, s, n, made_finding("canary", Health::Fine, words));
        }
        let s = match o {
            Ok(_) => s,
            Err(e) => warn(
                s,
                "reaper: canary poll failed (".to_string().concat(e.as_str()).concat(
                    "); retrying",
                ),
            ),
        };
        if is_over(started, patience, &when) {
            return destroy_by_hand(machine, started, patience, t, r, n, s);
        }
        here = n;
        lately = s;
        pause = 5;
    }
}

fn run_canary(
    c: &Checkup,
    patience: &Duration,
    t: Report,
    r: &Vec<Reply>,
    i: usize,
    said: Vec<Line>,
) -> (o: Talk<Report>)
    requires
        i <= r@.len(),
        total(t@) < u128::MAX,
    ensures
        report_talk(o) == canary_talk(*c, patience@, t@, r@, i as int, lines(said@)),
        within(o, i, r@),
        o matches Talk::Done(after, _, _) ==> total(after@) == total(t@) + 1,
{
    let when = now(r, i, &c.start);
    let second = Duration::from_secs(1);
    if c.cfg.guests.len() == 0 {
        return conclude(
            t,
            said,
            i,
            made_finding(
                "canary",
                Health::Fail,
                "no guest is registered to clone from".to_string(),
            ),
        );
    }
    let expires_at = match when.checked_sub(&second) {
        Some(x) => {
            x.bounds();
            x
        },
        None => {
            return conclude(
                t,
                said,
                i,
                made_finding(
                    "canary",
                    Health::Fail,
                    "no moment before this one can be told".to_string(),
                ),
            );
        },
    };
    let deed = Deed::Create {
        name: "reaper-doctor-canary".to_string(),
        template: c.cfg.guests.value(0).template.clone(),
        cores: None,
        ram_gb: None,
        disk_gb: None,
        expires_at,
    };
    match ask_machine(r, i, said, deed) {
        Talk::Ask(q) => Talk::Ask(q),
        Talk::Done(o, n, s) => match o {
            Err(e) => {
                let words = "could not create the canary (from ".to_string().concat(
                    c.cfg.guests.key(0).as_str(),
                ).concat("'s template): ").concat(e.as_str());
                conclude(t, s, n, made_finding("canary", Health::Fail, words))
            },
            Ok(m) => {
                let started = so_far(r, n);
                patience.bounds();
                let line = "      canary ".to_string().concat(m.0.as_str()).concat(
                    " created, already expired; waiting up to ",
                ).concat(crate::duration::format(*patience).as_str()).concat(" for the sweeper");
                watch(m, &started, patience, t, r, n, say(s, line))
            },
        },
    }
}

// ---------------------------------------------------------------------------
// The whole of it
// ---------------------------------------------------------------------------

/// How a report ends: the sum, and the failures.
pub open spec fn finished(t: Report<nat>, n: int, said: Said) -> TalkView<
    Result<DoctorVerdict, Seq<char>>,
> {
    TalkView::Done(Ok(DoctorVerdict { fail: t.fail as u128 }), n, summed(said, t))
}

fn finish(t: Report, n: usize, said: Vec<Line>) -> (o: Talk<Result<DoctorVerdict, String>>)
    ensures
        value_talk(o) == finished(t@, n as int, lines(said@)),
{
    let s = sum_up(said, &t);
    Talk::Done(Ok(DoctorVerdict { fail: t.fail }), n, s)
}

/// The provider's part, and what follows it. That it cannot be made ready is
/// itself a finding: its credential is read and checked on the way.
pub open spec fn examined(
    c: Checkup,
    patience: int,
    t: Report<nat>,
    r: Seq<Reply>,
    i: int,
    said: Said,
) -> TalkView<Result<DoctorVerdict, Seq<char>>> {
    match done(r, i, ask(headed(said, "provider"@), 0, Deed::Provider)) {
        TalkView::Ask(q) => TalkView::Ask(q),
        TalkView::Done(Err(e), n, s) => finished(
            tallied(tallied(t, Health::Fail), Health::Warn),
            n,
            written(
                written(s, finding("provider"@, Health::Fail, e)),
                finding(
                    "sessions"@,
                    Health::Warn,
                    "skipped: without the provider, records cannot be checked against the machines they claim"@,
                ),
            ),
        ),
        TalkView::Done(Ok(_), n, s) => match diagnosed(r, n, ask(s, 0, Deed::Diagnose)) {
            TalkView::Ask(q) => TalkView::Ask(q),
            TalkView::Done(v, n, s) => match checked_sessions(
                c,
                all_tallied(t, v@),
                r,
                n,
                all_written(s, v@),
            ) {
                TalkView::Ask(q) => TalkView::Ask(q),
                TalkView::Done(t, n, s) => if c.canary {
                    match canary_talk(c, patience, t, r, n, headed(s, "canary"@)) {
                        TalkView::Ask(q) => TalkView::Ask(q),
                        TalkView::Done(t, n, s) => finished(t, n, s),
                    }
                } else {
                    finished(t, n, s)
                },
            },
        },
    }
}

fn examine(
    c: &Checkup,
    patience: &Duration,
    t: Report,
    r: &Vec<Reply>,
    i: usize,
    said: Vec<Line>,
) -> (o: Talk<Result<DoctorVerdict, String>>)
    requires
        i <= r@.len(),
        total(t@) == 7,
    ensures
        value_talk(o) == examined(*c, patience@, t@, r@, i as int, lines(said@)),
{
    let (n, s) = match ask_done(r, i, head(said, "provider"), 0, Deed::Provider) {
        Talk::Ask(q) => {
            return Talk::Ask(q);
        },
        Talk::Done(o, n, s) => match o {
            Err(e) => {
                let f = made_finding("provider", Health::Fail, e);
                let g = made_finding(
                    "sessions",
                    Health::Warn,
                    "skipped: without the provider, records cannot be checked against the machines they claim".to_string(),
                );
                return finish(
                    tally(tally(t, Health::Fail), Health::Warn),
                    n,
                    write(write(s, &f), &g),
                );
            },
            Ok(_) => (n, s),
        },
    };
    let (v, n, s) = match ask_findings(r, n, s) {
        Talk::Ask(q) => {
            return Talk::Ask(q);
        },
        Talk::Done(v, n, s) => (v, n, s),
    };
    let (t, s) = report_all(t, s, v);
    let (t, n, s) = match check_sessions(c, t, r, n, s) {
        Talk::Ask(q) => {
            return Talk::Ask(q);
        },
        Talk::Done(t, n, s) => (t, n, s),
    };
    if !c.canary {
        return finish(t, n, s);
    }
    match run_canary(c, patience, t, r, n, head(s, "canary")) {
        Talk::Ask(q) => Talk::Ask(q),
        Talk::Done(t, n, s) => finish(t, n, s),
    }
}

fn report_all(t: Report, said: Vec<Line>, v: &Vec<Finding>) -> (r: (Report, Vec<Line>))
    requires
        total(t@) == 7,
    ensures
        r.0@ == all_tallied(t@, v@),
        lines(r.1@) == all_written(lines(said@), v@),
        total(r.0@) <= 7 + usize::MAX,
{
    let ghost t0 = t@;
    let ghost s0 = lines(said@);
    let mut score: Report = t;
    let mut out: Vec<Line> = said;
    let mut i: usize = 0;
    assert(v@.take(0) =~= Seq::empty());
    while i < v.len()
        invariant
            i <= v@.len(),
            total(t0) == 7,
            score@ == all_tallied(t0, v@.take(i as int)),
            lines(out@) == all_written(s0, v@.take(i as int)),
        decreases v@.len() - i,
    {
        assert(v@.take(i + 1).drop_last() =~= v@.take(i as int));
        assert(v@.take(i + 1).last() == v@[i as int]);
        proof {
            lemma_all_tallied(t0, v@.take(i as int));
        }
        score = tally(score, v[i].health);
        out = write(out, &v[i]);
        i += 1;
    }
    assert(v@.take(v@.len() as int) =~= v@);
    proof {
        lemma_all_tallied(t0, v@);
    }
    assert(v@.len() == i);
    (score, out)
}

/// How long the canary is waited for.
pub open spec fn patience_of(text: Option<Seq<char>>) -> Result<int, Seq<char>> {
    match text {
        Some(t) => span(t),
        None => Ok(900_000_000_000int),
    }
}

/// How long to wait for the canary. What cannot be read is the doctor failing
/// to run, not a finding.
pub fn patience(text: &Option<String>) -> (r: Result<Duration, String>)
    ensures
        crate::verbs::common::span_view(r) == patience_of(maybe(*text)),
{
    match text {
        Some(t) => read_span(t.as_str()),
        None => Ok(Duration::from_secs(900)),
    }
}

/// The site configuration cannot be read: one failure, and the shortest honest
/// report there is.
pub open spec fn unconfigured(e: Seq<char>) -> TalkView<Result<DoctorVerdict, Seq<char>>> {
    let f = finding("site configuration"@, Health::Fail, e);
    finished(
        tallied(blank_report(), Health::Fail),
        0,
        written(headed(Seq::empty(), "workstation"@), f),
    )
}

/// The site, judged end to end in one pass.
pub open spec fn judged(c: Result<Checkup, Seq<char>>, patience: int, r: Seq<Reply>) -> TalkView<
    Result<DoctorVerdict, Seq<char>>,
> {
    match c {
        Err(e) => unconfigured(e),
        Ok(c) => match workstation(c, r) {
            TalkView::Ask(q) => TalkView::Ask(q),
            TalkView::Done(t, n, s) => examined(c, patience, t, r, n, s),
        },
    }
}

/// `doctor`: the site, judged, with so much patience for the canary.
pub open spec fn doctor_talk(
    c: Result<Checkup, Seq<char>>,
    within: Option<Seq<char>>,
    r: Seq<Reply>,
) -> TalkView<Result<DoctorVerdict, Seq<char>>> {
    match patience_of(within) {
        Err(e) => TalkView::Done(Err(e), 0, Seq::empty()),
        Ok(d) => judged(c, d, r),
    }
}

pub open spec fn checkup_view<'a>(c: Result<Checkup<'a>, String>) -> Result<
    Checkup<'a>,
    Seq<char>,
> {
    match c {
        Ok(c) => Ok(c),
        Err(e) => Err(e@),
    }
}

fn judge(c: &Result<Checkup, String>, patience: &Duration, r: &Vec<Reply>) -> (o: Talk<
    Result<DoctorVerdict, String>,
>)
    ensures
        value_talk(o) == judged(checkup_view(*c), patience@, r@),
{
    match c {
        Err(e) => {
            let f = made_finding("site configuration", Health::Fail, e.clone());
            let said = write(head(silence(), "workstation"), &f);
            finish(tally(Report::new(), Health::Fail), 0, said)
        },
        Ok(c) => match check_workstation(c, r) {
            Talk::Ask(q) => Talk::Ask(q),
            Talk::Done(t, n, s) => examine(c, patience, t, r, n, s),
        },
    }
}

/// Judge the site end to end and say what is wrong. `c` is what there is to go
/// by, or why the site configuration cannot be read; `within` is how long to
/// wait for the canary, as it was asked for.
pub fn doctor(c: &Result<Checkup, String>, within: &Option<String>, r: &Vec<Reply>) -> (o: Talk<
    Result<DoctorVerdict, String>,
>)
    ensures
        value_talk(o) == doctor_talk(checkup_view(*c), maybe(*within), r@),
{
    match patience(within) {
        Err(e) => Talk::Done(Err(e), 0, silence()),
        Ok(d) => judge(c, &d, r),
    }
}

// ---------------------------------------------------------------------------
// What the doctor promises
// ---------------------------------------------------------------------------

/// Nothing is created, started, moved or destroyed unless a canary is asked
/// for.
pub open spec fn looks_only<T>(t: TalkView<T>) -> bool {
    t matches TalkView::Ask(q) ==> (q.deed is Find || q.deed is ProbeStore || q.deed is Provider
        || q.deed is Diagnose || q.deed is Machines || q.deed is List || q.deed is IsHeartbeat)
}

proof fn lemma_records_look(
    cfg: Config,
    v: Seq<Session>,
    live: Option<Seq<MachineSummary>>,
    at: SystemTime,
    t: Report<nat>,
    r: Seq<Reply>,
    i: int,
    said: Said,
)
    ensures
        looks_only(records(cfg, v, live, at, t, r, i, said)),
    decreases v.len(),
{
    if v.len() > 0 {
        match vouched(v[0], r, i, said) {
            TalkView::Ask(_) => {},
            TalkView::Done(ours, n, s) => {
                let f = session_finding(cfg, v[0], live, at, ours);
                lemma_records_look(
                    cfg,
                    v.skip(1),
                    live,
                    at,
                    tallied(t, f.health),
                    r,
                    n,
                    written(s, f),
                );
            },
        }
    }
}

/// A waiting time that cannot be read ends the run before anything is checked:
/// nothing is asked for, and nothing is said but why.
pub proof fn law_a_malformed_wait_checks_nothing(
    c: Result<Checkup, Seq<char>>,
    within: Seq<char>,
    r: Seq<Reply>,
)
    requires
        span(within) is Err,
    ensures
        doctor_talk(c, Some(within), r) == TalkView::Done::<Result<DoctorVerdict, Seq<char>>>(
            Err(span(within)->Err_0),
            0,
            Seq::empty(),
        ),
{
}

/// A doctor that is not asked for a canary only looks: whatever it is told, it
/// creates, renews, starts and destroys nothing.
pub proof fn law_a_checkup_only_looks(c: Checkup, within: Option<Seq<char>>, r: Seq<Reply>)
    requires
        !c.canary,
    ensures
        looks_only(doctor_talk(Ok(c), within, r)),
{
    match workstation(c, r) {
        TalkView::Ask(_) => {},
        TalkView::Done(t, n, s) => match done(
            r,
            n,
            ask(headed(s, "provider"@), 0, Deed::Provider),
        ) {
            TalkView::Done(Ok(_), n, s) => match diagnosed(r, n, ask(s, 0, Deed::Diagnose)) {
                TalkView::Ask(_) => {},
                TalkView::Done(v, n, s) => {
                    let t = all_tallied(t, v@);
                    let s = all_written(s, v@);
                    match machines(r, n, ask(headed(s, "sessions"@), 0, Deed::Machines)) {
                        TalkView::Ask(_) => {},
                        TalkView::Done(live, n, s) => match listed(r, n, ask(s, 0, Deed::List)) {
                            TalkView::Done(Ok(v), n, s) => {
                                lemma_records_look(
                                    *c.cfg,
                                    v@,
                                    match live {
                                        Ok(l) => Some(l@),
                                        Err(_) => None,
                                    },
                                    reached(r, n, c.start),
                                    t,
                                    r,
                                    n,
                                    s,
                                );
                            },
                            _ => {},
                        },
                    }
                },
            },
            _ => {},
        },
    }
}

/// The one machine a doctor makes is expired from birth, so that even a doctor
/// that dies leaves nothing the sweeper will not collect.
pub proof fn law_a_canary_is_born_expired(
    c: Checkup,
    patience: int,
    t: Report<nat>,
    r: Seq<Reply>,
    i: int,
    said: Said,
)
    ensures
        canary_talk(c, patience, t, r, i, said) matches TalkView::Ask(q) ==> (q.deed matches
            Deed::Create { expires_at, .. } ==> expires_at < reached(r, i, c.start)@),
{
    let at = reached(r, i, c.start);
    let guests = registry(c.cfg.guests@);
    if guests.len() > 0 && at@ - 1_000_000_000 >= crate::time::first_moment() {
        let said2 = said;
        match made(
            r,
            i,
            ask(
                said2,
                0,
                Deed::Create {
                    name: "reaper-doctor-canary"@,
                    template: guests[0].1,
                    cores: None,
                    ram_gb: None,
                    disk_gb: None,
                    expires_at: at@ - 1_000_000_000,
                },
            ),
        ) {
            TalkView::Done(Ok(m), n, s) => {
                lemma_watching_makes_nothing(
                    m@,
                    lasted(r, n),
                    patience,
                    t,
                    r,
                    n,
                    s.push(
                        (
                            false,
                            "      canary "@ + m.0@
                                + " created, already expired; waiting up to "@ + exact(
                                (patience / 1_000_000_000) as nat,
                            ) + " for the sweeper"@,
                        ),
                    ),
                    0,
                );
            },
            _ => {},
        }
    }
}

proof fn lemma_watching_makes_nothing(
    machine: MachineRef<Seq<char>>,
    started: int,
    patience: int,
    t: Report<nat>,
    r: Seq<Reply>,
    i: int,
    said: Said,
    pause: u64,
)
    ensures
        watched(machine, started, patience, t, r, i, said, pause) matches TalkView::Ask(q)
            ==> q.deed !is Create,
    decreases r.len() - i,
{
    match machines(r, i, ask(said, pause, Deed::Machines)) {
        TalkView::Ask(_) => {},
        TalkView::Done(o, n, s) => {
            let at = lasted(r, n);
            let s = match o {
                Ok(_) => s,
                Err(e) => s.push((true, "reaper: canary poll failed ("@ + e + "); retrying"@)),
            };
            if at < started + patience {
                lemma_watching_makes_nothing(machine, started, patience, t, r, n, s, 5);
            }
        },
    }
}

/// A session whose machine is gone is a failure; one that is expired or has no
/// working heartbeat is at least a warning; and only one of which the record,
/// the machine and the heartbeat agree, as far as they could be asked, is fine.
pub proof fn law_a_doubtful_session_is_never_fine(
    cfg: Config,
    x: Session,
    live: Option<Seq<MachineSummary>>,
    at: SystemTime,
    ours: bool,
)
    ensures
        (live matches Some(l) && !lists(l, x.machine@)) <==> session_finding(
            cfg,
            x,
            live,
            at,
            ours,
        ).health is Fail,
        session_finding(cfg, x, live, at, ours).health is Fine <==> (live matches Some(l) ==> lists(
            l,
            x.machine@,
        )) && x.expires_at@ >= at@ && x.heartbeat_pid is Some && ours && !decayed(cfg, x, at),
{
}

/// The doctor counts every finding, once, under what it came to.
pub proof fn law_every_finding_counts(t: Report<nat>, v: Seq<Finding>)
    ensures
        total(all_tallied(t, v)) == total(t) + v.len(),
        all_tallied(t, v).fail == t.fail <==> forall|i: int|
            0 <= i < v.len() ==> (#[trigger] v[i]).health !is Fail,
        all_tallied(t, v).fail >= t.fail,
    decreases v.len(),
{
    lemma_all_tallied(t, v);
    if v.len() > 0 {
        law_every_finding_counts(t, v.drop_last());
        assert(forall|i: int| 0 <= i < v.len() - 1 ==> v.drop_last()[i] == v[i]);
        assert(v.last() == v[v.len() - 1]);
    }
}

/// Every check of the workstation runs and reports, whatever the others found:
/// the part that is done holds seven findings, always.
pub proof fn law_every_check_runs(c: Checkup, r: Seq<Reply>)
    ensures
        workstation(c, r) matches TalkView::Done(t, _, _) ==> total(t) == 7,
{
}

}
