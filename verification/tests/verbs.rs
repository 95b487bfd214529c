//! The verbs, end to end, against a stand-in world.
use std::collections::{BTreeMap, BTreeSet};

use reaper::address::Address;
use reaper::config::{self, Config};
use reaper::manifest::read::from_str;
use reaper::manifest::Manifest;
use reaper::proc::{looks_like_heartbeat, stop, StopStep};
use reaper::provider::{Finding, Health, MachineRef, MachineSummary};
use reaper::session::{Change, Session, Store};
use reaper::time::{Duration, SystemTime};
use reaper::verbs::collector::{complain, pace, Pace};
use reaper::verbs::common::{
    declared_images, expiry_note, later, session_name, ttl_for, workspace, workstation_files, Here,
};
use reaper::verbs::deeds::{Deed, Event, Line, Reply, Talk};
use reaper::verbs::doctor::{
    doctor, exit_code, judge_session, patience, registered, resolvable, Checkup, DoctorVerdict,
    Reach,
};
use reaper::verbs::execute::{execute, Verb};
use reaper::verbs::project::{in_reach, project_here, project_of, tree_for, ManifestFile};
use reaper::verbs::sessions::{down, heartbeat, list, renew};
use reaper::verbs::state::{reset, snapshot};
use reaper::verbs::up::up;
use reaper::verbs::work::{sync, Work};

const STORE: &str = "/state/sessions.json";

const MINIMAL: &str = "
schema: 1
project: a-project
guests: [a-guest]
exec: host
run:
  cmd: make check
";

/// Both verbs, two caches, a sync exclusion and a cold profile.
const FULL: &str = r#"
schema: 1
project: a-project
guests: [a-guest]
exec: container
build:
  image: docker.io/library/toolchain@sha256:aaaaaaaaaaaaaaaaaaaaaaaaaaaaaaaaaaaaaaaaaaaaaaaaaaaaaaaaaaaaaaaa
  cmd: make build
  cache: [deps, build-dir]
  env:
    SHARED: from-the-build
    ONLY_BUILD: "1"
run:
  exec: host
  cmd: make check
  images:
    - docker.io/library/db@sha256:bbbbbbbbbbbbbbbbbbbbbbbbbbbbbbbbbbbbbbbbbbbbbbbbbbbbbbbbbbbbbbbb
sync:
  exclude: [/scratch/]
reset:
  datasets: [state]
profiles:
  nightly:
    warm_cache: false
    env:
      SHARED: from-the-profile
"#;

fn at(secs: u64) -> SystemTime {
    SystemTime::from_secs(secs).expect("a moment")
}

fn manifest(text: &str) -> Manifest {
    match from_str(text, "<inline>") {
        Ok(m) => m,
        Err(e) => panic!("should load: {}", e.message()),
    }
}

fn site(extra: &str) -> Config {
    let text = format!(
        "provider = \"p\"\n\
         [session]\n\
         default_ttl = \"2h\"\n\
         heartbeat_interval = \"10m\"\n\
         ready_grace = \"30m\"\n\
         max_concurrent = 2\n\
         ssh_command = \"/bin/ssh\"\n\
         rsync_command = \"/bin/rsync\"\n\
         results_interval = \"1s\"\n\
         {extra}\n\
         [guests.\"a-guest\"]\n\
         template = \"9000\"\n\
         [p]\n"
    );
    match config::parse(&text, "/etc/reaper/config.toml", &None) {
        Ok(c) => c,
        Err(e) => panic!("should parse: {}", e.message()),
    }
}

struct Machine {
    name: String,
    expires: SystemTime,
    running: bool,
    disk_gb: Option<u32>,
}

/// Everything a verb can act on.
struct World {
    cfg: Config,
    store: Store,
    text: Option<String>,
    machines: BTreeMap<String, Machine>,
    next: u32,
    clock: u64,
    /// Seconds that went by, whatever the clock was set to.
    ticks: u64,
    /// Somebody sets the clock forward by so much during every pause.
    leap: u64,
    /// Commands run in guests, and rsync invocations, in order.
    ssh: Vec<String>,
    rsync: Vec<String>,
    steps: Vec<String>,
    runners: u32,
    job: String,
    hosts_forgotten: Vec<String>,
    files_forgotten: Vec<String>,
    /// Refuse commands that hold this.
    refuse: Option<String>,
    refuse_times: u32,
    snapshots: String,
    stalled: bool,
    answers: bool,
    store_writable: bool,
    state_dir_refused: bool,
    heartbeats: BTreeSet<u32>,
    next_pid: u32,
    spawn_fails: bool,
    findings: Vec<(String, Health, String)>,
    sweeps_after: Option<u32>,
    out: String,
    err: String,
}

impl World {
    fn new() -> World {
        World::with(site(""))
    }

    fn with(cfg: Config) -> World {
        World {
            cfg,
            store: Store::at(STORE.to_string()),
            text: None,
            machines: BTreeMap::new(),
            next: 9001,
            clock: 1_700_000_000,
            ticks: 0,
            leap: 0,
            ssh: vec![],
            rsync: vec![],
            steps: vec![],
            runners: 0,
            job: String::new(),
            hosts_forgotten: vec![],
            files_forgotten: vec![],
            refuse: None,
            refuse_times: 0,
            snapshots: String::new(),
            stalled: false,
            answers: true,
            store_writable: true,
            state_dir_refused: false,
            heartbeats: BTreeSet::new(),
            next_pid: 4000,
            spawn_fails: false,
            findings: vec![],
            sweeps_after: None,
            out: String::new(),
            err: String::new(),
        }
    }

    fn print(&mut self, lines: &[Line]) {
        for l in lines {
            let stream = if l.err { &mut self.err } else { &mut self.out };
            stream.push_str(&l.text);
            stream.push('\n');
        }
    }

    fn forget_logs(&mut self) {
        self.ssh.clear();
        self.rsync.clear();
        self.steps.clear();
        self.out.clear();
        self.err.clear();
    }

    fn remote(&mut self, command: &str) -> Result<String, String> {
        self.ssh.push(command.to_string());
        self.steps.push(command.to_string());
        if self.refuse_times > 0 {
            self.refuse_times -= 1;
            return Err("no route to host".to_string());
        }
        if let Some(p) = &self.refuse {
            if command.contains(p.as_str()) {
                return Err(format!("refusing {p}"));
            }
        }
        if command.contains("runner.sh workspace") || command.contains(" workspace") {
            return Ok("work=/a-pool/work/a-project\nout=/a-pool/work/a-project/out\n".to_string());
        }
        if command.contains("runner.sh snapshots") {
            return Ok(self.snapshots.clone());
        }
        if command.contains("runner.sh snapshot") {
            return Ok("snapshot=tank/state@pristine\n".to_string());
        }
        Ok(String::new())
    }

    fn update(&mut self, name: &str, change: Change) -> Event {
        match self.store.update(&self.text, name, change) {
            Ok((text, _)) => {
                self.text = Some(text);
                Event::Done
            }
            Err(e) => Event::Failed(e.message()),
        }
    }

    fn done(r: Result<String, String>) -> Event {
        match r {
            Ok(_) => Event::Done,
            Err(e) => Event::Failed(e),
        }
    }

    fn told(r: Result<String, String>) -> Event {
        match r {
            Ok(t) => Event::Text(t),
            Err(e) => Event::Failed(e),
        }
    }

    fn perform(&mut self, deed: Deed) -> Event {
        match deed {
            Deed::Provider => Event::Done,
            Deed::ProbeStore => {
                if self.store_writable {
                    Event::Done
                } else {
                    Event::Failed("the store is read-only".to_string())
                }
            }
            Deed::Get(name) => match self.store.get(&self.text, &name) {
                Ok(s) => Event::Found(s),
                Err(e) => Event::Failed(e.message()),
            },
            Deed::List => match self.store.list(&self.text) {
                Ok(v) => Event::Sessions(v),
                Err(e) => Event::Failed(e.message()),
            },
            Deed::Put(s) => {
                self.text = Some(self.store.put(&self.text, s).expect("stored"));
                Event::Done
            }
            Deed::Remove(name) => {
                self.text = Some(self.store.remove(&self.text, &name).ok().expect("readable").0);
                Event::Done
            }
            Deed::RecordExpiry(name, t) => self.update(&name, Change::Expiry(t)),
            Deed::RecordRenewal(name, t, d) => self.update(&name, Change::Renewal(t, d)),
            Deed::RecordHeartbeat(name, p) => self.update(&name, Change::Heartbeat(p)),
            Deed::RecordSync(name, t) => self.update(&name, Change::Synced(t)),
            Deed::Machines => {
                if let Some(n) = self.sweeps_after {
                    if n == 0 {
                        self.machines.clear();
                        self.sweeps_after = None;
                    } else {
                        self.sweeps_after = Some(n - 1);
                    }
                }
                Event::Machines(
                    self.machines
                        .iter()
                        .map(|(id, m)| MachineSummary {
                            machine: MachineRef::new(id),
                            name: m.name.clone(),
                            expires_at: Some(m.expires),
                            running: m.running,
                        })
                        .collect(),
                )
            }
            Deed::Create { name, template, disk_gb, expires_at, .. } => {
                assert_eq!(template, "9000");
                let id = self.next.to_string();
                self.next += 1;
                self.machines.insert(
                    id.clone(),
                    Machine { name, expires: expires_at, running: false, disk_gb },
                );
                Event::Machine(MachineRef::new(&id))
            }
            Deed::Start(m) => match self.machines.get_mut(&m) {
                Some(x) => {
                    x.running = true;
                    Event::Done
                }
                None => Event::Gone("not found".to_string()),
            },
            Deed::SetExpiry(m, t) => match self.machines.get_mut(&m) {
                Some(x) => {
                    x.expires = t;
                    Event::Done
                }
                None => Event::Gone("not found".to_string()),
            },
            Deed::Destroy(m) => {
                self.steps.push("destroy".to_string());
                if self.stalled {
                    return Event::Failed("timed out: still running".to_string());
                }
                match self.machines.remove(&m) {
                    Some(_) => Event::Done,
                    None => Event::Gone("not found".to_string()),
                }
            }
            Deed::AddressOf(_) => {
                self.clock += 1;
                self.ticks += 1;
                Event::Address(if self.answers { Address::parse("192.0.2.42") } else { None })
            }
            Deed::Diagnose => Event::Findings(
                self.findings
                    .iter()
                    .map(|(l, h, d)| Finding { label: l.clone(), health: *h, detail: d.clone() })
                    .collect(),
            ),
            Deed::Alive(p) => Event::Flag(self.heartbeats.contains(&p)),
            Deed::StartHeartbeat(_) => {
                if self.spawn_fails {
                    return Event::Failed("cannot fork".to_string());
                }
                self.next_pid += 1;
                self.heartbeats.insert(self.next_pid);
                Event::Pid(Some(self.next_pid))
            }
            Deed::IsHeartbeat(p) => {
                let alive = self.heartbeats.contains(&p);
                Event::Verdict(looks_like_heartbeat(alive, &Some("reaper heartbeat".to_string())))
            }
            Deed::StopProcess(p) => Event::Flag(self.heartbeats.remove(&p)),
            Deed::ForgetHosts(n) => {
                if self.state_dir_refused {
                    return Event::Failed("/state: permission denied".to_string());
                }
                self.hosts_forgotten.push(n);
                Event::Done
            }
            Deed::ForgetFiles(n) => {
                self.files_forgotten.push(n);
                Event::Done
            }
            Deed::Run { command, .. } => World::told(self.remote(&command)),
            Deed::RunLive { command, .. } => World::done(self.remote(&command)),
            Deed::RunCollecting { command, .. } => World::done(self.remote(&command)),
            Deed::UploadRunner { .. } => {
                self.runners += 1;
                Event::Done
            }
            Deed::UploadJob { script, .. } => {
                self.job = script;
                Event::Done
            }
            Deed::WriteScript { .. } => Event::Done,
            Deed::MakeDir(_) => Event::Done,
            Deed::Execute { program, args } => {
                let line = format!("{program} {}", args.join(" "));
                self.steps.push(line.clone());
                self.rsync.push(line);
                Event::Text("*deleting   stale.txt\n".to_string())
            }
            Deed::ClearResults(_) => {
                self.steps.push("clear".to_string());
                Event::Count(3)
            }
            Deed::Find(c) => {
                if c == "/bin/ssh" {
                    Event::Text(c)
                } else {
                    Event::Failed("not found".to_string())
                }
            }
        }
    }

    /// Carry a conversation to its end.
    fn drive<T>(&mut self, step: impl Fn(&Config, SystemTime, &Vec<Reply>) -> Talk<T>) -> T {
        let start = at(self.clock);
        let mut replies: Vec<Reply> = Vec::new();
        for _ in 0..4000 {
            match step(&self.cfg, start, &replies) {
                Talk::Done(value, used, lines) => {
                    assert_eq!(used, replies.len(), "every reply was asked for");
                    self.print(&lines);
                    return value;
                }
                Talk::Ask(q) => {
                    self.print(&q.say);
                    self.clock += q.pause + if q.pause > 0 { self.leap } else { 0 };
                    self.ticks += q.pause;
                    let event = self.perform(q.deed);
                    replies.push(Reply { event, at: at(self.clock), since: Duration::from_secs(self.ticks) });
                }
            }
        }
        panic!("the conversation does not end: {}\n{}", self.out, self.err);
    }

    fn up(&mut self, m: &Manifest) -> Result<(), String> {
        self.drive(|cfg, start, r| {
            up(&reaper::verbs::up::Site { cfg, manifest: m, start }, &None, &None, &None, true, r)
        })
    }

    fn list(&mut self) -> String {
        self.out.clear();
        self.drive(|_, start, r| list(&start, r)).expect("list");
        self.out.clone()
    }

    fn renew(&mut self, ttl: &Option<String>) -> Result<(), String> {
        let here = Here::Project("a-project".to_string());
        self.drive(|_, start, r| renew(&None, ttl, &Ok(None), &here, &start, r))
    }

    fn down_of(&mut self, all: bool, project: &str) -> Result<(), String> {
        let here = Here::Project(project.to_string());
        let project = project.to_string();
        self.drive(|cfg, start, r| {
            let site = reaper::verbs::sessions::Site {
                cfg,
                store: STORE,
                standing: Some((project.clone(), ".".to_string())),
                start,
            };
            down(&site, all, &None, &Ok(None), &here, r)
        })
    }

    fn down(&mut self) -> Result<(), String> {
        self.down_of(false, "a-project")
    }

    fn work<T>(
        &mut self,
        m: &Manifest,
        step: impl Fn(&Work, &Vec<Reply>) -> Talk<T>,
    ) -> T {
        self.drive(|cfg, start, r| {
            step(&Work { cfg, manifest: m, store: STORE, tree: "/tree", start }, r)
        })
    }

    fn sync(&mut self, m: &Manifest) -> Result<(), String> {
        self.work(m, |w, r| sync(w, &None, r, 0, vec![]))
    }

    fn execute(&mut self, m: &Manifest, v: Verb, profile: Option<&str>) -> Result<(), String> {
        let profile = profile.map(str::to_string);
        self.work(m, |w, r| execute(w, v, &None, &profile, r, 0, vec![]))
    }

    fn reset(&mut self, m: &Manifest, to: Option<&str>) -> Result<(), String> {
        let to = to.map(str::to_string);
        self.work(m, |w, r| reset(w, &to, &None, r, 0, vec![]))
    }

    fn snapshot(&mut self, m: &Manifest, name: &str) -> Result<(), String> {
        self.work(m, |w, r| snapshot(w, name, &None, r))
    }

    fn test(&mut self, m: &Manifest, to: Option<&str>) -> Result<(), String> {
        let to = to.map(str::to_string);
        self.work(m, |w, r| reaper::verbs::state::test(w, &to, &None, &None, r))
    }

    fn doctor(&mut self, reach: Reach, canary: bool) -> Result<DoctorVerdict, String> {
        let start = at(self.clock);
        let limit = Some("60s".to_string());
        let mut replies: Vec<Reply> = Vec::new();
        let mut reach = Some(reach);
        loop {
            let c = Ok(Checkup {
                cfg: &self.cfg,
                store: STORE,
                key_present: true,
                manifest: reach.take().expect("the manifest"),
                manifest_at: ".reaper.toml",
                canary,
                start,
            });
            let talk = doctor(&c, &limit, &replies);
            reach = c.ok().map(|c: Checkup| c.manifest);
            match talk {
                Talk::Done(v, _, lines) => {
                    self.print(&lines);
                    return v;
                }
                Talk::Ask(q) => {
                    self.print(&q.say);
                    self.clock += q.pause + if q.pause > 0 { self.leap } else { 0 };
                    self.ticks += q.pause;
                    let event = self.perform(q.deed);
                    replies.push(Reply { event, at: at(self.clock), since: Duration::from_secs(self.ticks) });
                }
            }
        }
    }
}

#[test]
fn a_session_goes_up_gets_listed_renewed_and_comes_back_down() {
    let mut w = World::new();
    let m = manifest(MINIMAL);

    w.up(&m).expect("up");
    assert!(w.out.contains("192.0.2.42"), "up should report the address: {}", w.out);
    assert_eq!(w.machines.len(), 1, "exactly one machine");
    let first = w.machines["9001"].expires;

    let listed = w.list();
    assert!(listed.contains("a-project"), "{listed}");
    assert!(listed.contains("192.0.2.42"), "{listed}");
    assert!(listed.contains("a-guest"), "{listed}");

    // Renewing moves the expiry forward, which is the whole dead-man's switch.
    w.clock += 2;
    w.renew(&None).expect("renew");
    assert!(first.is_before(&w.machines["9001"].expires), "renew must move the expiry");

    w.down().expect("down");
    assert!(w.machines.is_empty(), "down must destroy the machine");
    assert!(w.list().contains("no sessions"));
    assert_eq!(w.files_forgotten, vec!["a-project"]);
}

#[test]
fn a_second_up_reuses_the_live_session_rather_than_making_another() {
    let mut w = World::new();
    let m = manifest(MINIMAL);
    w.up(&m).expect("up");
    w.forget_logs();

    w.up(&m).expect("up again");
    assert!(w.out.contains("reusing"), "{}", w.out);
    assert_eq!(w.machines.len(), 1, "a second up must not create more");

    // A dead heartbeat is started again on the way.
    w.heartbeats.clear();
    w.forget_logs();
    w.up(&m).expect("up again");
    assert!(w.out.contains("its heartbeat was dead"), "{}", w.out);
    assert_eq!(w.heartbeats.len(), 1);
}

#[test]
fn a_record_whose_machine_is_gone_is_not_reused() {
    let mut w = World::new();
    let m = manifest(MINIMAL);
    w.up(&m).expect("up");
    w.machines.clear();
    let e = w.up(&m).expect_err("nothing to reuse");
    assert!(e.contains("its machine is gone"), "{e}");
}

#[test]
fn an_unregistered_guest_is_refused_before_anything_is_created() {
    // A typo should cost nothing, and certainly not a machine.
    let mut w = World::new();
    let m = manifest(
        "schema: 1\nproject: a-project\nguests: [never-registered]\nexec: host\nrun: { cmd: make check }\n",
    );
    let err = w.up(&m).expect_err("refused");
    assert!(err.contains("never-registered"), "{err}");
    assert!(err.contains("a-guest"), "should list what is registered: {err}");
    assert!(w.machines.is_empty(), "nothing may have been created");
}

#[test]
fn a_guest_the_manifest_does_not_name_is_refused() {
    let mut w = World::new();
    let m = manifest(MINIMAL);
    let err = w
        .drive(|cfg, start, r| {
            up(
                &reaper::verbs::up::Site { cfg, manifest: &m, start },
                &Some("other".to_string()),
                &None,
                &None,
                true,
                r,
            )
        })
        .expect_err("refused");
    assert!(err.contains("\"other\"") && err.contains("a-guest"), "{err}");
}

#[test]
fn cheap_checks_come_before_a_machine_is_made() {
    let mut w = World::new();
    w.store_writable = false;
    let err = w.up(&manifest(MINIMAL)).expect_err("unwritable");
    assert!(err.contains("read-only"), "{err}");
    assert!(w.machines.is_empty());

    let mut w = World::with(site("ssh_key = \"/keys/k\""));
    let m = manifest(MINIMAL);
    let err = w
        .drive(|cfg, start, r| {
            up(&reaper::verbs::up::Site { cfg, manifest: &m, start }, &None, &None, &None, false, r)
        })
        .expect_err("no key");
    assert!(err.contains("/keys/k does not exist"), "{err}");
    assert!(w.machines.is_empty());
}

#[test]
fn the_concurrency_cap_is_enforced() {
    let mut w = World::new();
    // The cap is two; three projects cannot all be up.
    for project in ["one", "two"] {
        w.up(&manifest(&MINIMAL.replace("a-project", project))).expect("up");
    }
    let err = w.up(&manifest(&MINIMAL.replace("a-project", "three"))).expect_err("capped");
    assert!(err.contains("max_concurrent"), "{err}");
    assert_eq!(w.machines.len(), 2, "the third must not have been created");

    w.down_of(true, "one").expect("down --all");
    assert!(w.machines.is_empty());
}

#[test]
fn the_cap_counts_the_cluster_and_not_just_this_workstation() {
    let mut w = World::new();
    // Somebody else already has two up. The cap here is two.
    for id in ["9050", "9051"] {
        w.machines.insert(
            id.to_string(),
            Machine {
                name: "theirs".to_string(),
                expires: at(9_999_999_999),
                running: true,
                disk_gb: None,
            },
        );
    }
    let err = w.up(&manifest(MINIMAL)).expect_err("capped");
    assert!(err.contains("already up on this provider"), "{err}");
    assert!(err.contains("not yours"), "it should say whose they are: {err}");
    assert_eq!(w.machines.len(), 2, "nothing of ours may have been created");
}

#[test]
fn down_keeps_a_session_it_could_not_destroy() {
    // Forgetting it would hide a machine that still exists.
    let mut w = World::new();
    w.up(&manifest(MINIMAL)).expect("up");
    w.stalled = true;

    let err = w.down().expect_err("it fails");
    assert!(err.contains("1 session(s) could not be destroyed"), "{err}");
    assert!(w.err.contains("could not destroy"), "{}", w.err);
    assert!(w.list().contains("a-project"), "the session must remain visible");

    w.stalled = false;
    w.down().expect("down");
    assert!(w.machines.is_empty(), "the machine should be gone");
    assert!(w.list().contains("no sessions"));
}

#[test]
fn down_forgets_a_session_whose_machine_something_else_already_collected() {
    let mut w = World::new();
    w.up(&manifest(MINIMAL)).expect("up");
    w.machines.clear();

    w.out.clear();
    w.down().expect("down");
    assert!(w.out.contains("already gone"), "{}", w.out);
    assert!(w.list().contains("no sessions"));
}

#[test]
fn a_heartbeat_is_started_and_stopped_with_the_session() {
    let mut w = World::new();
    w.up(&manifest(MINIMAL)).expect("up");
    let listed = w.list();
    let pid: u32 = listed
        .lines()
        .find(|l| l.starts_with("a-project"))
        .and_then(|l| l.split_whitespace().last())
        .and_then(|p| p.parse().ok())
        .unwrap_or_else(|| panic!("no heartbeat pid in:\n{listed}"));
    assert!(w.heartbeats.contains(&pid), "the heartbeat should be running");

    w.down().expect("down");
    assert!(!w.heartbeats.contains(&pid), "down should have stopped the heartbeat");
}

#[test]
fn host_keys_that_cannot_be_kept_fail_an_up() {
    let mut w = World::new();
    w.state_dir_refused = true;
    assert_eq!(w.up(&manifest(MINIMAL)).unwrap_err(), "/state: permission denied");
    assert!(w.ssh.is_empty(), "nothing was run: {:?}", w.ssh);
    assert!(w.list().contains("a-project"), "it was recorded first");
}

#[test]
fn a_heartbeat_that_cannot_start_does_not_cost_the_session() {
    let mut w = World::new();
    w.spawn_fails = true;
    w.up(&manifest(MINIMAL)).expect("up");
    assert!(w.err.contains("could not start the renewal heartbeat"), "{}", w.err);
    assert!(w.list().contains("none"));
}

#[test]
fn a_reused_pid_is_recognized_as_not_ours() {
    assert_eq!(looks_like_heartbeat(true, &Some("some test binary".to_string())), Some(false));
    assert_eq!(looks_like_heartbeat(true, &None), Some(false));
    assert_eq!(
        looks_like_heartbeat(true, &Some("/bin/reaper heartbeat --session x".to_string())),
        Some(true)
    );
}

#[test]
fn a_dead_pid_is_gone_not_foreign() {
    assert_eq!(looks_like_heartbeat(false, &None), None);
    assert_eq!(looks_like_heartbeat(false, &Some("heartbeat".to_string())), None);
}

#[test]
fn stopping_is_polite_before_it_is_not() {
    assert_eq!(stop(&vec![]), StopStep::Look);
    assert_eq!(stop(&vec![false]), StopStep::Done(true));
    assert_eq!(stop(&vec![true]), StopStep::Terminate);
    assert_eq!(stop(&vec![true; 2]), StopStep::Wait);
    assert_eq!(stop(&vec![true; 20]), StopStep::Wait);
    assert_eq!(stop(&vec![true; 21]), StopStep::Kill);
    assert_eq!(stop(&vec![true; 22]), StopStep::Done(false));
    assert_eq!(stop(&vec![true, true, false]), StopStep::Done(true));
}

#[test]
fn a_session_gets_a_blank_disk_sized_by_the_site_default() {
    let mut w = World::new();
    w.up(&manifest(MINIMAL)).expect("up");
    assert_eq!(w.machines["9001"].disk_gb, Some(64));
}

#[test]
fn a_tenant_can_ask_for_a_bigger_pool_than_the_site_default() {
    let mut w = World::new();
    w.up(&manifest(&format!("{MINIMAL}resources:\n  disk_gb: 200\n"))).expect("up");
    assert_eq!(w.machines["9001"].disk_gb, Some(200));
}

#[test]
fn up_delivers_the_runner_and_builds_the_storage_before_declaring_ready() {
    let mut w = World::new();
    w.up(&manifest(MINIMAL)).expect("up");
    assert_eq!(w.runners, 1, "the runner is shipped");
    assert!(w.ssh.iter().any(|c| c == "/tmp/reaper-runner.sh firstboot"), "{:?}", w.ssh);
    assert!(w.hosts_forgotten.contains(&"a-project".to_string()));
}

#[test]
fn a_session_whose_storage_cannot_be_built_is_not_reported_as_ready() {
    let mut w = World::new();
    w.refuse = Some("firstboot".to_string());
    let err = w.up(&manifest(MINIMAL)).expect_err("no storage");
    assert!(err.contains("firstboot"), "{err}");
    assert_eq!(w.runners, 1, "the runner should still have been delivered");
    // The machine still exists and still carries its expiry, and the session
    // is recorded, so `down` can clear it.
    assert_eq!(w.machines.len(), 1);
    assert!(w.list().contains("a-project"));
    // And what never became ready is not reused.
    w.refuse = None;
    let err = w.up(&manifest(MINIMAL)).expect_err("not ready");
    assert!(err.contains("never became ready"), "{err}");
    w.down().expect("down");
}

#[test]
fn up_waits_for_a_machine_that_answers_not_merely_one_with_an_address() {
    let mut w = World::new();
    // Three refusals, then the machine starts answering.
    w.refuse_times = 3;
    w.up(&manifest(MINIMAL)).expect("up");
    assert!(w.out.contains("192.0.2.42"), "it should get there in the end: {}", w.out);
    assert!(w.out.contains("waiting"), "it should say what it is waiting on: {}", w.out);
    assert_eq!(w.machines.len(), 1, "and must not create a second machine");
    assert_eq!(w.refuse_times, 0);
}

#[test]
fn a_machine_that_never_answers_is_left_tagged_rather_than_torn_down() {
    let mut w = World::new();
    w.refuse_times = 100_000;
    w.up(&manifest(MINIMAL)).expect("up ends, honestly");
    assert!(w.out.contains("nothing answered"), "{}", w.out);
    assert_eq!(w.machines.len(), 1);
    w.refuse_times = 0;
    w.down().expect("down");
    assert!(w.machines.is_empty());
}

#[test]
fn a_sync_pushes_the_tree_and_brings_results_back() {
    let mut w = World::new();
    let m = manifest(FULL);
    w.up(&m).expect("up");
    w.forget_logs();

    w.sync(&m).expect("sync");
    assert!(w.out.contains("synced"), "{}", w.out);
    assert_eq!(w.rsync.len(), 2, "one push and one pull: {:?}", w.rsync);

    // Forward. The destination is the path the runner reported.
    let push = &w.rsync[0];
    assert!(push.contains("--delete"), "{push}");
    assert!(push.contains("--exclude=/out/"), "{push}");
    assert!(push.contains("--exclude=/scratch/"), "the tenant's own: {push}");
    assert!(push.contains("192.0.2.42:/a-pool/work/a-project/"), "{push}");

    // And back, with no --delete.
    let pull = &w.rsync[1];
    assert!(!pull.contains("--delete"), "the results channel must never delete: {pull}");
    assert!(pull.contains("192.0.2.42:/a-pool/work/a-project/out/"), "{pull}");
}

#[test]
fn a_build_runs_in_the_declared_image_with_its_caches() {
    let mut w = World::new();
    let m = manifest(FULL);
    w.up(&m).expect("up");
    w.sync(&m).expect("sync");
    w.forget_logs();

    w.execute(&m, Verb::Build, None).expect("build");
    let ssh = w.ssh.join("\n");
    assert!(ssh.contains("exec --project a-project --job /tmp/reaper-job.sh"), "{ssh}");
    assert!(ssh.contains("--image docker.io/library/toolchain@sha256:aaaa"), "{ssh}");
    assert!(ssh.contains("--cache deps"), "{ssh}");
    assert!(ssh.contains("--cache build-dir"), "{ssh}");

    // The command reached the guest as a delivered file, not as an argument.
    assert!(w.job.contains("make build"), "{}", w.job);
    assert!(w.job.contains("ONLY_BUILD='1'"), "{}", w.job);
    assert!(!ssh.contains("make build"), "{ssh}");
}

#[test]
fn a_run_may_execute_on_the_host_of_a_container_guest() {
    let mut w = World::new();
    let m = manifest(FULL);
    w.up(&m).expect("up");
    w.sync(&m).expect("sync");
    w.forget_logs();

    w.execute(&m, Verb::Run, None).expect("run");
    let ssh = w.ssh.join("\n");
    assert!(ssh.contains("exec --project a-project"), "{ssh}");
    assert!(!ssh.contains("--image"), "a host-execution run must not be given an image: {ssh}");
    assert!(w.job.contains("make check"));
}

#[test]
fn a_cold_profile_mounts_no_cache_and_wins_on_environment() {
    let mut w = World::new();
    let m = manifest(FULL);
    w.up(&m).expect("up");
    w.sync(&m).expect("sync");
    w.forget_logs();

    w.execute(&m, Verb::Build, Some("nightly")).expect("build");
    assert!(w.out.contains("cold"), "the operator should be told: {}", w.out);
    let ssh = w.ssh.join("\n");
    assert!(ssh.contains("--cache deps"), "{ssh}");
    assert!(ssh.contains("--cold"), "{ssh}");
    assert!(w.job.contains("SHARED='from-the-profile'"), "{}", w.job);
    assert!(!w.job.contains("from-the-build"), "{}", w.job);
}

#[test]
fn an_unknown_profile_is_refused_by_name() {
    let mut w = World::new();
    let m = manifest(FULL);
    w.up(&m).expect("up");
    let err = w.execute(&m, Verb::Build, Some("does-not-exist")).expect_err("refused");
    assert!(err.contains("does-not-exist"), "{err}");
    assert!(err.contains("nightly"), "should say what does exist: {err}");
}

#[test]
fn a_project_with_no_build_is_told_so_rather_than_failing_in_the_guest() {
    let mut w = World::new();
    let m = manifest(MINIMAL);
    w.up(&m).expect("up");
    let err = w.execute(&m, Verb::Build, None).expect_err("refused");
    assert!(err.contains("no build"), "{err}");
}

#[test]
fn nothing_runs_where_nothing_was_synced() {
    let mut w = World::new();
    let m = manifest(FULL);
    w.up(&m).expect("up");
    w.forget_logs();
    assert!(w.execute(&m, Verb::Run, None).is_err());
    assert!(!w.ssh.iter().any(|c| c.contains("exec --project")), "{:?}", w.ssh);
}

#[test]
fn every_declared_image_is_fetched_when_a_session_first_comes_up() {
    let mut w = World::new();
    w.up(&manifest(FULL)).expect("up");
    let ssh = w.ssh.join("\n");
    assert!(ssh.contains("pull docker.io/library/db@sha256:bbbb"), "{ssh}");
    assert!(ssh.contains("docker.io/library/toolchain@sha256:aaaa"), "{ssh}");
}

#[test]
fn a_session_that_cannot_pre_fetch_is_still_a_usable_session() {
    let mut w = World::new();
    w.refuse = Some("reaper-runner.sh pull".to_string());
    w.up(&manifest(FULL)).expect("up");
    assert!(w.out.contains("192.0.2.42"), "the session must still come up: {}", w.out);
    assert_eq!(w.machines.len(), 1);
}

#[test]
fn results_are_collected_before_a_machine_is_destroyed() {
    let mut w = World::new();
    let m = manifest(FULL);
    w.up(&m).expect("up");
    w.sync(&m).expect("sync");
    w.forget_logs();

    w.down().expect("down");
    assert!(w.out.contains("results collected"), "{}", w.out);
    assert_eq!(w.rsync.len(), 1, "one last pull: {:?}", w.rsync);
    assert!(!w.rsync[0].contains("--delete"), "and still not a mirror: {:?}", w.rsync);
    let pulled = w.steps.iter().position(|s| s.contains("/bin/rsync")).expect("pulled");
    let gone = w.steps.iter().position(|s| s == "destroy").expect("destroyed");
    assert!(pulled < gone, "{:?}", w.steps);
    assert!(w.machines.is_empty());
}

#[test]
fn a_session_that_was_never_synced_is_not_asked_for_results() {
    let mut w = World::new();
    w.up(&manifest(FULL)).expect("up");
    w.forget_logs();
    w.down().expect("down");
    assert!(w.rsync.is_empty(), "nothing to collect, so nothing tried");
    assert!(w.machines.is_empty());
}

#[test]
fn a_failed_command_still_gets_its_results_out() {
    let mut w = World::new();
    let m = manifest(FULL);
    w.up(&m).expect("up");
    w.sync(&m).expect("sync");
    w.forget_logs();
    w.refuse = Some("exec --project".to_string());

    assert!(w.execute(&m, Verb::Build, None).is_err());
    assert!(
        w.rsync.iter().any(|l| l.contains("/a-pool/work/a-project/out/")),
        "a failing build must still hand its results over: {:?}",
        w.rsync
    );
}

#[test]
fn a_manifest_elsewhere_decides_the_project_too() {
    let mut w = World::new();
    let other = manifest(&MINIMAL.replace("a-project", "elsewhere"));
    w.up(&other).expect("up");
    assert_eq!(w.machines.len(), 1);

    w.forget_logs();
    w.sync(&other).expect("sync");
    assert!(w.out.contains("elsewhere"), "{}", w.out);
    w.forget_logs();
    w.execute(&other, Verb::Run, None).expect("run");
    assert!(w.out.contains("elsewhere"), "{}", w.out);

    // The directory's own project still has no session.
    let err = w.sync(&manifest(FULL)).expect_err("no sessions");
    assert!(err.contains("a-project"), "{err}");

    let named = Ok(Some("elsewhere".to_string()));
    w.drive(|_, start, r| renew(&None, &None, &named, &Here::Absent, &start, r)).expect("renew");
    w.drive(|cfg, start, r| {
        let site = reaper::verbs::sessions::Site { cfg, store: STORE, standing: None, start };
        down(&site, false, &None, &named, &Here::Absent, r)
    })
    .expect("down");
    assert!(w.machines.is_empty(), "down must have acted on the right project");
}

#[test]
fn a_run_takes_the_pristine_snapshot_and_says_what_it_captured() {
    let mut w = World::new();
    let m = manifest(FULL);
    w.up(&m).expect("up");
    w.sync(&m).expect("sync");
    w.forget_logs();

    w.execute(&m, Verb::Run, None).expect("run");
    let ssh = w.ssh.join("\n");
    assert!(ssh.contains("snapshot --dataset state --name pristine --if-absent"), "{ssh}");
    assert!(w.out.contains("after this run"), "{}", w.out);
}

#[test]
fn a_failed_run_takes_no_snapshot() {
    let mut w = World::new();
    let m = manifest(FULL);
    w.up(&m).expect("up");
    w.sync(&m).expect("sync");
    w.forget_logs();
    w.refuse = Some("exec --project".to_string());

    assert!(w.execute(&m, Verb::Run, None).is_err());
    assert!(!w.ssh.iter().any(|c| c.contains("snapshot")), "{:?}", w.ssh);
}

#[test]
fn reset_rolls_back_every_declared_dataset() {
    let mut w = World::new();
    let m = manifest(FULL);
    w.up(&m).expect("up");
    w.forget_logs();

    w.reset(&m, None).expect("reset");
    let ssh = w.ssh.join("\n");
    assert!(ssh.contains("rollback --dataset state --name pristine"), "{ssh}");
    assert!(w.out.contains("rolled back to pristine"), "{}", w.out);

    w.forget_logs();
    w.reset(&m, Some("before-the-bad-step")).expect("reset");
    assert!(w.ssh.join("\n").contains("--name before-the-bad-step"), "{:?}", w.ssh);
}

#[test]
fn snapshot_names_a_point() {
    let mut w = World::new();
    let m = manifest(FULL);
    w.up(&m).expect("up");
    w.forget_logs();

    w.snapshot(&m, "mid").expect("snapshot");
    let ssh = w.ssh.join("\n");
    assert!(ssh.contains("snapshot --dataset state --name mid"), "{ssh}");
    // An explicit name is a deliberate act.
    assert!(!ssh.contains("--if-absent"), "{ssh}");

    // And a hostile one stays one word.
    w.forget_logs();
    w.snapshot(&m, "x;reboot").expect("snapshot");
    assert!(w.ssh.join("\n").ends_with("--name 'x;reboot'"), "{:?}", w.ssh);
}

#[test]
fn a_project_with_no_reset_datasets_is_told_so() {
    let mut w = World::new();
    let m = manifest(MINIMAL);
    w.up(&m).expect("up");
    let err = w.reset(&m, None).expect_err("nothing to do");
    assert!(err.contains("nothing to roll back"), "{err}");
    let err = w.snapshot(&m, "mid").expect_err("nothing to do");
    assert!(err.contains("no state"), "{err}");
}

#[test]
fn the_reset_trigger_is_started_with_a_session_that_wants_one() {
    let mut w = World::new();
    w.up(&manifest(FULL)).expect("up");
    assert!(
        w.ssh.iter().any(|c| c.contains("control --project a-project start")),
        "{:?}",
        w.ssh
    );
}

#[test]
fn a_session_that_cannot_roll_anything_back_starts_no_trigger() {
    let mut w = World::new();
    w.up(&manifest(MINIMAL)).expect("up");
    assert!(!w.ssh.iter().any(|c| c.contains("control --project")), "{:?}", w.ssh);
}

/// The order is the substance of the loop, so the order is what is asserted.
fn step_order(steps: &[String]) -> Vec<&'static str> {
    let mut seen = Vec::new();
    for line in steps {
        if line.contains("--delete") && !seen.contains(&"sync") {
            seen.push("sync");
        }
        if line.contains("--image") && line.contains("exec --project") && !seen.contains(&"build") {
            seen.push("build");
        }
        if line.contains("rollback --dataset") && !seen.contains(&"reset") {
            seen.push("reset");
        }
        if line.contains("exec --project") && !line.contains("--image") && !seen.contains(&"run") {
            seen.push("run");
        }
    }
    seen
}

#[test]
fn test_runs_the_four_steps_in_order() {
    let mut w = World::new();
    let m = manifest(FULL);
    w.snapshots = "pristine\n".to_string();
    w.up(&m).expect("up");
    w.forget_logs();

    w.test(&m, None).expect("test");
    assert_eq!(
        step_order(&w.steps),
        vec!["sync", "build", "reset", "run"],
        "steps ran in the wrong order:\n{:?}",
        w.steps
    );
    assert_eq!(w.steps[0], "clear", "the last run's results go first: {:?}", w.steps);
}

#[test]
fn the_first_test_on_a_session_does_not_reset() {
    let mut w = World::new();
    let m = manifest(FULL);
    w.up(&m).expect("up");
    w.forget_logs();

    w.test(&m, None).expect("test");
    assert!(w.out.contains("nothing to reset to yet"), "{}", w.out);
    let ssh = w.ssh.join("\n");
    assert!(!ssh.contains("rollback --dataset"), "no rollback may be attempted: {ssh}");
    // But the run still happened, and still took the snapshot.
    assert!(ssh.contains("snapshot --dataset state"), "{ssh}");
}

#[test]
fn test_skips_the_steps_a_project_does_not_have() {
    let mut w = World::new();
    let m = manifest(MINIMAL);
    w.up(&m).expect("up");
    w.forget_logs();

    w.test(&m, None).expect("test");
    assert!(w.out.contains("no build declared"), "{}", w.out);
    assert!(w.out.contains("no reset datasets declared"), "{}", w.out);
    let ssh = w.ssh.join("\n");
    assert!(!ssh.contains("--image"), "nothing may be built: {ssh}");
    assert!(ssh.contains("exec --project"), "{ssh}");
}

#[test]
fn a_failing_step_stops_the_ones_after_it() {
    let mut w = World::new();
    let m = manifest(FULL);
    w.snapshots = "pristine\n".to_string();
    w.up(&m).expect("up");
    w.forget_logs();
    // Break the build. Nothing after it should be attempted.
    w.refuse = Some("--image docker.io/library/toolchain".to_string());

    assert!(w.test(&m, None).is_err());
    let ssh = w.ssh.join("\n");
    assert!(
        !ssh.contains("rollback --dataset"),
        "a failed build must not be followed by a reset: {ssh}"
    );
}

#[test]
fn test_can_reset_to_a_named_point() {
    let mut w = World::new();
    let m = manifest(FULL);
    w.snapshots = "pristine\nafter-stack-up\n".to_string();
    w.up(&m).expect("up");
    w.forget_logs();

    w.test(&m, Some("after-stack-up")).expect("test");
    assert!(w.out.contains("reset to after-stack-up"), "{}", w.out);
    let ssh = w.ssh.join("\n");
    assert!(ssh.contains("rollback --dataset state --name after-stack-up"), "{ssh}");
}

#[test]
fn a_named_point_that_does_not_exist_is_an_error_not_a_skip() {
    let mut w = World::new();
    let m = manifest(FULL);
    w.snapshots = "pristine\n".to_string();
    w.up(&m).expect("up");
    w.forget_logs();

    let err = w.test(&m, Some("no-such-point")).expect_err("no such point");
    let all = format!("{err}\n{}", w.err);
    assert!(all.contains("no-such-point"), "{all}");
    assert!(all.contains("REAPER_CONTROL/snapshot"), "should name both ways to make one: {all}");
    assert!(
        !step_order(&w.steps).contains(&"run"),
        "nothing may run against unreset state: {:?}",
        w.steps
    );
}

// --- renewing --------------------------------------------------------------

#[test]
fn one_dead_machine_does_not_leave_its_siblings_unrenewed() {
    let mut w = World::new();
    let two = MINIMAL.replace("[a-guest]", "[a-guest, b-guest]");
    w.cfg = config::parse(
        "provider = \"p\"\n[guests.a-guest]\ntemplate = \"9000\"\n[guests.b-guest]\ntemplate = \"9000\"\n[p]\n",
        "c",
        &None,
    )
    .ok()
    .expect("parses");
    w.up(&manifest(&two)).expect("up");
    w.machines.remove("9001");
    w.forget_logs();
    let err = w.renew(&Some("3h".to_string())).expect_err("one failed");
    assert_eq!(err, "1 session(s) could not be renewed");
    assert!(w.out.contains("expires in 3h"), "{}", w.out);
    assert!(w.err.contains("its machine is gone"), "{}", w.err);
    assert!(w.renew(&Some("soon".to_string())).is_err());
}

#[test]
fn a_heartbeat_outlives_a_blip_and_ends_with_the_session() {
    let mut w = World::new();
    w.up(&manifest(MINIMAL)).expect("up");
    let cfg = site("");
    let start = at(w.clock);
    let mut replies: Vec<Reply> = Vec::new();
    let mut pauses: Vec<u64> = Vec::new();
    let mut rounds = 0;
    loop {
        match heartbeat("a-project", &cfg, &start, &replies) {
            Talk::Done(v, _, lines) => {
                assert!(v.is_ok());
                w.print(&lines);
                break;
            }
            Talk::Ask(q) => {
                w.print(&q.say);
                pauses.push(q.pause);
                w.clock += q.pause;
                let event = match &q.deed {
                    Deed::Get(_) => {
                        rounds += 1;
                        match rounds {
                            2 => Event::Failed("locked".to_string()),
                            4 => {
                                w.down().expect("down");
                                w.perform(q.deed)
                            }
                            _ => w.perform(q.deed),
                        }
                    }
                    Deed::SetExpiry(_, _) if rounds == 3 => Event::Failed("blip".to_string()),
                    _ => w.perform(q.deed),
                };
                replies.push(Reply { event, at: at(w.clock), since: Duration::from_secs(w.ticks) });
            }
        }
    }
    assert_eq!(rounds, 4);
    assert!(w.err.contains("could not read the session store: locked"), "{}", w.err);
    assert!(w.err.contains("renewal failed: blip"), "{}", w.err);
    assert_eq!(pauses[0], 0);
    assert!(pauses.contains(&600), "{pauses:?}");
}

#[test]
fn a_heartbeat_may_forget_the_rounds_before() {
    let mut w = World::new();
    w.up(&manifest(MINIMAL)).expect("up");
    let cfg = site("");
    let start = at(w.clock);
    let mut all: Vec<Event> = vec![Event::Done];
    let record = w.store.get(&w.text, "a-project").ok().expect("readable").expect("there");
    for _ in 0..3 {
        all.push(Event::Found(Some(record.copy())));
        all.push(Event::Done);
        all.push(Event::Done);
    }
    all.push(Event::Found(Some(record.copy())));
    let long: Vec<Reply> = all
        .into_iter()
        .map(|event| Reply { event, at: at(w.clock), since: Duration::from_secs(0) })
        .collect();
    let short: Vec<Reply> = [Event::Done, Event::Found(Some(record))]
        .into_iter()
        .map(|event| Reply { event, at: at(w.clock), since: Duration::from_secs(0) })
        .collect();
    for replies in [long, short] {
        match heartbeat("a-project", &cfg, &start, &replies) {
            Talk::Ask(q) => match q.deed {
                Deed::SetExpiry(m, t) => {
                    assert_eq!((m.as_str(), t), ("9001", at(w.clock + 7200)));
                }
                _ => panic!("the expiry is moved next"),
            },
            Talk::Done(..) => panic!("it goes on"),
        }
    }
}

#[test]
fn a_heartbeat_ends_with_its_machine() {
    let mut w = World::new();
    w.up(&manifest(MINIMAL)).expect("up");
    w.machines.clear();
    let cfg = site("");
    w.drive(|_, start, r| heartbeat("a-project", &cfg, &start, r)).expect("ends");
    assert!(w.err.contains("this heartbeat is ending"), "{}", w.err);
}

// --- listing ---------------------------------------------------------------

#[test]
fn a_listing_lines_up_and_says_what_is_dead_or_expired() {
    let mut w = World::new();
    w.up(&manifest(MINIMAL)).expect("up");
    let pid = w.next_pid;
    w.clock += 60;
    let listed = w.list();
    let lines: Vec<&str> = listed.lines().collect();
    assert_eq!(
        lines[0],
        "SESSION                  GUEST            AGE      EXPIRES    ADDRESS          HEARTBEAT"
    );
    assert_eq!(
        lines[1],
        format!("a-project                a-guest          1m01s    1h59m      192.0.2.42       {pid}")
    );
    w.heartbeats.clear();
    w.clock += 8000;
    let listed = w.list();
    assert!(listed.contains("EXPIRED"), "{listed}");
    assert!(listed.contains(&format!("{pid} DEAD")), "{listed}");
}

// --- the doctor ------------------------------------------------------------

#[test]
fn a_healthy_site_is_reported_and_nothing_is_touched() {
    let mut w = World::new();
    w.findings = vec![("api".to_string(), Health::Fine, "answers".to_string())];
    let v = w.doctor(Reach::Absent, false).expect("ran");
    assert_eq!(exit_code(&Ok(v)), 1, "rsync is nowhere: {}", w.out);
    assert!(w.out.contains("\n--- workstation ---\n"), "{}", w.out);
    assert!(w.out.contains("ok    api\n      answers\n"), "{}", w.out);
    assert!(w.out.contains("FAIL  rsync command"), "{}", w.out);
    assert!(w.out.contains("WARN  session key"), "{}", w.out);
    assert!(w.out.ends_with("\n7 ok, 1 warnings, 1 failed\n"), "{}", w.out);
    assert!(w.machines.is_empty());
}

#[test]
fn a_canary_that_is_swept_is_evidence() {
    let mut w = World::new();
    w.sweeps_after = Some(2);
    w.doctor(Reach::Absent, true).expect("ran");
    assert!(w.out.contains("the dead-man's switch is live"), "{}", w.out);
    assert!(w.machines.is_empty());
}

#[test]
fn a_canary_is_waited_for_by_a_clock_that_nobody_sets() {
    let mut w = World::new();
    w.leap = 3600;
    w.sweeps_after = Some(4);
    w.doctor(Reach::Absent, true).expect("ran");
    assert!(w.out.contains("the sweeper collected it after 15s -- "), "{}", w.out);
}

#[test]
fn a_canary_that_nothing_takes_is_destroyed_by_hand() {
    let mut w = World::new();
    let v = w.doctor(Reach::Absent, true).expect("ran");
    assert!(v.fail >= 1);
    assert!(w.out.contains("nothing collected an expired machine in 1m"), "{}", w.out);
    assert!(w.out.contains("destroyed by hand"), "{}", w.out);
    assert!(w.machines.is_empty());
}

#[test]
fn the_manifest_is_judged_with_the_site() {
    let mut w = World::new();
    let m = manifest(&MINIMAL.replace("a-guest", "stranger"));
    w.doctor(Reach::Valid(m), false).expect("ran");
    assert!(w.out.contains("FAIL  manifest"), "{}", w.out);
    assert!(w.out.contains("no guest named \"stranger\""), "{}", w.out);
    w.out.clear();
    w.doctor(Reach::Broken("it is broken".to_string()), false).expect("ran");
    assert!(w.out.contains("FAIL  manifest\n      it is broken"), "{}", w.out);
}

#[test]
fn guests_that_share_a_template_are_worth_a_look() {
    let cfg = config::parse(
        "provider = \"p\"\n[guests.b]\ntemplate = \"9000\"\n[guests.a]\ntemplate = \"9000\"\n[p]\n",
        "c",
        &None,
    )
    .ok()
    .expect("parses");
    let names: Vec<String> = registered(&cfg).into_iter().map(|g| g.name).collect();
    assert_eq!(names, vec!["a", "b"]);
    let mut w = World::with(cfg);
    w.doctor(Reach::Absent, false).expect("ran");
    assert!(
        w.out.contains("WARN  guest registry\n      9000 is registered for a and b"),
        "{}",
        w.out
    );
}

#[test]
fn a_site_that_cannot_be_read_is_one_failure() {
    match doctor(&Err("no configuration".to_string()), &Some("1s".to_string()), &vec![]) {
        Talk::Done(v, 0, lines) => {
            assert_eq!(exit_code(&v), 1);
            assert_eq!(lines.last().unwrap().text, "0 ok, 0 warnings, 1 failed");
        }
        _ => panic!("nothing to ask"),
    }
    match doctor(&Err("no configuration".to_string()), &Some("soon".to_string()), &vec![]) {
        Talk::Done(v, 0, lines) => {
            assert!(lines.is_empty(), "nothing was checked");
            assert_eq!(exit_code(&v), 2);
        }
        _ => panic!("nothing to ask"),
    }
    assert_eq!(exit_code(&Ok(DoctorVerdict { fail: 0 })), 0);
    assert_eq!(patience(&None).unwrap(), Duration::from_secs(900));
    assert_eq!(patience(&Some("2m".to_string())).unwrap(), Duration::from_secs(120));
    assert!(patience(&Some("2".to_string())).is_err());
}

fn session() -> Session {
    Session {
        name: "s".to_string(),
        project: "p".to_string(),
        guest: "g".to_string(),
        template: "9000".to_string(),
        machine: MachineRef::new("9001"),
        address: Address::parse("192.0.2.1"),
        created_at: at(1000),
        ready_at: None,
        expires_at: at(8200),
        ttl: Duration::from_secs(7200),
        heartbeat_pid: Some(7),
        synced_at: None,
    }
}

#[test]
fn a_session_is_judged_by_its_machine_its_expiry_and_its_heartbeat() {
    let cfg = site("");
    let live = vec![MachineSummary {
        machine: MachineRef::new("9001"),
        name: "s".to_string(),
        expires_at: None,
        running: true,
    }];
    let none: Vec<MachineSummary> = vec![];

    let f = judge_session(&cfg, &session(), Some(&live), &at(1000), true);
    assert_eq!((f.health, f.detail.as_str()), (Health::Fine, "record, machine and heartbeat agree"));
    let f = judge_session(&cfg, &session(), Some(&none), &at(1000), true);
    assert_eq!(f.health, Health::Fail);
    let f = judge_session(&cfg, &session(), None, &at(1000), true);
    assert_eq!(f.health, Health::Fine);
    assert!(f.detail.contains("machine check skipped"), "{}", f.detail);
    let f = judge_session(&cfg, &session(), Some(&live), &at(1000), false);
    assert_eq!(f.health, Health::Warn);
    assert!(f.detail.contains("its heartbeat is dead"), "{}", f.detail);
    // Two intervals of ten minutes have passed without a renewal.
    let f = judge_session(&cfg, &session(), Some(&live), &at(2201), true);
    assert_eq!(f.health, Health::Warn);
    assert!(f.detail.contains("decayed to 5999s of a 7200s ttl"), "{}", f.detail);
    let f = judge_session(&cfg, &session(), Some(&live), &at(2200), true);
    assert_eq!(f.health, Health::Fine);
    let f = judge_session(&cfg, &session(), Some(&live), &at(8201), true);
    assert!(f.detail.contains("its record is expired"), "{}", f.detail);
}

#[test]
fn commands_are_looked_for_where_a_shell_would() {
    let path = Some("/usr/bin:/bin:".to_string());
    assert_eq!(resolvable("rsync", &path), vec!["/usr/bin/rsync", "/bin/rsync", "rsync"]);
    assert_eq!(resolvable("./rsync", &path), vec!["./rsync"]);
    assert!(resolvable("rsync", &None).is_empty());
}

// --- what the verbs share --------------------------------------------------

#[test]
fn a_session_is_named_after_its_project_and_its_guest_when_there_are_several() {
    assert_eq!(session_name("p", "g", true), "p");
    assert_eq!(session_name("p", "g", false), "p-g");
}

#[test]
fn a_session_lasts_as_long_as_was_asked_for_or_the_site_says() {
    let cfg = site("");
    let m = manifest(&FULL.replace("warm_cache: false", "ttl: 4h"));
    let of = |p: Option<&str>, o: Option<&str>| {
        ttl_for(&cfg, &m, &p.map(str::to_string), &o.map(str::to_string))
    };
    assert_eq!(of(None, None).unwrap(), Duration::from_secs(7200));
    assert_eq!(of(Some("nightly"), None).unwrap(), Duration::from_secs(4 * 3600));
    assert_eq!(of(Some("nightly"), Some("1h")).unwrap(), Duration::from_secs(3600));
    assert!(of(Some("weekly"), None).unwrap_err().contains("it defines: nightly"));
    assert!(of(None, Some("x")).is_err());
}

#[test]
fn an_expired_session_says_so_before_blaming_the_transport() {
    assert!(expiry_note(&session(), &at(8200)).is_none());
    let note = expiry_note(&session(), &at(8260)).expect("expired");
    assert!(note.contains("expired 1m00s ago"), "{note}");
}

#[test]
fn images_are_declared_once() {
    let m = manifest(FULL);
    let images = declared_images(&m.guests[0]);
    assert_eq!(images.len(), 2);
    assert!(images[0].contains("/db@") && images[1].contains("/toolchain@"), "{images:?}");
}

#[test]
fn the_runner_says_where_the_workspace_is() {
    assert_eq!(
        workspace("noise\nwork=/w\nout=/w/out\n").unwrap(),
        ("/w".to_string(), "/w/out".to_string())
    );
    assert!(workspace("work=/w\n").is_err());
}

#[test]
fn a_session_leaves_three_files_behind() {
    assert_eq!(
        workstation_files(STORE, "s"),
        vec!["/state/known-hosts-s", "/state/rsh-s", "/state/heartbeat-s.log"]
    );
}

#[test]
fn the_end_of_time_is_an_error_not_a_panic() {
    let last = SystemTime::new(i64::MAX, 0);
    assert!(later(&last, &Duration::from_secs(1)).is_err());
}

#[test]
fn a_project_is_found_by_its_manifest() {
    let good = ManifestFile::Holds(MINIMAL.to_string());
    let named = Some(("sub/m.yaml".to_string(), ManifestFile::Holds(MINIMAL.to_string())));
    assert_eq!(project_of(&None), Ok(None));
    assert_eq!(project_of(&named), Ok(Some("a-project".to_string())));
    let missing = Some(("x.yaml".to_string(), ManifestFile::Absent));
    assert!(project_of(&missing).unwrap_err().contains("no manifest at x.yaml"));
    assert!(matches!(project_here(".reaper.yaml", &ManifestFile::Absent), Here::Absent));
    match project_here(".reaper.yaml", &good) {
        Here::Project(p) => assert_eq!(p, "a-project"),
        _ => panic!("a project is here"),
    }
    assert!(matches!(
        in_reach("m.yaml", &ManifestFile::Unreadable("no".to_string())),
        Reach::Broken(_)
    ));
    assert_eq!(
        tree_for(&named, ".reaper.yaml", &ManifestFile::Absent),
        Some(("a-project".to_string(), "sub".to_string()))
    );
    assert_eq!(
        tree_for(&None, ".reaper.yaml", &good),
        Some(("a-project".to_string(), ".".to_string()))
    );
    assert_eq!(tree_for(&missing, ".reaper.yaml", &good), None);
}

#[test]
fn a_broken_results_channel_is_complained_of_once() {
    let fault = Err("broken".to_string());
    assert_eq!(
        complain("s", false, &fault).as_deref(),
        Some("s: results are not coming back: broken")
    );
    assert_eq!(complain("s", true, &fault), None);
    assert_eq!(complain("s", false, &Ok(())), None);
    let second = Duration::from_secs(1);
    assert_eq!(pace(true, &second, &second), Pace::Stop);
    assert_eq!(pace(false, &Duration::from_secs(0), &second), Pace::Sleep);
    assert_eq!(pace(false, &second, &second), Pace::Pull);
}
