//! The Proxmox provider, driven against a stand-in API.
use std::collections::BTreeMap;

use reaper::address::Address;
use reaper::json::{read_json, read_toml, Json};
use reaper::provider::{CreateRequest, Health, MachineRef, ProviderError, RegisteredGuest};
use reaper::proxmox::api::{Method, Reply, Request, Run};
use reaper::proxmox::cluster::first_usable_address;
use reaper::proxmox::config::{
    check_permissions, from_table, read_token, Config, ConfigError, Tls,
};
use reaper::proxmox::disks::{disk_storage_and_size, gib, is_disk_key, parse_size};
use reaper::proxmox::http::{auth, envelope, pem_blocks, url, Sent};
use reaper::proxmox::ids::IdRange;
use reaper::proxmox::machines::{Proxmox, TokenFile};
use reaper::proxmox::names::sanitize_name;
use reaper::proxmox::tags;
use reaper::registry::{self, Selected};
use reaper::time::{Duration, SystemTime};

const NODE: &str = "somenode";
const POOL: &str = "a/pool";
const STORAGE: &str = "stand-in-storage";
const TOKEN: &str = "someone@realm!test=secret";

fn at(secs: u64) -> SystemTime {
    SystemTime::from_secs(secs).expect("a moment")
}

// --- a stand-in API --------------------------------------------------------

#[derive(Debug, Clone, Default)]
struct Vm {
    name: String,
    tags: String,
    running: bool,
    template: bool,
    pool: String,
    /// Copied to clones. A protected machine cannot be destroyed.
    protection: bool,
    cores: Option<u32>,
    memory: Option<u64>,
    /// Disks attached after creation, as bus -> "<storage>:<gib>".
    extra_disks: BTreeMap<String, String>,
}

#[derive(Debug, Default)]
struct Pve {
    vms: BTreeMap<u32, Vm>,
    tasks: BTreeMap<String, (String, String)>,
    /// Every request the provider made, in order: method and path.
    requests: Vec<(String, String)>,
    task_seq: u32,
    tasks_never_finish: bool,
    next_task_fails: Option<String>,
    reject_config_writes: bool,
    unauthorized: bool,
    agent_interfaces: Option<String>,
    agent_unavailable: bool,
    /// Free space every storage reports; zero means it refuses to answer.
    storage_avail_bytes: u64,
    storage_avail_named: BTreeMap<String, u64>,
    /// Answer the next N looks at a task with a 502.
    flake_next: u32,
    clock: u64,
}

fn text(s: &str) -> String {
    format!("\"{}\"", s.replace('\\', "\\\\").replace('"', "\\\""))
}

impl Pve {
    fn start() -> Pve {
        Pve { storage_avail_bytes: 4 << 40, task_seq: 1, ..Pve::default() }
    }

    fn answer(&mut self, token: &str, q: &Request) -> (u16, String) {
        let method = match q.method {
            Method::Get => "GET",
            Method::Post => "POST",
            Method::Put => "PUT",
            Method::Delete => "DELETE",
        };
        self.requests.push((method.to_string(), q.path.clone()));
        if self.flake_next > 0 && q.path.contains("/tasks/") {
            self.flake_next -= 1;
            return (502, r#"{"errors": "bad gateway"}"#.to_string());
        }
        if auth(token) != format!("PVEAPIToken={TOKEN}") {
            return (401, r#"{"errors": "no ticket"}"#.to_string());
        }
        if self.unauthorized {
            return (403, r#"{"errors": "permission denied"}"#.to_string());
        }
        let form: BTreeMap<String, String> = q.form.iter().cloned().collect();
        self.route(method, &q.path, &form)
    }

    fn new_task(&mut self) -> String {
        let upid = format!("UPID:node:0000:0000:0000:task:{}:cal@pve:", self.task_seq);
        self.task_seq += 1;
        let task = if self.tasks_never_finish {
            ("running".to_string(), String::new())
        } else if let Some(reason) = self.next_task_fails.take() {
            ("stopped".to_string(), reason)
        } else {
            ("stopped".to_string(), "OK".to_string())
        };
        self.tasks.insert(upid.clone(), task);
        format!(r#"{{"data": {}}}"#, text(&upid))
    }

    fn route(&mut self, method: &str, path: &str, form: &BTreeMap<String, String>) -> (u16, String) {
        let path_only = path.split('?').next().unwrap();
        let seg: Vec<&str> = path_only.trim_matches('/').split('/').collect();
        let missing = (404, r#"{"errors": "no such machine"}"#.to_string());
        match (method, seg.as_slice()) {
            ("GET", ["version"]) => (200, r#"{"data": {"version": "8.2"}}"#.to_string()),
            ("GET", ["cluster", "resources"]) => {
                let items: Vec<String> = self
                    .vms
                    .iter()
                    .map(|(id, vm)| {
                        format!(
                            r#"{{"vmid": {id}, "name": {}, "tags": {}, "pool": {}, "status": {}, "template": {}, "type": "qemu"}}"#,
                            text(&vm.name),
                            text(&vm.tags),
                            text(&vm.pool),
                            text(if vm.running { "running" } else { "stopped" }),
                            if vm.template { 1 } else { 0 },
                        )
                    })
                    .collect();
                (200, format!(r#"{{"data": [{}]}}"#, items.join(", ")))
            }
            ("POST", ["nodes", _, "qemu", id, "clone"]) => {
                let Some(source) = id.parse::<u32>().ok().and_then(|i| self.vms.get(&i).cloned())
                else {
                    return (404, r#"{"errors": "no such template"}"#.to_string());
                };
                let newid: u32 = form.get("newid").and_then(|v| v.parse().ok()).unwrap_or(0);
                if self.vms.contains_key(&newid) {
                    return (500, r#"{"errors": "identifier already in use"}"#.to_string());
                }
                self.vms.insert(
                    newid,
                    Vm {
                        name: form.get("name").cloned().unwrap_or_default(),
                        pool: form.get("pool").cloned().unwrap_or_default(),
                        protection: source.protection,
                        cores: source.cores,
                        memory: source.memory,
                        ..Vm::default()
                    },
                );
                (200, self.new_task())
            }
            ("GET", ["nodes", _, "qemu", id, "config"]) => match self.lookup(id) {
                Some(vm) => {
                    let mut body = format!(
                        r#""tags": {}, "virtio0": "{STORAGE}:vm-{id}-disk-0,iothread=1,size=8G", "virtiofs0": "some-share""#,
                        text(&vm.tags)
                    );
                    for (bus, spec) in &vm.extra_disks {
                        body.push_str(&format!(r#", {}: {}"#, text(bus), text(spec)));
                    }
                    (200, format!(r#"{{"data": {{{body}}}}}"#))
                }
                None => missing,
            },
            ("GET", ["nodes", _, "storage", storage, "status"]) => {
                let avail = self
                    .storage_avail_named
                    .get(*storage)
                    .copied()
                    .unwrap_or(self.storage_avail_bytes);
                if avail == 0 {
                    return (500, r#"{"errors": "storage is not online"}"#.to_string());
                }
                (200, format!(r#"{{"data": {{"avail": {avail}, "total": {avail}}}}}"#))
            }
            ("PUT", ["nodes", _, "qemu", id, "config"]) => {
                if self.reject_config_writes {
                    return (500, r#"{"errors": "configuration write refused"}"#.to_string());
                }
                let Some(vm) = id.parse::<u32>().ok().and_then(|i| self.vms.get_mut(&i)) else {
                    return missing;
                };
                for (k, v) in form {
                    match k.as_str() {
                        "tags" => vm.tags = v.clone(),
                        "protection" => vm.protection = v != "0",
                        "cores" => vm.cores = v.parse().ok(),
                        "memory" => vm.memory = v.parse().ok(),
                        _ if k.starts_with("virtio") || k.starts_with("scsi") => {
                            vm.extra_disks.insert(k.clone(), v.clone());
                        }
                        _ => {}
                    }
                }
                (200, r#"{"data": null}"#.to_string())
            }
            ("GET", ["nodes", _, "qemu", id, "status", "current"]) => match self.lookup(id) {
                Some(vm) => (
                    200,
                    format!(
                        r#"{{"data": {{"status": "{}"}}}}"#,
                        if vm.running { "running" } else { "stopped" }
                    ),
                ),
                // 403, not 404: the permission check precedes the existence
                // check, and a machine that is gone has no entry to allow it.
                None => {
                    (403, r#"{"message": "Permission check failed (/vms/x, VM.Audit)"}"#.to_string())
                }
            },
            ("POST", ["nodes", _, "qemu", id, "status", action]) => {
                let Some(vm) = id.parse::<u32>().ok().and_then(|i| self.vms.get_mut(&i)) else {
                    return missing;
                };
                vm.running = *action == "start";
                (200, self.new_task())
            }
            ("DELETE", ["nodes", _, "qemu", id]) => {
                let key: u32 = id.parse().unwrap_or(0);
                match self.vms.get(&key) {
                    None => missing,
                    Some(vm) if vm.protection => {
                        (500, r#"{"errors": "protection mode enabled"}"#.to_string())
                    }
                    Some(vm) if vm.running => {
                        (500, r#"{"message": "VM is running - destroy failed"}"#.to_string())
                    }
                    Some(_) => {
                        self.vms.remove(&key);
                        (200, self.new_task())
                    }
                }
            }
            ("GET", ["nodes", _, "qemu", id, "agent", "network-get-interfaces"]) => {
                if self.lookup(id).is_none() {
                    return (
                        500,
                        format!(
                            r#"{{"errors": "Configuration file 'nodes/x/qemu-server/{id}.conf' does not exist"}}"#
                        ),
                    );
                }
                if self.agent_unavailable {
                    return (500, r#"{"errors": "QEMU guest agent is not running"}"#.to_string());
                }
                let found = self.agent_interfaces.clone().unwrap_or_else(|| "[]".to_string());
                (200, format!(r#"{{"data": {{"result": {found}}}}}"#))
            }
            ("GET", ["nodes", _, "tasks", upid, "status"]) => match self.tasks.get(*upid) {
                Some((status, exit)) => (
                    200,
                    format!(
                        r#"{{"data": {{"status": {}, "exitstatus": {}}}}}"#,
                        text(status),
                        text(exit)
                    ),
                ),
                None => (404, r#"{"errors": "no such task"}"#.to_string()),
            },
            _ => (404, format!(r#"{{"errors": {}}}"#, text(&format!("unrouted: {method} {path}")))),
        }
    }

    fn lookup(&self, id: &str) -> Option<Vm> {
        id.parse::<u32>().ok().and_then(|i| self.vms.get(&i).cloned())
    }

    fn vm(&self, id: u32) -> Option<Vm> {
        self.vms.get(&id).cloned()
    }

    fn sessions(&self) -> Vec<u32> {
        self.vms.iter().filter(|(_, v)| !v.template).map(|(id, _)| *id).collect()
    }

    fn paths(&self) -> Vec<String> {
        self.requests.iter().map(|(_, p)| p.clone()).collect()
    }

    fn attached(&self, m: &MachineRef) -> BTreeMap<String, String> {
        self.vms.get(&number(m)).map(|v| v.extra_disks.clone()).unwrap_or_default()
    }

    fn writes(&self) -> usize {
        self.requests.iter().filter(|(m, p)| m == "PUT" && p.ends_with("/config")).count()
    }
}

fn number(m: &MachineRef) -> u32 {
    m.as_str().parse().expect("numeric identifier")
}

/// Carry a conversation with the stand-in to its end.
fn drive<T>(pve: &mut Pve, p: &Proxmox, step: impl Fn(&Vec<Reply>) -> Run<T>) -> T {
    let mut replies: Vec<Reply> = Vec::new();
    for _ in 0..500 {
        match step(&replies) {
            Run::Done(value, used) => {
                assert_eq!(used, replies.len(), "every reply was asked for");
                return value;
            }
            Run::Ask(q) => {
                if q.pause {
                    pve.clock += 1;
                }
                let (status, body) = pve.answer(&p.token, &q);
                let answer = envelope(Sent::Answered { status, body }, &q.path);
                replies.push(Reply { answer, at: Duration::from_secs(pve.clock) });
            }
        }
    }
    panic!("the conversation does not end: {:?}", pve.requests);
}

fn config() -> Config {
    Config {
        api: "http://127.0.0.1:8006".to_string(),
        node: NODE.to_string(),
        pool: POOL.to_string(),
        ids: IdRange::new(9000, 9099).unwrap(),
        token_file: "/dev/null".to_string(),
        data_storage: Some("some-storage".to_string()),
        data_bus: "virtio1".to_string(),
        min_free_gb: 10,
        tls: Tls::Insecure,
        sweep_within: Duration::from_secs(3600),
        task_timeout: Duration::from_secs(2),
        request_timeout: Duration::from_secs(5),
    }
}

fn provider() -> Proxmox {
    Proxmox::with_token(config(), TOKEN.to_string())
}

fn pve_with_template() -> Pve {
    let mut pve = Pve::start();
    pve.vms.insert(
        9000,
        Vm {
            name: "stub-template".into(),
            template: true,
            pool: POOL.into(),
            cores: Some(1),
            memory: Some(512),
            ..Vm::default()
        },
    );
    pve
}

fn pve_with_session() -> Pve {
    let mut pve = Pve::start();
    pve.vms.insert(9001, Vm { name: "a-session".into(), pool: POOL.into(), ..Vm::default() });
    pve
}

fn request(name: &str, expires: u64) -> CreateRequest {
    CreateRequest {
        name: name.to_string(),
        template: "9000".to_string(),
        cores: Some(4),
        ram_gb: Some(8),
        data_disk_gb: Some(64),
        expires_at: at(expires),
    }
}

fn create(pve: &mut Pve, p: &Proxmox, req: &CreateRequest) -> Result<MachineRef, ProviderError> {
    drive(pve, p, |r| p.create(req, r))
}

fn set_expiry(pve: &mut Pve, p: &Proxmox, m: &MachineRef, t: u64) -> Result<(), ProviderError> {
    drive(pve, p, |r| p.set_expiry(m, at(t), r))
}

fn start(pve: &mut Pve, p: &Proxmox, m: &MachineRef) -> Result<(), ProviderError> {
    drive(pve, p, |r| p.start(m, r))
}

fn stop(pve: &mut Pve, p: &Proxmox, m: &MachineRef) -> Result<(), ProviderError> {
    drive(pve, p, |r| p.stop(m, r))
}

fn destroy(pve: &mut Pve, p: &Proxmox, m: &MachineRef) -> Result<(), ProviderError> {
    drive(pve, p, |r| p.destroy(m, r))
}

fn address(pve: &mut Pve, p: &Proxmox, m: &MachineRef) -> Result<Option<Address>, ProviderError> {
    drive(pve, p, |r| p.address(m, r))
}

// --- creation --------------------------------------------------------------

#[test]
fn creating_clones_the_template_and_tags_it_with_an_expiry() {
    let mut pve = pve_with_template();
    let p = provider();

    let m = create(&mut pve, &p, &request("a-session", 1_700_000_000)).expect("create");
    let id = number(&m);
    assert!((9000..=9099).contains(&id));
    assert_ne!(id, 9000, "must not reuse the template's own identifier");

    let vm = pve.vm(id).expect("the machine exists");
    assert_eq!(tags::expiry_of(&vm.tags), Some(at(1_700_000_000)));
    assert_eq!(vm.pool, POOL, "must be placed in the pool");
    assert_eq!(vm.cores, Some(4));
    assert_eq!(vm.memory, Some(8 * 1024), "memory is set in megabytes");
}

#[test]
fn creating_tags_before_starting_and_does_not_start_at_all() {
    // The order is the invariant: a machine must never exist un-expiring, and
    // starting is somebody else's decision.
    let mut pve = pve_with_template();
    let p = provider();
    let m = create(&mut pve, &p, &request("a-session", 1_700_000_000)).unwrap();

    let calls = pve.requests.clone();
    let clone_at = calls.iter().position(|(_, p)| p.contains("/clone")).expect("cloned");
    let tagged_at = calls
        .iter()
        .position(|(m, p)| m == "PUT" && p.ends_with("/config"))
        .expect("tagged");
    assert!(clone_at < tagged_at, "tagged before cloning? {calls:?}");
    assert!(
        !calls.iter().any(|(_, p)| p.contains("/status/start")),
        "create must not start the machine: {calls:?}"
    );
    assert!(!pve.vm(number(&m)).unwrap().running);
}

#[test]
fn a_machine_that_cannot_be_given_an_expiry_is_destroyed_rather_than_leaked() {
    let mut pve = pve_with_template();
    let p = provider();
    pve.reject_config_writes = true;

    let e = create(&mut pve, &p, &request("a-session", 1_700_000_000)).unwrap_err();
    assert!(e.message().contains("has been destroyed"), "{}", e.message());

    let leftovers: Vec<u32> = pve.vms.keys().copied().filter(|id| *id != 9000).collect();
    assert!(leftovers.is_empty(), "leaked machines: {leftovers:?}");
}

#[test]
fn a_template_outside_the_permitted_range_is_refused_before_any_request() {
    let mut pve = Pve::start();
    let p = provider();
    let mut req = request("a-session", 1);
    // The sweeper's own machine.
    req.template = "8100".into();

    let e = create(&mut pve, &p, &req).unwrap_err();
    assert!(matches!(e, ProviderError::Refused(_)), "{}", e.message());
    assert_eq!(pve.requests.len(), 0, "refusal must precede the network");
}

#[test]
fn creating_when_every_identifier_is_taken_is_refused_clearly() {
    let mut pve = pve_with_template();
    for id in 9001..=9099 {
        pve.vms.insert(id, Vm { name: format!("busy-{id}"), pool: POOL.into(), ..Vm::default() });
    }
    let p = provider();

    let e = create(&mut pve, &p, &request("a-session", 1)).unwrap_err();
    assert!(e.message().contains("in use"), "{}", e.message());
}

// --- the range guard -------------------------------------------------------

#[test]
fn every_operation_refuses_an_out_of_range_machine_before_the_network() {
    let mut pve = Pve::start();
    let p = provider();
    let outsider = MachineRef::new("8100");

    let outcomes: Vec<(&str, Result<(), ProviderError>)> = vec![
        ("set_expiry", set_expiry(&mut pve, &p, &outsider, 1)),
        ("start", start(&mut pve, &p, &outsider)),
        ("stop", stop(&mut pve, &p, &outsider)),
        ("destroy", destroy(&mut pve, &p, &outsider)),
        ("address", address(&mut pve, &p, &outsider).map(|_| ())),
    ];

    for (verb, outcome) in outcomes {
        let e = outcome.expect_err("should refuse");
        assert!(matches!(e, ProviderError::Refused(_)), "{verb}: {}", e.message());
    }
    assert_eq!(pve.requests.len(), 0, "no verb may contact the API first");
}

// --- expiry ----------------------------------------------------------------

#[test]
fn moving_an_expiry_preserves_tags_this_project_did_not_write() {
    let mut pve = pve_with_session();
    pve.vms.get_mut(&9001).unwrap().tags = "somebody-elses;expires-1;ephemeral".into();
    let p = provider();

    set_expiry(&mut pve, &p, &MachineRef::new("9001"), 1_700_000_000).unwrap();

    let tags = tags::split(&pve.vm(9001).unwrap().tags);
    assert!(tags.contains(&"somebody-elses".to_string()), "{tags:?}");
    assert!(tags.contains(&"ephemeral".to_string()), "{tags:?}");
    assert!(tags.contains(&"expires-1700000000".to_string()), "{tags:?}");
    assert!(!tags.contains(&"expires-1".to_string()), "stale expiry kept: {tags:?}");
}

// --- listing ---------------------------------------------------------------

#[test]
fn listing_reports_only_this_providers_machines() {
    let mut pve = pve_with_template();
    pve.vms.insert(
        9001,
        Vm {
            name: "mine".into(),
            tags: "expires-1700000000".into(),
            running: true,
            pool: POOL.into(),
            ..Vm::default()
        },
    );
    // In range but another pool: not ours.
    pve.vms.insert(
        9002,
        Vm { name: "another-tenant".into(), pool: "someone/else".into(), ..Vm::default() },
    );
    // In our pool but outside the range: not ours either.
    pve.vms.insert(8100, Vm { name: "the-sweeper".into(), pool: POOL.into(), ..Vm::default() });
    let p = provider();

    let listed = drive(&mut pve, &p, |r| p.list(r)).unwrap();
    let names: Vec<&str> = listed.iter().map(|m| m.name.as_str()).collect();

    assert_eq!(names, vec!["mine"], "listed: {names:?}");
    assert_eq!(listed[0].expires_at, Some(at(1_700_000_000)));
    assert!(listed[0].running);
    // The template is what sessions are made from, not a session.
    assert!(!names.contains(&"stub-template"));
}

#[test]
fn a_machine_with_no_expiry_is_listed_with_none_rather_than_skipped() {
    let mut pve = Pve::start();
    pve.vms.insert(9001, Vm { name: "untagged".into(), pool: POOL.into(), ..Vm::default() });
    let p = provider();

    let listed = drive(&mut pve, &p, |r| p.list(r)).unwrap();
    assert_eq!(listed.len(), 1);
    assert_eq!(listed[0].expires_at, None);
}

// --- lifecycle -------------------------------------------------------------

#[test]
fn starting_stopping_and_destroying_do_what_they_say() {
    let mut pve = pve_with_session();
    let p = provider();
    let m = MachineRef::new("9001");

    start(&mut pve, &p, &m).unwrap();
    assert!(pve.vm(9001).unwrap().running);
    stop(&mut pve, &p, &m).unwrap();
    assert!(!pve.vm(9001).unwrap().running);
    destroy(&mut pve, &p, &m).unwrap();
    assert!(pve.vm(9001).is_none());
}

// --- tasks -----------------------------------------------------------------

#[test]
fn a_failed_task_is_reported_with_the_reason_the_api_gave() {
    let mut pve = pve_with_template();
    pve.next_task_fails = Some("storage is full".into());
    let p = provider();

    let e = create(&mut pve, &p, &request("a-session", 1)).unwrap_err();
    assert!(e.message().contains("storage is full"), "{}", e.message());
}

#[test]
fn a_task_that_never_finishes_times_out_and_destroys_nothing() {
    // A timeout means the outcome is unknown. Cleaning up on a guess is how
    // you destroy somebody else's machine; the expiry tag covers this instead.
    let mut pve = pve_with_session();
    pve.tasks_never_finish = true;
    let p = provider();

    let e = start(&mut pve, &p, &MachineRef::new("9001")).unwrap_err();
    assert!(matches!(e, ProviderError::Timeout(_)), "{}", e.message());
    assert!(pve.vm(9001).is_some(), "a timeout must not destroy anything");
    assert!(
        !pve.requests.iter().any(|(m, _)| m == "DELETE"),
        "nothing may be deleted on a timeout"
    );
}

// --- addresses -------------------------------------------------------------

#[test]
fn an_address_is_none_until_the_guest_agent_answers() {
    let mut pve = pve_with_session();
    pve.agent_unavailable = true;
    let p = provider();

    // Not an error: this is the ordinary state of a machine that has only just
    // been started.
    assert_eq!(address(&mut pve, &p, &MachineRef::new("9001")).unwrap(), None);
}

#[test]
fn loopback_and_link_local_addresses_are_skipped() {
    let mut pve = pve_with_session();
    pve.vms.get_mut(&9001).unwrap().running = true;
    pve.agent_interfaces = Some(
        r#"[
            {"name": "lo", "ip-addresses": [
                {"ip-address": "127.0.0.1", "ip-address-type": "ipv4"},
                {"ip-address": "::1", "ip-address-type": "ipv6"}
            ]},
            {"name": "eth0", "ip-addresses": [
                {"ip-address": "169.254.3.4", "ip-address-type": "ipv4"},
                {"ip-address": "fe80::1", "ip-address-type": "ipv6"},
                {"ip-address": "192.0.2.25", "ip-address-type": "ipv4"}
            ]}
        ]"#
        .to_string(),
    );
    let p = provider();

    // Every address here is one a machine really has; only one is reachable.
    assert_eq!(
        address(&mut pve, &p, &MachineRef::new("9001")).unwrap(),
        Address::parse("192.0.2.25")
    );
}

#[test]
fn an_ipv4_address_is_preferred_over_ipv6() {
    let mut pve = pve_with_session();
    pve.vms.get_mut(&9001).unwrap().running = true;
    pve.agent_interfaces = Some(
        r#"[{"name": "eth0", "ip-addresses": [
            {"ip-address": "2001:db8::5", "ip-address-type": "ipv6"},
            {"ip-address": "192.0.2.25", "ip-address-type": "ipv4"}
        ]}]"#
        .to_string(),
    );
    let p = provider();
    assert_eq!(
        address(&mut pve, &p, &MachineRef::new("9001")).unwrap(),
        Address::parse("192.0.2.25")
    );
}

// --- authentication --------------------------------------------------------

#[test]
fn a_rejected_credential_says_so_rather_than_looking_like_a_bug() {
    let mut pve = Pve::start();
    pve.unauthorized = true;
    let p = provider();

    let e = drive(&mut pve, &p, |r| p.list(r)).err().expect("refused");
    assert!(matches!(e, ProviderError::Unauthorized(_)), "{}", e.message());
}

#[test]
fn the_token_is_sent_on_every_request() {
    let mut pve = pve_with_template();
    let p = provider();
    drive(&mut pve, &p, |r| p.list(r)).expect("authorized");
    assert!(!pve.requests.is_empty());
    assert_eq!(auth(TOKEN), "PVEAPIToken=someone@realm!test=secret");
    assert_eq!(url("https://n:8006", "/x"), "https://n:8006/api2/json/x");
}

#[test]
fn a_wrong_token_is_refused_by_the_stand_in() {
    let mut pve = pve_with_template();
    let p = Proxmox::with_token(config(), "someone@realm!test=WRONG".to_string());
    let e = drive(&mut pve, &p, |r| p.list(r)).err().expect("refused");
    assert!(matches!(e, ProviderError::Unauthorized(_)), "{}", e.message());
}

// --- the envelope ----------------------------------------------------------

#[test]
fn replies_are_unwrapped_or_turned_into_what_they_mean() {
    fn got(status: u16, body: &str) -> Result<Json, ProviderError> {
        envelope(Sent::Answered { status, body: body.to_string() }, "/p")
    }
    assert!(matches!(got(200, r#"{"data": null}"#), Ok(Json::Null)));
    assert!(matches!(got(404, "gone"), Err(ProviderError::NotFound(_))));
    assert!(matches!(got(401, "no"), Err(ProviderError::Unauthorized(_))));
    assert!(matches!(got(403, "no"), Err(ProviderError::Unauthorized(_))));
    match got(500, " broken \n") {
        Err(ProviderError::Api { status, message }) => {
            assert_eq!(status, 500);
            assert_eq!(message, "/p: broken");
        }
        _ => panic!("wanted an api error"),
    }
    assert!(got(200, "{").err().unwrap().message().contains("reply was not JSON"));
    assert!(got(200, "{}").err().unwrap().message().contains("no data field"));
    assert!(matches!(
        envelope(Sent::TimedOut("late".to_string()), "/p"),
        Err(ProviderError::Timeout(_))
    ));
    assert!(matches!(
        envelope(Sent::Failed("refused".to_string()), "/p"),
        Err(ProviderError::Transport(_))
    ));
}

// --- names -----------------------------------------------------------------

#[test]
fn session_names_are_bent_into_something_the_api_accepts() {
    // Rather than reject a name a person chose.
    assert_eq!(sanitize_name("my-project/some-os 26.04"), "my-project-some-os-26-04");
    assert_eq!(sanitize_name("UPPER_case"), "upper-case");
    assert_eq!(sanitize_name("---"), "reaper");
    assert_eq!(sanitize_name(""), "reaper");
    assert!(sanitize_name(&"x".repeat(200)).len() <= 63);
    assert!(!sanitize_name(&format!("{}-", "x".repeat(62))).ends_with('-'));
}

#[test]
fn identifier_allocation_avoids_machines_this_provider_cannot_see() {
    // Identifiers are cluster-wide. A template, and a machine belonging to
    // another pool, both occupy one -- and `list` hides both.
    let mut pve = pve_with_template();
    pve.vms.insert(
        9001,
        Vm { name: "another-tenant".into(), pool: "someone/else".into(), ..Vm::default() },
    );
    pve.vms.insert(
        9002,
        Vm {
            name: "another-template".into(),
            template: true,
            pool: "someone/else".into(),
            ..Vm::default()
        },
    );
    let p = provider();

    let m = create(&mut pve, &p, &request("a-session", 1)).expect("create");
    assert_eq!(number(&m), 9003, "should skip 9000 (template), 9001 and 9002");
}

// --- configuration ---------------------------------------------------------

fn table(body: &str) -> Json {
    read_toml(body).ok().expect("test table parses")
}

const BASE: &str = r#"
node = "somenode"
pool = "a/pool"
id_range = [9000, 9099]
token_file = "/dev/null"
data_storage = "some-storage"
"#;

fn with(extra: &str) -> Result<Config, ConfigError> {
    from_table(&table(&format!("{BASE}{extra}")), &None, true)
}

#[test]
fn https_endpoints_are_accepted() {
    assert!(with("api = \"https://node.example:8006\"\ntls = \"webpki\"\n").is_ok());
}

#[test]
fn plain_http_to_another_machine_is_refused() {
    // The token travels in a header. Over plaintext to another host that is
    // simply giving it away.
    for host in ["node.example", "192.0.2.10", "[2001:db8::1]"] {
        let e = with(&format!("api = \"http://{host}:8006\"\ntls = \"webpki\"\n"))
            .expect_err("should be refused");
        assert!(e.message().contains("clear text"), "{host}: {}", e.message());
    }
}

#[test]
fn plain_http_to_loopback_is_allowed() {
    for host in ["127.0.0.1", "localhost", "[::1]"] {
        assert!(
            with(&format!("api = \"http://{host}:8006\"\ntls = \"webpki\"\n")).is_ok(),
            "{host} should be allowed"
        );
    }
}

#[test]
fn a_missing_or_unknown_scheme_is_refused() {
    assert!(with("api = \"node.example:8006\"\ntls = \"webpki\"\n").is_err());
    assert!(with("api = \"ftp://node.example\"\ntls = \"webpki\"\n").is_err());
}

#[test]
fn ca_file_verification_needs_a_ca_file() {
    let e = with("api = \"https://n\"\ntls = \"ca-file\"\n").expect_err("should refuse");
    assert!(e.message().contains("no [proxmox].ca_file"), "{}", e.message());
}

#[test]
fn a_ca_file_nothing_reads_is_refused() {
    // Otherwise a person believes their traffic is verified when it is not,
    // which is the most expensive way to be wrong here.
    let e = with("api = \"https://n\"\ntls = \"insecure\"\nca_file = \"/tmp/ca.pem\"\n")
        .expect_err("should refuse");
    assert!(e.message().contains("does not use it"), "{}", e.message());
}

#[test]
fn an_unknown_tls_mode_is_refused_rather_than_defaulted() {
    let e = with("api = \"https://n\"\ntls = \"maybe\"\n").expect_err("should refuse");
    assert!(e.message().contains("webpki"), "{}", e.message());
}

#[test]
fn an_empty_pool_is_refused_with_a_reason() {
    let t = table("api = \"https://n\"\nnode = \"n\"\npool = \"\"\nid_range = [9000, 9099]\ntoken_file = \"/dev/null\"\ndata_storage = \"s\"\ntls = \"webpki\"\n");
    let e = from_table(&t, &None, true).expect_err("should refuse");
    assert!(e.message().contains("must be placed"), "{}", e.message());
}

#[test]
fn an_unknown_key_in_the_provider_table_is_refused() {
    let e = with("api = \"https://n\"\ntls = \"webpki\"\nnodee = \"typo\"\n")
        .expect_err("should refuse");
    assert!(e.message().contains("proxmox"), "{}", e.message());
}

#[test]
fn a_ca_file_that_is_not_there_is_refused() {
    let t = table(&format!(
        "{BASE}api = \"https://n\"\ntls = \"ca-file\"\nca_file = \"~/ca.pem\"\n"
    ));
    let home = Some("/home/someone".to_string());
    let e = from_table(&t, &home, false).expect_err("should refuse");
    assert!(e.message().contains("/home/someone/ca.pem"), "{}", e.message());
    let c = from_table(&t, &home, true).expect("accepted");
    assert_eq!(c.tls, Tls::CaFile("/home/someone/ca.pem".to_string()));
}

// --- the token file --------------------------------------------------------

#[test]
fn a_token_others_can_read_is_refused() {
    // The same rule ssh applies to a private key, for the same reason.
    for mode in [0o644, 0o640, 0o604, 0o666] {
        let e = check_permissions(mode, "/t/token").expect_err("should be refused");
        assert!(e.message().contains("readable by others"), "{mode:o}: {}", e.message());
    }
}

#[test]
fn a_token_only_its_owner_can_read_is_accepted() {
    assert!(check_permissions(0o600, "/t/token").is_ok());
    assert_eq!(
        read_token("cal@pve!harness=s3cret\n", "/t/token").unwrap(),
        "cal@pve!harness=s3cret"
    );
}

#[test]
fn a_token_that_is_not_shaped_like_a_credential_is_refused() {
    for (label, body) in [
        ("empty", ""),
        ("blank", " \n"),
        ("no bang", "cal@pve=secret"),
        ("no equals", "cal@pve!harness"),
        ("internal space", "cal@pve!harness= secret"),
    ] {
        assert!(read_token(body, "/t/token").is_err(), "{label} should be refused");
    }
}

// --- the session's disk ----------------------------------------------------

#[test]
fn a_blank_disk_is_attached_at_the_requested_size() {
    let mut pve = pve_with_template();
    let p = provider();

    let m = create(&mut pve, &p, &request("a-session", 1)).expect("create");
    let disks = pve.attached(&m);
    assert_eq!(
        disks.get("virtio1").map(String::as_str),
        Some("some-storage:64"),
        "attached: {disks:?}"
    );
}

#[test]
fn the_disk_is_attached_in_the_same_call_as_the_expiry() {
    // A separate call would widen the window in which the machine exists
    // without a tag, and that window is the one unrecoverable state in the
    // design.
    let mut pve = pve_with_template();
    let p = provider();
    create(&mut pve, &p, &request("a-session", 1_700_000_000)).expect("create");
    assert_eq!(pve.writes(), 1, "expected one config write, saw {}", pve.writes());
}

#[test]
fn a_template_that_carries_its_own_disk_gets_no_second_one() {
    let mut pve = pve_with_template();
    let p = provider();
    let mut req = request("a-session", 1);
    req.data_disk_gb = None;

    let m = create(&mut pve, &p, &req).expect("create");
    assert!(pve.attached(&m).is_empty(), "nothing should have been attached");
}

#[test]
fn asking_for_a_disk_with_nowhere_to_put_it_is_refused_clearly() {
    let mut pve = pve_with_template();
    let p = Proxmox::with_token(Config { data_storage: None, ..config() }, TOKEN.to_string());
    let e = create(&mut pve, &p, &request("a-session", 1)).unwrap_err();
    assert!(e.message().contains("data_storage"), "{}", e.message());
}

#[test]
fn the_disk_slot_is_configurable() {
    // A site whose templates differ should not have to patch the provider.
    let mut pve = pve_with_template();
    let c = from_table(
        &table(&format!(
            "api = \"http://127.0.0.1:8006\"\nnode = \"{NODE}\"\npool = \"{POOL}\"\nid_range = [9000, 9099]\n\
             token_file = \"/dev/null\"\ndata_storage = \"s\"\ndata_bus = \"scsi3\"\ntls = \"insecure\"\n",
        )),
        &None,
        true,
    )
    .expect("config");
    let p = Proxmox::with_token(c, TOKEN.to_string());

    let m = create(&mut pve, &p, &request("a-session", 1)).expect("create");
    let disks = pve.attached(&m);
    assert_eq!(disks.get("scsi3").map(String::as_str), Some("s:64"), "{disks:?}");
}

#[test]
fn destroying_also_clears_disks_a_failed_create_could_have_left() {
    let mut pve = pve_with_session();
    let p = provider();

    destroy(&mut pve, &p, &MachineRef::new("9001")).unwrap();

    let deletes: Vec<String> =
        pve.paths().into_iter().filter(|p| p.contains("/qemu/9001")).collect();
    assert!(
        deletes.iter().any(|p| p.contains("destroy-unreferenced-disks=1")),
        "unreferenced disks must be cleared too: {deletes:?}"
    );
    assert!(pve.vm(9001).is_none(), "the machine should be gone");
}

// --- protection ------------------------------------------------------------

#[test]
fn a_session_is_destroyable_even_though_its_template_is_protected() {
    // The protection flag is copied to clones, and templates are rightly
    // protected. Left inherited, a session could never be destroyed.
    let mut pve = pve_with_template();
    pve.vms.get_mut(&9000).unwrap().protection = true;
    let p = provider();

    let m = create(&mut pve, &p, &request("a-session", 1)).expect("create");
    assert!(
        !pve.vm(number(&m)).unwrap().protection,
        "the session inherited protection and could never be destroyed"
    );

    destroy(&mut pve, &p, &m).expect("a session must always be destroyable");
    assert!(pve.vm(number(&m)).is_none());
}

#[test]
fn protection_is_cleared_before_the_machine_is_ever_started() {
    let mut pve = pve_with_template();
    pve.vms.get_mut(&9000).unwrap().protection = true;
    let p = provider();
    create(&mut pve, &p, &request("a-session", 1)).expect("create");

    let paths = pve.paths();
    let config_at = pve
        .requests
        .iter()
        .position(|(m, p)| m == "PUT" && p.ends_with("/config"))
        .expect("configured");
    assert!(
        !paths.iter().any(|x| x.contains("/status/start")),
        "create must not start the machine: {paths:?}"
    );
    assert_eq!(
        pve.writes(),
        1,
        "expiry, resources, disk and protection belong in one call: {paths:?}"
    );
    assert!(config_at > 0);
}

#[test]
fn the_template_itself_is_never_unprotected() {
    let mut pve = pve_with_template();
    pve.vms.get_mut(&9000).unwrap().protection = true;
    let p = provider();
    create(&mut pve, &p, &request("a-session", 1)).expect("create");
    assert!(pve.vm(9000).unwrap().protection, "the template must stay protected");
}

#[test]
fn destroying_a_running_machine_stops_it_first() {
    // The API refuses to delete a running machine.
    let mut pve = pve_with_session();
    pve.vms.get_mut(&9001).unwrap().running = true;
    let p = provider();

    destroy(&mut pve, &p, &MachineRef::new("9001"))
        .expect("destroy must handle a running machine");
    assert!(pve.vm(9001).is_none(), "the machine should be gone");

    let paths = pve.paths();
    let stopped = paths.iter().position(|x| x.contains("/status/stop")).expect("asked it to stop");
    let deleted = paths.iter().rposition(|x| x.contains("/qemu/9001?")).expect("deleted");
    assert!(stopped < deleted, "stop must precede delete: {paths:?}");
}

#[test]
fn destroying_a_stopped_machine_does_not_bother_stopping_it() {
    let mut pve = pve_with_session();
    let p = provider();
    destroy(&mut pve, &p, &MachineRef::new("9001")).unwrap();
    assert!(
        !pve.paths().iter().any(|x| x.contains("/status/stop")),
        "no need to stop something already stopped"
    );
}

#[test]
fn destroying_a_machine_the_sweeper_already_took_reports_it_gone() {
    let mut pve = pve_with_template();
    let p = provider();
    let m = create(&mut pve, &p, &request("a-session", 1)).expect("create");
    pve.vms.remove(&number(&m)); // as the sweeper would

    let e = destroy(&mut pve, &p, &m).unwrap_err();
    assert!(
        matches!(e, ProviderError::NotFound(_)),
        "should be reported as gone, got: {}",
        e.message()
    );
}

#[test]
fn a_genuine_credential_failure_is_not_mistaken_for_a_missing_machine() {
    // The dangerous inverse. Reporting a live machine as gone would drop the
    // session record that is the only convenient trace of it.
    let mut pve = pve_with_template();
    let p = provider();
    let m = create(&mut pve, &p, &request("a-session", 1)).expect("create");
    pve.unauthorized = true;

    let e = destroy(&mut pve, &p, &m).unwrap_err();
    assert!(
        matches!(e, ProviderError::Unauthorized(_)),
        "a broken credential must not read as a missing machine, got: {}",
        e.message()
    );
}

// --- room on the storage ---------------------------------------------------

#[test]
fn a_session_that_would_fill_the_storage_is_refused_before_anything_is_made() {
    let mut pve = pve_with_template();
    let p = provider();

    // Room for the 64 GiB pool disk, but not for it plus the floor that must
    // be left behind.
    pve.storage_avail_bytes = 70 << 30;

    let e = create(&mut pve, &p, &request("a-session", 1_700_000_000))
        .expect_err("should have refused");
    let message = e.message();
    assert!(message.contains("free"), "{message}");
    assert!(message.contains("min_free_gb"), "should say how to override: {message}");

    // And nothing was created on the way to finding out.
    assert!(
        !pve.paths().iter().any(|x| x.contains("/clone")),
        "refused after cloning: {:?}",
        pve.paths()
    );
}

#[test]
fn room_is_counted_per_storage_and_includes_the_template_being_copied() {
    let mut pve = pve_with_template();
    let p = provider();

    // No pool disk at all, so the only thing to weigh is the template's own
    // 8 GiB boot disk being copied.
    pve.storage_avail_bytes = 12 << 30;

    let mut req = request("a-session", 1_700_000_000);
    req.data_disk_gb = None;
    assert!(create(&mut pve, &p, &req).is_err(), "the boot copy has to count too");
}

#[test]
fn a_session_that_fits_is_created() {
    let mut pve = pve_with_template();
    let p = provider();
    pve.storage_avail_bytes = 500 << 30;
    assert!(create(&mut pve, &p, &request("a-session", 1_700_000_000)).is_ok());
}

#[test]
fn a_storage_that_will_not_say_how_full_it_is_does_not_stop_a_session() {
    // Not knowing is not the same as knowing there is no room.
    let mut pve = pve_with_template();
    let p = provider();
    pve.storage_avail_bytes = 0;
    assert!(
        create(&mut pve, &p, &request("a-session", 1_700_000_000)).is_ok(),
        "an unreadable storage must not block a session"
    );
}

#[test]
fn a_disk_key_is_a_disk_key_and_not_merely_a_prefix() {
    // `virtiofs0` starts with a bus name and is not a disk.
    assert!(is_disk_key("virtio0"));
    assert!(is_disk_key("scsi12"));
    assert!(!is_disk_key("virtiofs0"));
    assert!(!is_disk_key("virtio"));
    assert!(!is_disk_key("net0"));
}

#[test]
fn disk_specs_are_read_the_way_proxmox_writes_them() {
    assert_eq!(
        disk_storage_and_size("some-storage:vm-9001-disk-0,iothread=1,size=8G"),
        Some(("some-storage".to_string(), 8 * 1024 * 1024 * 1024))
    );
    assert_eq!(
        disk_storage_and_size("s:vm-1-disk-0,size=512M"),
        Some(("s".to_string(), 512 * 1024 * 1024))
    );
    // A mounted image is not a disk that gets copied.
    assert_eq!(disk_storage_and_size("local:iso/x.iso,media=cdrom,size=900M"), None);
    // Nor is an entry with no size at all.
    assert_eq!(disk_storage_and_size("none,media=cdrom"), None);
}

#[test]
fn refusing_a_disk_with_nowhere_to_put_it_creates_nothing() {
    let mut pve = pve_with_template();
    let p = Proxmox::with_token(Config { data_storage: None, ..config() }, TOKEN.to_string());

    let e = create(&mut pve, &p, &request("a-session", 1)).unwrap_err();
    assert!(e.message().contains("data_storage"), "{}", e.message());
    assert!(pve.sessions().is_empty(), "a refused create must leave nothing: {:?}", pve.sessions());
    assert!(
        !pve.paths().iter().any(|p| p.contains("/clone")),
        "the refusal must come before the network, not after the clone"
    );
}

#[test]
fn a_failed_clone_leaves_nothing_behind() {
    // The task reported failure, so the outcome is known -- which licenses
    // the cleanup a timeout does not.
    let mut pve = pve_with_template();
    pve.next_task_fails = Some("clone failed: no space".into());
    let p = provider();

    let e = create(&mut pve, &p, &request("a-session", 1)).unwrap_err();
    assert!(e.message().contains("no space"), "{}", e.message());
    assert!(e.message().contains("nothing was left behind"), "{}", e.message());
    assert!(
        pve.sessions().is_empty(),
        "the leftover must be destroyed: {:?}",
        pve.sessions()
    );
}

#[test]
fn a_clone_timeout_names_the_possible_orphan() {
    // No tag has been applied yet, so the message must say so instead of
    // reassuring.
    let mut pve = pve_with_template();
    pve.tasks_never_finish = true;
    let p = provider();

    let e = create(&mut pve, &p, &request("a-session", 1)).unwrap_err();
    assert!(
        e.message().contains("no expiry tag yet"),
        "the one untagged window must not be papered over: {}",
        e.message()
    );
    assert!(e.message().contains("destroy"), "{}", e.message());
}

#[test]
fn a_blinking_api_does_not_fail_a_running_task() {
    let mut pve = pve_with_template();
    pve.flake_next = 2;
    let p = provider();
    create(&mut pve, &p, &request("a-session", 1))
        .expect("two blinks inside the deadline are absorbed");
}

#[test]
fn a_third_partys_expires_tag_is_not_ours_to_delete() {
    // What this module cannot read it may not delete.
    let out = tags::with_expiry("expires-soon;owner-x;expires-1700000000", at(1_800_000_000));
    assert!(out.contains("expires-soon"), "{out}");
    assert!(out.contains("owner-x"), "{out}");
    assert!(out.contains("expires-1800000000"), "{out}");
    assert!(!out.contains("expires-1700000000"), "{out}");
}

#[test]
fn a_machine_destroyed_mid_wait_is_gone_not_pending() {
    let mut pve = pve_with_template();
    let p = provider();
    let e = address(&mut pve, &p, &MachineRef::new("9042"))
        .expect_err("a missing machine is an answer, not a wait");
    assert!(matches!(e, ProviderError::NotFound(_)), "wanted NotFound, got {}", e.message());
}

#[test]
fn room_is_checked_against_the_storage_that_is_actually_short() {
    // Each storage against its own figure.
    let mut pve = pve_with_template();
    pve.storage_avail_named.insert("some-storage".to_string(), 10 << 30);
    let p = provider();

    let e = create(&mut pve, &p, &request("a-session", 1)).unwrap_err();
    let msg = e.message();
    assert!(msg.contains("some-storage"), "{msg}");
    assert!(pve.sessions().is_empty(), "refused before anything was made");
}

#[test]
fn every_kind_of_disk_a_clone_copies_is_priced() {
    // efidisk, tpmstate and unused volumes ride along in a full clone.
    for key in ["efidisk0", "tpmstate0", "unused0", "virtio0", "scsi12"] {
        assert!(is_disk_key(key), "{key} is copied, so it is priced");
    }
    for key in ["virtiofs0", "efidisk", "unused", "net0", "ide"] {
        assert!(!is_disk_key(key), "{key} is not a disk");
    }
}

#[test]
fn fractional_sizes_count_instead_of_costing_zero() {
    assert_eq!(parse_size("4.5G"), Some((4.5 * (1u64 << 30) as f64) as u64));
    assert_eq!(parse_size("528K"), Some(528 * 1024));
    assert_eq!(parse_size("8G"), Some(8 * (1u64 << 30)));
    // Unknown suffixes stay unknown.
    assert_eq!(parse_size("2P"), None);
    assert_eq!(parse_size(""), None);
    // The absurd does not wrap into the tiny.
    assert_eq!(parse_size("99999999999999999999T"), None);
}

#[test]
fn sizes_may_have_a_sign_and_an_exponent() {
    for (text, size) in [
        ("1e3", Some(1000)),
        ("1.5E+2K", Some(150 * 1024)),
        ("2500e-3", Some(3)),
        ("+5", Some(5)),
        (".5K", Some(512)),
        ("5.", Some(5)),
        ("0.001e3M", Some(1024 * 1024)),
        ("-0", Some(0)),
        ("-0.0e9G", Some(0)),
        ("0e99999999999999999999", Some(0)),
        ("1e-30", Some(1)),
        ("8388608T", Some(1 << 63)),
        ("8388608.1T", None),
        ("1e19", None),
        ("1e400", None),
        ("-1", None),
        ("1e", None),
        ("e5", None),
        ("1e+-2", None),
        ("1.2.3", None),
        (".", None),
        ("inf", None),
        ("nan", None),
    ] {
        assert_eq!(parse_size(text), size, "{text:?}");
    }
}

#[test]
fn sizes_are_written_in_gibibytes() {
    assert_eq!(gib(8 << 30), "8.0 GiB");
    assert_eq!(gib(1610612736), "1.5 GiB");
}

#[test]
fn every_certificate_in_a_ca_bundle_is_loaded() {
    let bundle = "\
-----BEGIN CERTIFICATE-----\naaa\n-----END CERTIFICATE-----\n\
# a comment between blocks\n\
-----BEGIN CERTIFICATE-----\nbbb\n-----END CERTIFICATE-----\n";
    let blocks = pem_blocks(bundle);
    assert_eq!(blocks.len(), 2, "{blocks:?}");
    assert!(blocks[0].contains("aaa"));
    assert!(blocks[1].contains("bbb"));
    assert!(pem_blocks("not pem at all").is_empty());
}

#[test]
fn a_double_failure_names_the_machine_to_destroy_by_hand() {
    // The clone inherits protection from the template, which is exactly how
    // the cleanup comes to fail.
    let mut pve = pve_with_template();
    pve.vms.get_mut(&9000).unwrap().protection = true;
    pve.reject_config_writes = true;
    let p = provider();

    let e = create(&mut pve, &p, &request("a-session", 1)).unwrap_err();
    let msg = e.message();
    assert!(msg.contains("by hand"), "{msg}");
    assert!(msg.contains("9001"), "name the machine, not just the problem: {msg}");
}

#[test]
fn a_v6_only_guest_still_yields_its_address() {
    let mut pve = pve_with_template();
    pve.agent_interfaces = Some(
        r#"[
            {"name": "lo0", "ip-addresses": [{"ip-address": "::1"}]},
            {"name": "vtnet0", "ip-addresses": [
                {"ip-address": "fe80::1"},
                {"ip-address": "2001:db8::7"}
            ]}
        ]"#
        .to_string(),
    );
    let p = provider();
    let m = create(&mut pve, &p, &request("a-session", 1)).expect("create");
    start(&mut pve, &p, &m).expect("start");
    let a = address(&mut pve, &p, &m).expect("query").expect("an address");
    assert_eq!(a.text(), "2001:db8::7", "global v6 beats loopback and link-local");
}

#[test]
fn an_agent_reply_shaped_as_a_bare_array_still_parses() {
    // Older agents answer the array without the {"result": ...} wrapper.
    let bare = read_json(
        r#"[{"name": "eth0", "ip-addresses": [{"ip-address": "192.0.2.9"}]}]"#,
    )
    .ok()
    .expect("JSON");
    assert_eq!(first_usable_address(&bare).map(|a| a.text()), Some("192.0.2.9".to_string()));
}

#[test]
fn a_token_file_is_judged_by_its_mode_before_it_is_read() {
    let good = table(&format!("{BASE}api = \"https://n\"\ntls = \"webpki\"\n"));
    let refused = |mode: u32| {
        let token = TokenFile::Found { mode, text: Err("permission denied".to_string()) };
        Proxmox::from_table(&good, &None, true, &token).err().expect("refused").message()
    };
    assert!(refused(0o644).contains("readable by others"), "{}", refused(0o644));
    assert!(refused(0o600).contains("permission denied"), "{}", refused(0o600));
}

#[test]
fn the_provider_may_be_configured_with_a_list() {
    let listed = table(
        "list = [\"https://n\", \"node\", \"pool\", [9000, 9099], \"/t\", \"s\", \"scsi1\", \
         \"insecure\", \"\", \"5m\", \"9s\"]",
    );
    let list = listed.get("list").expect("a list");
    let e = from_table(list, &None, false).err().expect("the ca file is set").message();
    assert!(e.contains("ca_file is set"), "{e}");
    let short = table("list = [\"https://n\", \"node\"]");
    assert!(from_table(short.get("list").expect("a list"), &None, false).is_err());
}

#[test]
fn from_table_refuses_what_its_pieces_refuse() {
    // A bad table and an unreadable token file must both come back as Config
    // errors, not panics or defaults.
    let bad = table("api = \"https://x:8006\"\n");
    let good = table(&format!("{BASE}api = \"https://n\"\ntls = \"webpki\"\n"));
    let token = TokenFile::Found { mode: 0o600, text: Ok("a@b!c=d".to_string()) };
    let Err(e) = Proxmox::from_table(&bad, &None, true, &token) else {
        panic!("a table with no node, pool or range should be refused");
    };
    assert!(matches!(e, ProviderError::Config(_)), "{}", e.message());
    let unreadable = TokenFile::Unreadable("permission denied".to_string());
    let Err(e) = Proxmox::from_table(&good, &None, true, &unreadable) else {
        panic!("an unreadable token should be refused");
    };
    assert!(matches!(e, ProviderError::Config(_)), "{}", e.message());
    let p = Proxmox::from_table(&good, &None, true, &token).ok().expect("accepted");
    assert_eq!(p.token, "a@b!c=d");
    assert_eq!(p.name(), "proxmox");
}

#[test]
fn a_stopped_machine_has_no_address_yet_rather_than_an_error() {
    let mut pve = pve_with_template();
    let p = provider();
    let m = create(&mut pve, &p, &request("a-session", 1)).expect("create");
    // Created and never started.
    assert_eq!(address(&mut pve, &p, &m).expect("not an error"), None);
}

#[test]
fn renewing_a_gone_machine_says_gone_not_permission_denied() {
    let mut pve = pve_with_template();
    let p = provider();
    let m = create(&mut pve, &p, &request("a-session", 1)).expect("create");
    pve.vms.remove(&number(&m));
    let e = set_expiry(&mut pve, &p, &m, 2_000_000_000).unwrap_err();
    assert!(matches!(e, ProviderError::NotFound(_)), "{}", e.message());
}

#[test]
fn starting_or_stopping_a_gone_machine_says_gone() {
    let mut pve = pve_with_template();
    let p = provider();
    let m = create(&mut pve, &p, &request("a-session", 1)).expect("create");
    pve.vms.remove(&number(&m));
    let started = start(&mut pve, &p, &m).unwrap_err();
    let stopped = stop(&mut pve, &p, &m).unwrap_err();
    for (what, e) in [("start", started), ("stop", stopped)] {
        assert!(matches!(e, ProviderError::NotFound(_)), "{what}: {}", e.message());
    }
}

#[test]
fn a_machine_that_exists_still_renews_and_starts() {
    let mut pve = pve_with_template();
    let p = provider();
    let m = create(&mut pve, &p, &request("a-session", 1)).expect("create");
    set_expiry(&mut pve, &p, &m, 2_000_000_000).expect("renew works");
    start(&mut pve, &p, &m).expect("start works");
    pve.unauthorized = true;
    let e = set_expiry(&mut pve, &p, &m, 2_000_000_001).unwrap_err();
    assert!(
        matches!(e, ProviderError::Unauthorized(_)),
        "a refusal for a machine that IS listed stays a refusal: {}",
        e.message()
    );
}

// --- diagnosis -------------------------------------------------------------

#[test]
fn a_healthy_site_is_never_given_a_false_ok_for_the_sweeper() {
    let mut pve = pve_with_template();
    let p = provider();
    let guests =
        vec![RegisteredGuest { name: "some-os".to_string(), template: "9000".to_string() }];
    let now = at(1_700_000_000);
    let found = drive(&mut pve, &p, |r| p.diagnose(&guests, &now, r));
    assert!(!found.is_empty());
    assert!(found.iter().all(|f| f.health != Health::Fail), "{found:?}");
    let sweeper = found.iter().find(|f| f.label.contains("sweep")).expect("the sweeper is judged");
    assert_eq!(sweeper.health, Health::Warn, "{sweeper:?}");
}

#[test]
fn a_template_that_is_not_there_is_a_failure() {
    let mut pve = pve_with_template();
    let p = provider();
    let guests =
        vec![RegisteredGuest { name: "some-os".to_string(), template: "9050".to_string() }];
    let now = at(1_700_000_000);
    let found = drive(&mut pve, &p, |r| p.diagnose(&guests, &now, r));
    assert!(
        found.iter().any(|f| f.health == Health::Fail && f.detail.contains("does not exist")),
        "{found:?}"
    );
}

// --- identifiers -----------------------------------------------------------

fn range() -> IdRange {
    IdRange::new(9000, 9099).unwrap()
}

#[test]
fn identifiers_inside_the_range_are_allowed() {
    for id in [9000, 9050, 9099] {
        assert_eq!(range().check(&MachineRef::new(&id.to_string())).unwrap(), id);
    }
}

#[test]
fn identifiers_outside_the_range_are_refused() {
    // 8100 is the sweeper's own machine. If this ever stops being refused,
    // reaper can destroy the thing that cleans up after it.
    for id in [99, 100, 8100, 8999, 9100, 100000] {
        let e = range().check(&MachineRef::new(&id.to_string())).expect_err("should be refused");
        assert!(matches!(e, ProviderError::Refused(_)), "{id}: {}", e.message());
    }
}

#[test]
fn a_reference_that_is_not_an_identifier_is_refused() {
    for raw in ["", "abc", "9000x", "-9000", "9000 ", " 9000", "0x2328", "9000.0"] {
        assert!(range().check(&MachineRef::new(raw)).is_err(), "{raw:?} should be refused");
    }
}

#[test]
fn the_refusal_says_what_was_wrong() {
    let m = range().check(&MachineRef::new("8100")).unwrap_err().message();
    assert!(m.contains("8100") && m.contains("9000-9099"), "unhelpful: {m}");
    assert!(m.contains("before contacting the API"), "unhelpful: {m}");
}

#[test]
fn nonsense_ranges_are_refused_at_construction() {
    assert!(IdRange::new(9099, 9000).is_err(), "inverted");
    assert!(IdRange::new(0, 9099).is_err(), "below the Proxmox minimum");
    assert!(IdRange::new(99, 100).is_err(), "below the Proxmox minimum");
    assert!(IdRange::new(9000, 9000).is_ok(), "a single identifier is a range");
}

// --- tags ------------------------------------------------------------------

#[test]
fn an_expiry_round_trips() {
    let t = at(1_700_000_000);
    assert_eq!(tags::encode(t), "expires-1700000000");
    assert_eq!(tags::expiry_of(&tags::encode(t)), Some(t));
}

#[test]
fn both_separators_are_understood() {
    for tags in [
        "ephemeral;expires-1700000000;owner-cal",
        "ephemeral,expires-1700000000,owner-cal",
        " ephemeral ; expires-1700000000 ; owner-cal ",
    ] {
        assert_eq!(tags::expiry_of(tags), Some(at(1_700_000_000)), "{tags:?}");
    }
}

#[test]
fn a_machine_with_no_expiry_reports_none() {
    for tags in ["", "ephemeral", "ephemeral;owner-cal", "expires-", "expires-soon"] {
        assert_eq!(tags::expiry_of(tags), None, "{tags:?}");
    }
}

#[test]
fn setting_an_expiry_preserves_every_other_tag() {
    let got = tags::with_expiry("ephemeral;owner-cal;expires-1", at(1_700_000_000));
    let tags = tags::split(&got);
    assert!(tags.contains(&"ephemeral".to_string()));
    assert!(tags.contains(&"owner-cal".to_string()));
    assert!(tags.contains(&"expires-1700000000".to_string()));
}

#[test]
fn setting_an_expiry_replaces_any_previous_one() {
    // Two expiry tags would leave which one governs up to whoever reads them
    // first.
    let got = tags::with_expiry("expires-1;expires-2;keep", at(1_700_000_000));
    let expiries: Vec<String> =
        tags::split(&got).into_iter().filter(|t| t.starts_with(tags::PREFIX)).collect();
    assert_eq!(expiries, vec!["expires-1700000000"]);
    assert!(tags::split(&got).contains(&"keep".to_string()));
}

#[test]
fn setting_an_expiry_on_an_untagged_machine_works() {
    assert_eq!(tags::with_expiry("", at(1_700_000_000)), "expires-1700000000");
}

#[test]
fn the_written_form_uses_semicolons() {
    let got = tags::with_expiry("a,b", at(1));
    assert_eq!(got, "a;b;expires-1");
}

#[test]
fn a_time_before_the_epoch_does_not_wrap_into_the_far_future() {
    let ancient = SystemTime::epoch().checked_sub(&Duration::from_secs(1000)).unwrap();
    assert_eq!(tags::encode(ancient), "expires-0");
}

// --- the registry ----------------------------------------------------------

#[test]
fn an_unknown_provider_names_the_ones_that_exist() {
    let token = TokenFile::Unreadable("none".to_string());
    let m = match registry::build("cbsd", &Json::Object(vec![]), &None, false, &token) {
        Err(e) => e.message(),
        Ok(_) => panic!("a provider this build does not have should not be buildable"),
    };
    assert!(m.contains("cbsd"), "{m}");
    assert!(m.contains("proxmox"), "should list what is available: {m}");
}

#[test]
fn every_advertised_provider_can_actually_be_selected() {
    for name in registry::AVAILABLE.split(", ") {
        let token = TokenFile::Unreadable("none".to_string());
        // Reaching configuration validation means the arm matched.
        if let Err(ProviderError::Config(m)) =
            registry::build(name, &Json::Object(vec![]), &None, false, &token)
        {
            assert!(!m.contains("no provider named"), "{name}: {m}");
        }
        let table = table(&format!("{BASE}api = \"https://n\"\ntls = \"webpki\"\n"));
        let token = TokenFile::Found { mode: 0o600, text: Ok("a@b!c=d".to_string()) };
        let Ok(Selected::Proxmox(p)) = registry::build(name, &table, &None, true, &token) else {
            panic!("should be selected");
        };
        assert_eq!(p.name(), name);
    }
}
