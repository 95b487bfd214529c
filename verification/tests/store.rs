//! The session store: what is kept, and what is refused.
use reaper::address::Address;
use reaper::json::read_json;
use reaper::paths::Environment;
use reaper::provider::MachineRef;
use reaper::session::{Attempt, Change, LockStep, Probe, Session, Store, StoreError};
use reaper::time::{Duration, SystemTime};

fn at(secs: u64) -> SystemTime {
    SystemTime::from_secs(secs).expect("a moment")
}

fn session(name: &str, machine: &str) -> Session {
    Session {
        name: name.to_string(),
        project: "a-project".to_string(),
        guest: "a-guest".to_string(),
        template: "opaque".to_string(),
        machine: MachineRef::new(machine),
        address: Some(Address::parse("192.0.2.10").unwrap()),
        created_at: at(1_700_000_000),
        ready_at: None,
        expires_at: at(1_700_007_200),
        ttl: Duration::from_secs(7200),
        heartbeat_pid: Some(4242),
        synced_at: None,
    }
}

#[test]
fn a_store_is_written_in_the_order_of_its_fields() {
    let mut shelf = Shelf::new();
    shelf.put(session("alpha", "m-1"));
    assert_eq!(
        shelf.text.unwrap(),
        r#"{
  "version": 1,
  "sessions": {
    "alpha": {
      "name": "alpha",
      "project": "a-project",
      "guest": "a-guest",
      "template": "opaque",
      "machine": "m-1",
      "address": "192.0.2.10",
      "created_at": 1700000000,
      "ready_at": null,
      "expires_at": 1700007200,
      "ttl": 7200,
      "heartbeat_pid": 4242,
      "synced_at": null
    }
  }
}"#
    );
}

#[test]
fn a_record_may_be_a_list_of_its_fields() {
    let store = Store::at("/state/sessions.json".to_string());
    let with = |session: &str| Some(format!(r#"[1, {{"alpha": {session}}}]"#));
    let ten = r#""alpha", "p", "g", "t", "m-1", null, 1700000000, null, 1700007200, 60"#;
    let full = with(&format!("[{ten}, 7, 1700000001]"));
    let s = store.get(&full, "alpha").ok().expect("readable").expect("there");
    assert_eq!((s.project.as_str(), s.machine.as_str()), ("p", "m-1"));
    assert_eq!(s.ttl, Duration::from_secs(60));
    assert_eq!((s.heartbeat_pid, s.synced_at), (Some(7), Some(at(1_700_000_001))));
    // The last two need not be there; anything else has to, and no more.
    let short = with(&format!("[{ten}]"));
    let s = store.get(&short, "alpha").ok().expect("readable").expect("there");
    assert_eq!((s.heartbeat_pid, s.synced_at), (None, None));
    for text in [
        with(r#"["alpha", "p", "g", "t", "m-1", null, 1700000000, null, 1700007200]"#),
        with(&format!("[{ten}, 7, 1700000001, 3]")),
        with(&format!("[{ten}, \"seven\"]")),
        Some("[1]".to_string()),
        Some("[1, {}, 2]".to_string()),
        Some("[2, {}]".to_string()),
    ] {
        assert!(matches!(store.list(&text), Err(StoreError::Corrupt { .. })), "{text:?}");
    }
}

#[test]
fn changing_one_session_leaves_the_others() {
    let mut shelf = Shelf::new();
    shelf.put(session("alpha", "m-1"));
    shelf.put(session("beta", "m-2"));
    assert!(shelf.update("alpha", Change::Renewal(at(1_800_000_000), Duration::from_secs(9))));
    let alpha = shelf.get("alpha").unwrap();
    assert_eq!((alpha.expires_at, alpha.ttl), (at(1_800_000_000), Duration::from_secs(9)));
    assert_eq!(alpha.created_at, at(1_700_000_000));
    assert_eq!(shelf.get("beta").unwrap().expires_at, at(1_700_007_200));
    let before = shelf.text.clone();
    assert!(!shelf.update("gamma", Change::Heartbeat(None)));
    assert_eq!(shelf.text, before);
}

/// A store and what its file holds.
struct Shelf {
    store: Store,
    text: Option<String>,
}

impl Shelf {
    fn new() -> Shelf {
        Shelf { store: Store::at("/state/sessions.json".to_string()), text: None }
    }

    fn put(&mut self, s: Session) {
        self.text = Some(self.store.put(&self.text, s).expect("stored"));
    }

    fn get(&self, name: &str) -> Option<Session> {
        self.store.get(&self.text, name).ok().expect("readable")
    }

    fn list(&self) -> Vec<Session> {
        self.store.list(&self.text).ok().expect("readable")
    }

    fn remove(&mut self, name: &str) -> Option<Session> {
        let (text, gone) = self.store.remove(&self.text, name).ok().expect("readable");
        self.text = Some(text);
        gone
    }

    fn update(&mut self, name: &str, change: Change) -> bool {
        let (text, found) = self.store.update(&self.text, name, change).expect("readable");
        self.text = Some(text);
        found
    }
}

#[test]
fn a_session_round_trips_through_the_store() {
    let mut shelf = Shelf::new();
    shelf.put(session("alpha", "m-1"));

    let got = shelf.get("alpha").expect("stored session");
    assert_eq!(got.machine, MachineRef::new("m-1"));
    assert_eq!(got.address, Some(Address::parse("192.0.2.10").unwrap()));
    assert_eq!(got.ttl, Duration::from_secs(7200));
    assert_eq!(got.heartbeat_pid, Some(4242));
    assert_eq!(
        got.expires_at,
        got.created_at.checked_add(&Duration::from_secs(7200)).unwrap()
    );
}

#[test]
fn every_field_of_a_session_is_kept() {
    let mut shelf = Shelf::new();
    let mut s = session("full \"name\"", "m/1");
    s.address = Some(Address::parse("2001:db8::7").unwrap());
    s.ready_at = Some(at(1_700_000_100));
    s.synced_at = Some(at(1_700_000_200));
    s.heartbeat_pid = None;
    shelf.put(s);

    let got = shelf.get("full \"name\"").expect("stored session");
    assert_eq!(got.name, "full \"name\"");
    assert_eq!(got.project, "a-project");
    assert_eq!(got.guest, "a-guest");
    assert_eq!(got.template, "opaque");
    assert_eq!(got.machine.as_str(), "m/1");
    assert_eq!(got.address.unwrap().text(), "2001:db8::7");
    assert_eq!(got.created_at, at(1_700_000_000));
    assert_eq!(got.ready_at, Some(at(1_700_000_100)));
    assert_eq!(got.synced_at, Some(at(1_700_000_200)));
    assert_eq!(got.heartbeat_pid, None);
}

#[test]
fn a_store_that_has_never_been_written_is_empty_rather_than_broken() {
    let shelf = Shelf::new();
    assert!(shelf.list().is_empty());
    assert!(shelf.get("anything").is_none());
}

#[test]
fn sessions_accumulate_and_can_be_removed() {
    let mut shelf = Shelf::new();
    shelf.put(session("alpha", "m-1"));
    shelf.put(session("beta", "m-2"));
    assert_eq!(shelf.list().len(), 2);

    let removed = shelf.remove("alpha").expect("was there");
    assert_eq!(removed.machine, MachineRef::new("m-1"));
    assert_eq!(shelf.list().len(), 1);
    assert!(shelf.remove("alpha").is_none());
}

#[test]
fn putting_the_same_name_twice_replaces_rather_than_duplicates() {
    let mut shelf = Shelf::new();
    shelf.put(session("alpha", "m-1"));
    shelf.put(session("alpha", "m-2"));
    let all = shelf.list();
    assert_eq!(all.len(), 1);
    assert_eq!(all[0].machine, MachineRef::new("m-2"));
}

#[test]
fn sessions_are_listed_in_the_order_of_their_names() {
    let mut shelf = Shelf::new();
    for name in ["gamma", "alpha", "beta"] {
        shelf.put(session(name, "m-1"));
    }
    let names: Vec<String> = shelf.list().into_iter().map(|s| s.name).collect();
    assert_eq!(names, vec!["alpha", "beta", "gamma"]);
}

#[test]
fn a_store_from_another_version_is_refused_rather_than_misread() {
    let store = Store::at("/state/sessions.json".to_string());
    let text = Some(r#"{"version":99,"sessions":{}}"#.to_string());
    let e = store.list(&text).err().expect("should refuse");
    assert!(e.message().contains("different version"), "{}", e.message());
}

#[test]
fn a_corrupt_store_is_reported_not_silently_emptied() {
    // Silently treating unreadable state as "no sessions" would strand live
    // machines, which is the one outcome the design must not produce quietly.
    let store = Store::at("/state/sessions.json".to_string());
    let e = store.list(&Some("{ this is not json".to_string())).err().expect("should refuse");
    assert!(e.message().contains("unreadable"), "{}", e.message());
    assert!(store.put(&Some("[]".to_string()), session("alpha", "m-1")).is_err());
}

#[test]
fn writes_replace_the_file_rather_than_editing_it_in_place() {
    // What is written goes beside the store first, under a name that no other
    // process uses; and what is written is whole.
    let mut shelf = Shelf::new();
    shelf.put(session("alpha", "m-1"));
    let temporary = shelf.store.temporary_path(77);
    assert!(temporary.starts_with("/state/"), "{temporary}");
    assert!(temporary.contains("77") && temporary.contains("tmp"), "{temporary}");
    assert_ne!(temporary, shelf.store.path());
    assert!(read_json(shelf.text.as_deref().unwrap()).is_ok());
}

#[test]
fn the_lock_stands_beside_the_store() {
    let store = Store::at("/state/sessions.json".to_string());
    assert_eq!(store.lock_path(), "/state/sessions.lock");
}

#[test]
fn an_unstealable_stale_lock_ends_in_locked_not_a_spin() {
    let store = Store::with_timeouts("/state/sessions.json".to_string(), Duration::from_secs(3));
    assert!(matches!(store.lock(&Attempt::Got, &Duration::from_secs(9)), LockStep::Hold));
    assert!(matches!(store.lock(&Attempt::Busy, &Duration::from_secs(1)), LockStep::Wait));
    match store.lock(&Attempt::Busy, &Duration::from_secs(3)) {
        LockStep::GiveUp(e) => assert!(matches!(e, StoreError::Locked { .. })),
        _ => panic!("wanted to give up"),
    }
    match store.lock(&Attempt::Fault("read-only".to_string()), &Duration::from_secs(0)) {
        LockStep::GiveUp(e) => {
            assert!(matches!(e, StoreError::Io { .. }));
            assert!(e.message().contains("read-only"), "{}", e.message());
        }
        _ => panic!("wanted to give up"),
    }
}

#[test]
fn probing_touches_the_store_only_when_it_is_there() {
    let store = Store::at("/state/sessions.json".to_string());
    match store.probe_writable(true, 9) {
        Probe::Open(p) => assert_eq!(p, "/state/sessions.json"),
        _ => panic!("wanted to open the store"),
    }
    match store.probe_writable(false, 9) {
        Probe::Create { dir, file } => {
            assert_eq!(dir, "/state");
            assert!(file.starts_with("/state/") && file.contains('9'), "{file}");
        }
        _ => panic!("wanted to create a file"),
    }
}

#[test]
fn remaining_time_runs_out_rather_than_going_negative() {
    let s = session("alpha", "m-1");
    assert_eq!(s.remaining(s.created_at), Some(Duration::from_secs(7200)));
    // Past the expiry there is no "negative time left"; there is no time left.
    let past = s.expires_at.checked_add(&Duration::from_secs(1)).unwrap();
    assert_eq!(s.remaining(past), None);
    let later = s.created_at.checked_add(&Duration::from_secs(60)).unwrap();
    assert_eq!(s.age(later), Duration::from_secs(60));
}

#[test]
fn updating_a_session_moves_only_that_session() {
    let mut shelf = Shelf::new();
    shelf.put(session("alpha", "m-1"));
    shelf.put(session("beta", "m-2"));

    // Whole seconds, because that is the granularity the store keeps.
    let later = at(1_800_000_000);
    assert!(shelf.update("alpha", Change::Expiry(later)));

    let a = shelf.get("alpha").unwrap();
    let b = shelf.get("beta").unwrap();
    assert_eq!(a.expires_at, later);
    // The heartbeat renewing one session must not disturb another.
    assert_eq!(b.expires_at, session("beta", "m-2").expires_at);
}

#[test]
fn each_change_changes_what_it_says() {
    let mut shelf = Shelf::new();
    shelf.put(session("alpha", "m-1"));
    assert!(shelf.update("alpha", Change::Renewal(at(1_800_000_000), Duration::from_secs(60))));
    assert!(shelf.update("alpha", Change::Heartbeat(Some(7))));
    assert!(shelf.update("alpha", Change::Synced(at(1_700_000_050))));
    let a = shelf.get("alpha").unwrap();
    assert_eq!(a.expires_at, at(1_800_000_000));
    assert_eq!(a.ttl, Duration::from_secs(60));
    assert_eq!(a.heartbeat_pid, Some(7));
    assert_eq!(a.synced_at, Some(at(1_700_000_050)));
}

#[test]
fn updating_a_session_that_is_not_there_says_so() {
    let mut shelf = Shelf::new();
    assert!(!shelf.update("ghost", Change::Heartbeat(None)));
}

#[test]
fn times_are_kept_to_whole_seconds_on_purpose() {
    // Sub-second precision is dropped deliberately: this file gets read by
    // people during incidents, and a number that can be pasted straight into
    // `date` is worth more than nanoseconds nobody will ever act on.
    let mut shelf = Shelf::new();
    let ragged = SystemTime::new(1_700_000_000, 987_654_321);
    let mut s = session("alpha", "m-1");
    s.expires_at = ragged;
    shelf.put(s);

    let got = shelf.get("alpha").unwrap();
    assert_eq!(got.expires_at, at(1_700_000_000));
    assert!(!ragged.is_before(&got.expires_at), "truncation must never round forward");
}

#[test]
fn an_epoch_that_overflows_systemtime_is_corrupt_not_a_panic() {
    // A number too large for a moment arrives from the same file as anything
    // else unreadable, and must get the same treatment.
    let mut shelf = Shelf::new();
    shelf.put(session("alpha", "m-1"));
    let text = shelf.text.clone().unwrap();
    let sabotaged = text.replace("1700007200", "18446744073709551615");
    assert_ne!(text, sabotaged, "fixture no longer contains the expiry");

    let e = shelf.store.list(&Some(sabotaged)).err().expect("should refuse");
    assert!(matches!(e, StoreError::Corrupt { .. }), "wanted Corrupt, got {}", e.message());
}

#[test]
fn a_pre_epoch_time_is_clamped_to_zero_not_a_panic() {
    let mut shelf = Shelf::new();
    let mut s = session("alpha", "m-1");
    s.created_at = SystemTime::epoch().checked_sub(&Duration::from_secs(10)).unwrap();
    shelf.put(s);
    let got = shelf.get("alpha").expect("still there");
    assert_eq!(got.created_at, SystemTime::epoch(), "clamped, honestly, to the epoch");
}

#[test]
fn the_store_is_where_the_environment_says() {
    let env = Environment {
        home: Some("/home/someone".to_string()),
        reaper_config: None,
        reaper_state: Some("/elsewhere/s.json".to_string()),
        xdg_config_home: None,
        xdg_state_home: None,
    };
    assert_eq!(Store::open(&env).path(), "/elsewhere/s.json");
}
