//! Site configuration: what is accepted, what is refused, what is filled in.
use reaper::config::{self, Config, ConfigError};
use reaper::paths::{config_candidates, expand_tilde, state_file, Environment};
use reaper::time::Duration;

const GOOD: &str = r#"
provider = "someprovider"

[session]
default_ttl        = "2h"
heartbeat_interval = "5m"
ready_grace        = "30m"
max_concurrent     = 3

[guests."some-os-1.0"]
template = "opaque-handle-1"

[guests."other-os-2.0"]
template = "opaque-handle-2"

[someprovider]
endpoint = "https://example.invalid"
anything = ["the core", "never reads this"]
"#;

fn parse(text: &str) -> Result<Config, ConfigError> {
    config::parse(text, "<test>", &Some("/home/someone".to_string()))
}

fn refusal(text: &str) -> String {
    parse(text).err().expect("should be refused").message()
}

fn environment() -> Environment {
    Environment {
        home: Some("/home/someone".to_string()),
        reaper_config: None,
        reaper_state: None,
        xdg_config_home: None,
        xdg_state_home: None,
    }
}

#[test]
fn a_good_configuration_parses() {
    let c = parse(GOOD).ok().expect("should parse");
    assert_eq!(c.provider, "someprovider");
    assert_eq!(c.session.default_ttl, Duration::from_secs(7200));
    assert_eq!(c.session.heartbeat_interval, Duration::from_secs(300));
    assert_eq!(c.session.max_concurrent, 3);
    assert_eq!(c.guest_names(), vec!["other-os-2.0", "some-os-1.0"]);
    assert_eq!(c.template_for("some-os-1.0"), Some("opaque-handle-1"));
}

#[test]
fn an_unregistered_guest_has_no_template() {
    // Callers resolve before touching a provider, so a typo costs nothing.
    let c = parse(GOOD).ok().unwrap();
    assert_eq!(c.template_for("never-registered"), None);
}

#[test]
fn the_provider_table_is_carried_through_uninterpreted() {
    let c = parse(GOOD).ok().unwrap();
    let t = c.provider_table();
    assert!(t.get("endpoint").is_some());
    assert!(t.get("anything").is_some());
}

#[test]
fn session_defaults_apply_when_the_section_is_absent() {
    let text = r#"
provider = "p"
[guests.g]
template = "t"
[p]
"#;
    let c = parse(text).ok().expect("should parse");
    assert_eq!(c.session.default_ttl, Duration::from_secs(2 * 3600));
    assert_eq!(c.session.heartbeat_interval, Duration::from_secs(300));
    assert_eq!(c.session.ready_grace, Duration::from_secs(1800));
    assert_eq!(c.session.max_concurrent, 2);
}

#[test]
fn a_provider_with_no_section_is_refused() {
    let text = r#"
provider = "absent"
[guests.g]
template = "t"
[present]
x = 1
"#;
    let msg = refusal(text);
    assert!(msg.contains("no [absent] section"), "unhelpful message: {msg}");
}

#[test]
fn a_registry_with_no_guests_is_refused() {
    // Not an empty-but-workable configuration: no tenant could run anything.
    let text = r#"
provider = "p"
[p]
"#;
    let msg = refusal(text);
    assert!(msg.contains("no guests"), "{msg}");
}

#[test]
fn a_guest_with_an_empty_template_is_refused() {
    let text = r#"
provider = "p"
[guests.g]
template = "   "
[p]
"#;
    assert!(parse(text).is_err());
}

#[test]
fn a_heartbeat_that_does_not_fit_inside_the_ttl_is_refused() {
    // The margin is the point: at least two renewals must be allowed to fail
    // before a machine is lost.
    for (hb, ttl) in [("1h", "2h"), ("30m", "1h"), ("5m", "10m")] {
        let text = format!(
            r#"
provider = "p"
[session]
default_ttl = "{ttl}"
heartbeat_interval = "{hb}"
[guests.g]
template = "t"
[p]
"#
        );
        let msg = refusal(&text);
        assert!(msg.contains("at least three times"), "{msg}");
    }
}

#[test]
fn a_heartbeat_with_comfortable_margin_is_accepted() {
    let text = r#"
provider = "p"
[session]
default_ttl = "2h"
heartbeat_interval = "10m"
[guests.g]
template = "t"
[p]
"#;
    assert!(parse(text).is_ok());
}

#[test]
fn zero_concurrency_is_refused_rather_than_silently_forbidding_everything() {
    let text = r#"
provider = "p"
[session]
max_concurrent = 0
[guests.g]
template = "t"
[p]
"#;
    assert!(parse(text).is_err());
}

#[test]
fn an_unknown_key_in_a_guest_entry_is_refused() {
    let text = r#"
provider = "p"
[guests.g]
template = "t"
tempalte = "typo"
[p]
"#;
    assert!(parse(text).is_err());
}

#[test]
fn a_missing_configuration_names_where_it_looked() {
    let env = Environment {
        reaper_config: Some("/nonexistent/reaper/config.toml".to_string()),
        ..environment()
    };
    let candidates = config_candidates(&env);
    let present = vec![false; candidates.len()];
    let e = config::select(candidates, &present).expect_err("should not find one");
    assert!(matches!(e, ConfigError::NotFound(_)));
    assert!(e.message().contains("/nonexistent/reaper/config.toml"), "{}", e.message());
}

#[test]
fn the_first_candidate_that_is_there_is_the_one() {
    let candidates = vec!["/a".to_string(), "/b".to_string(), "/c".to_string()];
    let chosen = config::select(candidates, &vec![false, true, true]).unwrap();
    assert_eq!(chosen, "/b");
}

#[test]
fn tilde_expands_only_where_it_means_a_home_directory() {
    let home = Some("/home/someone".to_string());
    assert_eq!(expand_tilde("~", &home), "/home/someone");
    assert_eq!(expand_tilde("~/x/y", &home), "/home/someone/x/y");
    // Another user's home is not something this project resolves, and a
    // directory that happens to be named ~ is just a directory.
    assert_eq!(expand_tilde("~other/x", &home), "~other/x");
    assert_eq!(expand_tilde("a/~/b", &home), "a/~/b");
    assert_eq!(expand_tilde("/abs", &home), "/abs");
}

#[test]
fn an_explicit_config_path_wins_outright() {
    let env = Environment {
        reaper_config: Some("/tmp/explicit.toml".to_string()),
        xdg_config_home: Some("/xdg".to_string()),
        ..environment()
    };
    assert_eq!(config_candidates(&env), vec!["/tmp/explicit.toml"]);
}

#[test]
fn state_file_precedence_is_explicit_then_xdg_then_home() {
    let explicit = Environment {
        reaper_state: Some("/explicit/sessions.json".to_string()),
        xdg_state_home: Some("/xdg-state".to_string()),
        ..environment()
    };
    assert_eq!(
        state_file(&explicit),
        "/explicit/sessions.json",
        "the explicit override outranks everything"
    );

    let xdg = Environment { xdg_state_home: Some("/xdg-state".to_string()), ..environment() };
    assert_eq!(state_file(&xdg), "/xdg-state/reaper/sessions.json", "then the XDG spelling");

    // An EMPTY XDG variable is set-but-meaningless, and must not put state at
    // the filesystem root.
    let empty = Environment { xdg_state_home: Some("".to_string()), ..environment() };
    assert_eq!(
        state_file(&empty),
        "/home/someone/.local/state/reaper/sessions.json",
        "and finally home"
    );
}

#[test]
fn the_default_pool_size_has_bounds_at_both_ends() {
    // A typo asking for tens of thousands of gibibytes should be refused here,
    // not by a storage backend part-way through creating a session.
    for bad in [0, 4097, 999_999] {
        let text = format!(
            "provider = \"p\"\n[session]\ndefault_disk_gb = {bad}\n[guests.g]\ntemplate = \"t\"\n[p]\n"
        );
        assert!(parse(&text).is_err(), "default_disk_gb = {bad} should be refused");
    }
    for good in [1, 64, 4096] {
        let text = format!(
            "provider = \"p\"\n[session]\ndefault_disk_gb = {good}\n[guests.g]\ntemplate = \"t\"\n[p]\n"
        );
        assert!(parse(&text).is_ok(), "default_disk_gb = {good} should be accepted");
    }
}

#[test]
fn the_default_pool_size_defaults() {
    assert_eq!(parse(GOOD).ok().unwrap().session.default_disk_gb, 64);
}

#[test]
fn ssh_defaults_are_sane_and_overridable() {
    let c = parse(GOOD).ok().unwrap();
    assert_eq!(c.session.ssh_user, "root");
    assert_eq!(c.session.ssh_command, "ssh");
    assert_eq!(c.session.ssh_connect_timeout, Duration::from_secs(15));
    assert!(c.session.ssh_key.is_none());

    let text = r#"
provider = "p"
[session]
ssh_user = "someone"
ssh_command = "/usr/local/bin/ssh-wrapper"
ssh_connect_timeout = "5s"
ssh_key = "/keys/k"
[guests.g]
template = "t"
[p]
"#;
    let c = parse(text).ok().unwrap();
    assert_eq!(c.session.ssh_user, "someone");
    assert_eq!(c.session.ssh_command, "/usr/local/bin/ssh-wrapper");
    assert_eq!(c.session.ssh_connect_timeout, Duration::from_secs(5));
    assert_eq!(c.session.ssh_key, Some("/keys/k".to_string()));
}

#[test]
fn a_typoed_session_key_is_refused_not_silently_defaulted() {
    // A misspelt key that quietly gets the default is the worst outcome a
    // config file has: the person believes they set it.
    let text = r#"
provider = "p"
[guests.g]
template = "t"
[session]
default_ttll = "8h"
[p]
"#;
    let msg = refusal(text);
    assert!(msg.contains("default_ttll"), "{msg}");
}

#[test]
fn a_blank_provider_name_is_refused() {
    // With a table whose name matches the blank, so this refusal -- and not
    // the missing-table one -- is the only thing standing.
    let text = "
provider = \"  \"
[guests.g]
template = \"t\"
[\"  \"]
";
    let msg = refusal(text);
    assert!(msg.contains("provider is empty"), "{msg}");
}

#[test]
fn the_ssh_key_expands_its_tilde() {
    let text = r#"
provider = "p"
[guests.g]
template = "t"
[session]
ssh_key = "~/keys/session"
[p]
"#;
    let c = parse(text).ok().expect("should parse");
    assert_eq!(
        c.session.ssh_key.as_deref(),
        Some("/home/someone/keys/session"),
        "a key the ssh binary would look for literally under ./~ is a config bug"
    );
}

#[test]
fn what_is_not_toml_is_a_parse_error() {
    let e = parse("provider = ").err().expect("should be refused");
    assert!(matches!(e, ConfigError::Parse { .. }));
    let e = parse("provider = 3\n").err().expect("should be refused");
    assert!(e.message().contains("<test>"), "{}", e.message());
}

#[test]
fn a_record_of_the_configuration_may_be_a_list() {
    let c = parse(
        "provider = \"p\"\nsession = [\"3h\", \"6m\", \"7m\", 4, 25]\n\
         [guests]\na = [\"opaque\", \"passed over\"]\n[p]\n",
    )
    .ok()
    .expect("parses");
    assert_eq!(c.session.default_ttl, Duration::from_secs(3 * 3600));
    assert_eq!(c.session.heartbeat_interval, Duration::from_secs(360));
    assert_eq!((c.session.max_concurrent, c.session.default_disk_gb), (4, 25));
    assert_eq!(c.template_for("a"), Some("opaque"));
    for bad in [
        "provider = \"p\"\nsession = [\"3h\"]\n[guests.a]\ntemplate = \"t\"\n[p]\n",
        "provider = \"p\"\n[guests]\na = []\n[p]\n",
        "provider = \"p\"\n[guests]\na = [7]\n[p]\n",
    ] {
        assert!(matches!(parse(bad), Err(ConfigError::Parse { .. })), "{bad}");
    }
}
