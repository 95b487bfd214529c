//! Reaching a session, and moving trees in and results out.
use reaper::address::Address;
use reaper::sync::{self, SyncError};
use reaper::time::Duration;
use reaper::transport::{
    wait_with_deadline, Ended, Polled, Ssh, TransportError, WaitStep,
};

fn ssh(address: &str, key: Option<&str>, known_hosts: &str) -> Ssh {
    Ssh::new(
        "ssh".to_string(),
        "root".to_string(),
        Address::parse(address).expect("address"),
        key.map(str::to_string),
        known_hosts.to_string(),
        Duration::from_secs(15),
        Duration::from_secs(120),
    )
}

fn ssh_to(address: &str) -> Ssh {
    ssh(address, None, "/tmp/kh")
}

fn ended(status: i32, stdout: &str, stderr: &str) -> Ended {
    Ended::Ended {
        status: Some(status),
        stdout: stdout.to_string(),
        stderr: stderr.to_string(),
    }
}

#[test]
fn ssh_never_prompts_and_never_shares_a_known_hosts_file() {
    // Both matter for the same reason: this runs unattended against machines
    // that did not exist a minute ago.
    let opts = ssh("192.0.2.7", None, "/state/known-hosts-a-session").options().join(" ");

    assert!(opts.contains("BatchMode=yes"), "{opts}");
    assert!(opts.contains("StrictHostKeyChecking=accept-new"), "{opts}");
    assert!(
        opts.contains("UserKnownHostsFile=/state/known-hosts-a-session"),
        "the known-hosts file must be the per-session one: {opts}"
    );
    assert!(opts.contains("ConnectTimeout=15"), "{opts}");
    assert!(opts.ends_with("192.0.2.7"), "the host comes last: {opts}");
}

#[test]
fn a_configured_key_is_offered_and_it_is_the_only_one() {
    // A workstation with several keys loaded can exhaust the server's auth
    // attempts before reaching the right one.
    let opts = ssh("192.0.2.7", Some("/keys/session"), "/state/kh").options().join(" ");
    assert!(opts.contains("-i /keys/session"), "{opts}");
    assert!(opts.contains("IdentitiesOnly=yes"), "{opts}");
}

#[test]
fn with_no_key_configured_nothing_is_forced() {
    let opts = ssh("192.0.2.7", None, "/state/kh").options().join(" ");
    assert!(!opts.contains("IdentitiesOnly"), "{opts}");
    assert!(!opts.contains("-i "), "{opts}");
}

#[test]
fn put_executable_quotes_the_destination() {
    // The script goes to a remote shell; a destination with a space or a
    // metacharacter must stay a path.
    let command = ssh_to("192.0.2.7").upload_command("/tmp/a b;touch pwned");
    assert_eq!(
        command,
        "cat > '/tmp/a b;touch pwned' && chmod 0755 '/tmp/a b;touch pwned'",
    );
}

#[test]
fn put_executable_survives_a_chatty_child() {
    // However much a child says, ending well is ending well.
    let noise = "x".repeat(1 << 20);
    let s = ssh_to("192.0.2.7");
    assert!(s.put_executable("/tmp/big", &ended(0, "", &noise), &None).is_ok());
}

#[test]
fn a_delivery_that_breaks_says_whose_words_matter() {
    let s = ssh_to("192.0.2.7");
    let e = s
        .put_executable("/tmp/x", &ended(255, "", "connect timed out"), &Some("broken pipe".to_string()))
        .expect_err("it failed");
    assert!(e.message().contains("connect timed out"), "{}", e.message());
    assert!(s.put_executable("/tmp/x", &ended(0, "", ""), &Some("broken pipe".to_string())).is_err());
}

#[test]
fn a_failed_remote_command_reports_what_it_was_doing() {
    let e = ssh_to("192.0.2.7")
        .run("checking the machine answers", &ended(9, "", "the guest said no\n"))
        .expect_err("it failed");
    assert!(matches!(e, TransportError::Failed { status: 9, .. }));
    let msg = e.message();
    assert!(msg.contains("checking the machine answers"), "{msg}");
    assert!(msg.contains("the guest said no"), "{msg}");
}

#[test]
fn a_command_that_cannot_start_or_stalls_is_told_apart() {
    let s = ssh_to("192.0.2.7");
    let e = s.run("looking", &Ended::Unstarted("no such file".to_string())).expect_err("unstarted");
    assert!(matches!(e, TransportError::Spawn { .. }));
    assert!(e.message().contains("no such file"), "{}", e.message());
    let e = s.run("looking", &Ended::Stalled).expect_err("stalled");
    assert!(matches!(e, TransportError::Stalled { .. }));
    assert!(s.run_live("looking", &ended(0, "", "")).is_ok());
    assert!(s.run_live("looking", &ended(1, "", "")).is_err());
    assert_eq!(s.run("looking", &ended(0, "words\n", "")).unwrap(), "words\n");
}

#[test]
fn waiting_ends_at_the_deadline() {
    let limit = Duration::from_secs(10);
    let early = Duration::from_secs(9);
    assert_eq!(wait_with_deadline(&Polled::Running, &early, &limit), WaitStep::Wait);
    assert_eq!(wait_with_deadline(&Polled::Running, &limit, &limit), WaitStep::Kill);
    assert_eq!(wait_with_deadline(&Polled::Exited, &limit, &limit), WaitStep::Collect);
    assert_eq!(wait_with_deadline(&Polled::Fault, &early, &limit), WaitStep::Fail);
}

#[test]
fn the_forward_sync_mirrors_deletions_and_protects_the_results_directory() {
    let plan = sync::push(
        "rsync",
        "/state/rsh",
        &ssh_to("192.0.2.1"),
        "/home/tree",
        "/pool/work/a-project",
        &vec!["/target/".to_string()],
    );

    assert_eq!(plan.program, "rsync");
    assert!(plan.args.contains(&"--delete".to_string()));
    // Anchored. Without the leading slash this would also exclude any nested
    // `out` in the tree.
    assert!(plan.args.contains(&"--exclude=/out/".to_string()));
    assert!(plan.args.contains(&"--exclude=/target/".to_string()));
    assert!(
        !plan.args.iter().any(|a| a == "--delete-excluded"),
        "excluded means protected on the receiver, not destroyed"
    );
    assert!(!plan.args.iter().any(|a| a == "-z"), "no compression on a LAN");

    // Trailing slashes on both ends. Without one on the source, rsync nests the
    // tree one directory deeper on every single sync.
    assert_eq!(plan.args[plan.args.len() - 2], "/home/tree/");
    assert_eq!(plan.args[plan.args.len() - 1], "192.0.2.1:/pool/work/a-project/");
}

#[test]
fn the_results_channel_never_deletes() {
    let plan = sync::pull(
        "rsync",
        "/state/rsh",
        &ssh_to("192.0.2.1"),
        "/pool/work/a-project/out",
        "/home/tree/out",
    );

    assert!(
        !plan.args.iter().any(|a| a.starts_with("--delete")),
        "the guest is authoritative for what it produced, not for what was in \
         the operator's results directory beforehand"
    );
    assert_eq!(plan.args[plan.args.len() - 2], "192.0.2.1:/pool/work/a-project/out/");
    assert_eq!(plan.args[plan.args.len() - 1], "/home/tree/out/");
}

#[test]
fn an_ipv6_session_is_written_the_way_rsync_reads_it() {
    let plan = sync::pull(
        "rsync",
        "/state/rsh",
        &ssh_to("2001:db8::1"),
        "/pool/work/p/out",
        "/tree/out",
    );
    // Unbracketed, the colon before the path is ambiguous with the address's
    // own and rsync reads the wrong thing as the host.
    assert!(
        plan.args[plan.args.len() - 2].starts_with("[2001:db8::1]:"),
        "got {:?}",
        plan.args[plan.args.len() - 2]
    );
}

#[test]
fn the_transport_wrapper_carries_the_same_options_ssh_uses() {
    let s = Ssh::new(
        "/usr/bin/ssh".to_string(),
        "root".to_string(),
        Address::parse("192.0.2.9").unwrap(),
        Some("/keys/session".to_string()),
        "/state/known-hosts".to_string(),
        Duration::from_secs(15),
        Duration::from_secs(120),
    );
    let text = sync::rsh_wrapper(&s, "/state/rsh").expect("wrapper");

    for expected in [
        "BatchMode=yes",
        "StrictHostKeyChecking=accept-new",
        "IdentitiesOnly=yes",
        "known-hosts",
        "/keys/session",
    ] {
        assert!(text.contains(expected), "wrapper is missing {expected}:\n{text}");
    }
    // The address belongs to rsync, which appends it itself. Carrying it here
    // as well would hand ssh two hosts.
    assert!(!text.contains("192.0.2.9"), "the wrapper must not name the host:\n{text}");
    assert!(text.trim_end().ends_with("\"$@\""));
}

#[test]
fn a_wrapper_path_with_whitespace_is_refused_rather_than_mangled() {
    let e = sync::rsh_wrapper(&ssh_to("192.0.2.1"), "/state/rsh space/rsh")
        .expect_err("should refuse");
    assert!(matches!(e, SyncError::UnusablePath { .. }));

    let message = e.message();
    assert!(
        message.contains("whitespace") || message.contains("spaces"),
        "the refusal should say why: {message}"
    );
    // And it must say what to do about it, since the cause is somewhere the
    // operator has never had to think about.
    assert!(message.contains("XDG_STATE_HOME"), "no remedy offered: {message}");
}

#[test]
fn a_failed_sync_surfaces_the_tools_own_stderr() {
    // The reverse channel is how failure traces escape a machine about to be
    // destroyed; when it breaks, the person needs rsync's words, not ours.
    let plan = sync::pull("rsync", "/some/rsh", &ssh_to("192.0.2.7"), "/remote/results", "/local");
    let e = plan
        .run(&ended(23, "", "connection unexpectedly closed\n"))
        .expect_err("it fails");
    let msg = e.message();
    assert!(msg.contains("connection unexpectedly closed"), "{msg}");
    assert!(msg.contains("23"), "{msg}");
    assert!(plan.run(&Ended::Unstarted("not found".to_string())).is_err());
    assert_eq!(plan.run(&ended(0, "sent 3 bytes\n", "")).unwrap(), "sent 3 bytes\n");
}

#[test]
fn deletions_are_counted_by_line() {
    let out = "sending incremental file list\n*deleting   old.txt\n*deleting   dir/\nsrc/main.rs\n";
    assert_eq!(sync::deletions(out), 2);
    assert_eq!(sync::deletions(""), 0);
}

#[test]
fn ends_of_a_transfer_are_slashed_once() {
    assert_eq!(sync::with_slash("/a"), "/a/");
    assert_eq!(sync::with_slash("/a/"), "/a/");
    assert_eq!(sync::results_dir("/tree"), "/tree/out");
}

#[test]
fn the_runner_is_uploaded_executable_and_quoted() {
    assert_eq!(
        ssh_to("192.0.2.7").upload_command("/tmp/reaper-runner.sh"),
        "cat > '/tmp/reaper-runner.sh' && chmod 0755 '/tmp/reaper-runner.sh'"
    );
}
