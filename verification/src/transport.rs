//! Getting commands and files into a session.
//!
//! SSH is the transport, and the runner is invoked rather than resident --
//! there is no daemon in a guest and nothing reaper wrote lives in a template.
//! What is here decides how ssh is called and what a call came to; the calling
//! is somebody else's.
use vstd::prelude::*;
use vstd::string::*;

use crate::address::{address_text, Address};
use crate::decode::{int_text, int_words};
use crate::job::{quote, quote_of};
use crate::paths::maybe;
use crate::scan::{trim, trimmed};
use crate::text::{dec, decimal, texts};
use crate::time::Duration;

verus! {

#[derive(Debug)]
pub enum TransportError<S = String> {
    Spawn { program: S, source: S },
    Failed { what: S, status: i32, stderr: S },
    /// The command stopped making progress and was given up on.
    ///
    /// Deliberately distinct from `Failed`: only one of the two says anything
    /// about the guest. A command that failed was answered; a command that
    /// stalled was not, and the machine at the other end may be perfectly
    /// healthy.
    Stalled { what: S, after: Duration },
}

pub type TransportErrorView = TransportError<Seq<char>>;

/// What a command that failed is reported as, with what it said if it said
/// anything.
pub open spec fn failure_text(what: Seq<char>, status: i32, stderr: Seq<char>) -> Seq<char> {
    let start = what + " failed ("@ + int_text(status as int) + ")"@;
    if trim(stderr).len() == 0 {
        start
    } else {
        start + ": "@ + trim(stderr)
    }
}

pub fn describe_failure(what: &str, status: i32, stderr: &str) -> (r: String)
    ensures
        r@ == failure_text(what@, status, stderr@),
{
    let start = what.to_string().concat(" failed (").concat(
        int_words(status as i128).as_str(),
    ).concat(")");
    let said = trimmed(stderr);
    if said.as_str().is_empty() {
        start
    } else {
        start.concat(": ").concat(said.as_str())
    }
}

pub open spec fn transport_error_text(e: TransportErrorView) -> Seq<char> {
    match e {
        TransportError::Spawn { program, source } => "could not run "@ + program + ": "@ + source,
        TransportError::Failed { what, status, stderr } => failure_text(what, status, stderr),
        TransportError::Stalled { what, after } => what
            + " stopped responding: nothing came back for "@ + dec(
            (after@ / 1_000_000_000) as nat,
        )
            + "s, so reaper gave up on it and closed the connection. This says nothing about whether the command succeeded -- only that this end stopped hearing about it. session.io_timeout is the patience"@,
    }
}

impl TransportError<String> {
    pub open spec fn view(&self) -> TransportErrorView {
        match self {
            TransportError::Spawn { program, source } => TransportError::Spawn {
                program: program@,
                source: source@,
            },
            TransportError::Failed { what, status, stderr } => TransportError::Failed {
                what: what@,
                status: *status,
                stderr: stderr@,
            },
            TransportError::Stalled { what, after } => TransportError::Stalled {
                what: what@,
                after: *after,
            },
        }
    }

    pub fn message(&self) -> (r: String)
        ensures
            r@ == transport_error_text(self@),
    {
        match self {
            TransportError::Spawn { program, source } => "could not run ".to_string().concat(
                program.as_str(),
            ).concat(": ").concat(source.as_str()),
            TransportError::Failed { what, status, stderr } => describe_failure(
                what.as_str(),
                *status,
                stderr.as_str(),
            ),
            TransportError::Stalled { what, after } => what.clone().concat(
                " stopped responding: nothing came back for ",
            ).concat(decimal(after.as_secs()).as_str()).concat(
                "s, so reaper gave up on it and closed the connection. This says nothing about whether the command succeeded -- only that this end stopped hearing about it. session.io_timeout is the patience",
            ),
        }
    }
}

/// How a program that was started came to an end, or did not.
pub enum Ended {
    /// It could not be started, or could not be watched.
    Unstarted(String),
    /// It ended. Without a status it was killed by a signal.
    Ended { status: Option<i32>, stdout: String, stderr: String },
    /// It was given up on.
    Stalled,
}

/// The status that is reported: a program killed by a signal has none.
pub open spec fn reported(status: Option<i32>) -> i32 {
    match status {
        Some(s) => s,
        None => (-1int) as i32,
    }
}

pub struct Ssh {
    pub program: String,
    pub user: String,
    pub address: Address,
    pub key: Option<String>,
    pub known_hosts: String,
    pub connect_timeout: Duration,
    pub io_timeout: Duration,
}

/// A transport, as its texts read.
pub struct SshView {
    pub program: Seq<char>,
    pub user: Seq<char>,
    pub address: Address,
    pub key: Option<Seq<char>>,
    pub known_hosts: Seq<char>,
    pub connect_timeout: Duration,
    pub io_timeout: Duration,
}

/// Whole seconds, cut off.
pub open spec fn secs(d: Duration) -> nat {
    (d@ / 1_000_000_000) as nat
}

pub open spec fn at_least_one(n: nat) -> nat {
    if n < 1 {
        1
    } else {
        n
    }
}

/// The options every invocation carries, without the target.
///
/// `StrictHostKeyChecking=accept-new` because a machine created seconds ago has
/// a host key nothing has ever seen, so strict checking would reject every
/// first connection. Paired with a **per-session** known-hosts file, so a
/// session starts with no history and cannot inherit a stale key from an
/// address that has been recycled.
///
/// `BatchMode` because nothing here can answer a prompt, and a command that
/// blocks forever waiting for one is worse than a command that fails.
///
/// `ConnectTimeout` bounds *establishing* a connection and nothing after it.
/// The `ServerAlive` options bound an established one: four probes at a quarter
/// of the patience each, so the whole budget is the patience however it is set.
pub open spec fn plain_options(ssh: SshView) -> Seq<Seq<char>> {
    seq![
        "-o"@,
        "BatchMode=yes"@,
        "-o"@,
        "StrictHostKeyChecking=accept-new"@,
        "-o"@,
        "UserKnownHostsFile="@ + ssh.known_hosts,
        "-o"@,
        "ConnectTimeout="@ + dec(secs(ssh.connect_timeout)),
        "-o"@,
        "ServerAliveInterval="@ + dec(at_least_one(secs(ssh.io_timeout) / 4)),
        "-o"@,
        "ServerAliveCountMax=4"@,
        "-l"@,
        ssh.user,
    ]
}

/// The key that was given, and only that: without this a workstation with
/// several loaded keys can exhaust the server's attempts before reaching the
/// right one.
pub open spec fn key_options(ssh: SshView) -> Seq<Seq<char>> {
    match ssh.key {
        Some(k) => seq!["-i"@, k, "-o"@, "IdentitiesOnly=yes"@],
        None => Seq::empty(),
    }
}

pub open spec fn shared_options(ssh: SshView) -> Seq<Seq<char>> {
    plain_options(ssh) + key_options(ssh)
}

/// What a path is written with on the other side, and made executable.
pub open spec fn upload(dest: Seq<char>) -> Seq<char> {
    "cat > "@ + quote_of(dest) + " && chmod 0755 "@ + quote_of(dest)
}

pub open spec fn run_view(r: Result<String, TransportError>) -> Result<
    Seq<char>,
    TransportErrorView,
> {
    match r {
        Ok(s) => Ok(s@),
        Err(e) => Err(e@),
    }
}

pub open spec fn unit_view(r: Result<(), TransportError>) -> Result<(), TransportErrorView> {
    match r {
        Ok(_) => Ok(()),
        Err(e) => Err(e@),
    }
}

/// What a command came to: its output, or why there is none. A status other
/// than zero is an error: every caller treats one as fatal, so making them all
/// look would only create places to forget.
pub open spec fn came_to(ssh: SshView, what: Seq<char>, ended: Ended) -> Result<
    Seq<char>,
    TransportErrorView,
> {
    match ended {
        Ended::Unstarted(e) => Err(TransportError::Spawn { program: ssh.program, source: e@ }),
        Ended::Stalled => Err(TransportError::Stalled { what, after: ssh.io_timeout }),
        Ended::Ended { status, stdout, stderr } => if status == Some(0i32) {
            Ok(stdout@)
        } else {
            Err(TransportError::Failed { what, status: reported(status), stderr: stderr@ })
        },
    }
}

/// What writing a file came to, given how the command ended and what writing
/// into it came to. The status is judged first: a write that broke mid-stream
/// usually broke because the remote command died, and the status plus stderr
/// says why.
pub open spec fn wrote(ssh: SshView, dest: Seq<char>, ended: Ended, fault: Option<Seq<char>>) -> Result<
    (),
    TransportErrorView,
> {
    match came_to(ssh, "writing "@ + dest, ended) {
        Err(e) => Err(e),
        Ok(_) => match fault {
            Some(e) => Err(TransportError::Spawn { program: ssh.program, source: e }),
            None => Ok(()),
        },
    }
}

/// What watching a program came upon.
pub enum Polled {
    Exited,
    Running,
    Fault,
}

/// What to do about a program that is being waited for.
#[derive(Debug, Clone, Copy, PartialEq, Eq, Structural)]
pub enum WaitStep {
    /// Take what it left.
    Collect,
    /// Look again in a moment.
    Wait,
    /// Kill it: leaving it would leak a process per stall.
    Kill,
    /// It cannot be watched.
    Fail,
}

/// Wait for a program, but not for ever.
pub fn wait_with_deadline(polled: &Polled, waited: &Duration, within: &Duration) -> (r: WaitStep)
    ensures
        r == (match *polled {
            Polled::Exited => WaitStep::Collect,
            Polled::Fault => WaitStep::Fail,
            Polled::Running => if waited@ >= within@ {
                WaitStep::Kill
            } else {
                WaitStep::Wait
            },
        }),
{
    match polled {
        Polled::Exited => WaitStep::Collect,
        Polled::Fault => WaitStep::Fail,
        Polled::Running => {
            if waited.shorter_than(within) {
                WaitStep::Wait
            } else {
                WaitStep::Kill
            }
        },
    }
}

impl Ssh {
    pub open spec fn view(&self) -> SshView {
        SshView {
            program: self.program@,
            user: self.user@,
            address: self.address,
            key: maybe(self.key),
            known_hosts: self.known_hosts@,
            connect_timeout: self.connect_timeout,
            io_timeout: self.io_timeout,
        }
    }

    /// `known_hosts` should be per-session and disposable.
    pub fn new(
        program: String,
        user: String,
        address: Address,
        key: Option<String>,
        known_hosts: String,
        connect_timeout: Duration,
        io_timeout: Duration,
    ) -> (r: Ssh)
        ensures
            r == (Ssh { program, user, address, key, known_hosts, connect_timeout, io_timeout }),
    {
        Ssh { program, user, address, key, known_hosts, connect_timeout, io_timeout }
    }

    /// How long anything on this transport may go without progress.
    ///
    /// Carried here rather than passed alongside, so that rsync -- which is
    /// handed this same `Ssh` to build its transport from -- cannot end up with
    /// a different patience than ssh has.
    pub fn io_timeout(&self) -> (r: Duration)
        ensures
            r == self.io_timeout,
    {
        self.io_timeout
    }

    /// The options every invocation carries, the target last.
    pub fn options(&self) -> (r: Vec<String>)
        ensures
            texts(r@) == shared_options(self@).push(address_text(self.address)),
    {
        let mut o = self.transport_options();
        let ghost was = o@;
        let target = self.address.text();
        let ghost t = target@;
        o.push(target);
        assert(texts(o@) =~= texts(was).push(t));
        o
    }

    /// The same options, without the target.
    ///
    /// rsync appends the host itself, so it needs the options and not the
    /// destination. Splitting it out here is what stops `ssh` and `rsync`
    /// drifting into connecting two different ways.
    pub fn transport_options(&self) -> (r: Vec<String>)
        ensures
            texts(r@) == shared_options(self@),
    {
        self.connect_timeout.bounds();
        self.io_timeout.bounds();
        let quarter: u64 = self.io_timeout.as_secs() / 4;
        let alive: u64 = if quarter < 1 {
            1
        } else {
            quarter
        };
        let mut o = vec![
            "-o".to_string(),
            "BatchMode=yes".to_string(),
            "-o".to_string(),
            "StrictHostKeyChecking=accept-new".to_string(),
            "-o".to_string(),
            "UserKnownHostsFile=".to_string().concat(self.known_hosts.as_str()),
            "-o".to_string(),
            "ConnectTimeout=".to_string().concat(
                decimal(self.connect_timeout.as_secs()).as_str(),
            ),
            "-o".to_string(),
            "ServerAliveInterval=".to_string().concat(decimal(alive).as_str()),
            "-o".to_string(),
            "ServerAliveCountMax=4".to_string(),
            "-l".to_string(),
            self.user.clone(),
        ];
        assert(texts(o@) =~= plain_options(self@));
        match &self.key {
            Some(k) => {
                let ghost was = o@;
                o.push("-i".to_string());
                o.push(k.clone());
                o.push("-o".to_string());
                o.push("IdentitiesOnly=yes".to_string());
                assert(texts(o@) =~= texts(was) + key_options(self@));
            },
            None => {},
        }
        assert(texts(o@) =~= shared_options(self@));
        o
    }

    pub fn program(&self) -> (r: &str)
        ensures
            r@ == self.program@,
    {
        self.program.as_str()
    }

    /// The host as rsync wants it written. An IPv6 literal needs brackets, or
    /// the colon introducing the path is ambiguous with the address's own.
    pub fn rsync_host(&self) -> (r: String)
        ensures
            r@ == (match self.address {
                Address::V4(_) => address_text(self.address),
                Address::V6(_) => "["@ + address_text(self.address) + "]"@,
            }),
    {
        let t = self.address.text();
        match self.address {
            Address::V4(_) => t,
            Address::V6(_) => "[".to_string().concat(t.as_str()).concat("]"),
        }
    }

    /// Something a person can read in an error message.
    pub fn describe(&self) -> (r: String)
        ensures
            r@ == self.user@ + "@"@ + address_text(self.address),
    {
        self.user.clone().concat("@").concat(self.address.text().as_str())
    }

    /// What is run on the other side to write a file that comes in on its
    /// input. Quoted because this is parsed by the remote shell, and a path
    /// with a space or a metacharacter must stay a path.
    pub fn upload_command(&self, dest: &str) -> (r: String)
        ensures
            r@ == upload(dest@),
    {
        let q = quote(dest);
        "cat > ".to_string().concat(q.as_str()).concat(" && chmod 0755 ").concat(q.as_str())
    }

    /// What a command with its output captured came to.
    pub fn run(&self, what: &str, ended: &Ended) -> (r: Result<String, TransportError>)
        ensures
            run_view(r) == came_to(self@, what@, *ended),
    {
        match ended {
            Ended::Unstarted(e) => Err(
                TransportError::Spawn { program: self.program.clone(), source: e.clone() },
            ),
            Ended::Stalled => Err(
                TransportError::Stalled { what: what.to_string(), after: self.io_timeout },
            ),
            Ended::Ended { status, stdout, stderr } => {
                let code: i32 = match status {
                    Some(s) => *s,
                    None => -1,
                };
                if status.is_some() && code == 0 {
                    Ok(stdout.clone())
                } else {
                    Err(
                        TransportError::Failed {
                            what: what.to_string(),
                            status: code,
                            stderr: stderr.clone(),
                        },
                    )
                }
            },
        }
    }

    /// What a command came to whose output went straight to the terminal.
    pub fn run_live(&self, what: &str, ended: &Ended) -> (r: Result<(), TransportError>)
        ensures
            unit_view(r) == (match came_to(self@, what@, *ended) {
                Ok(_) => Ok(()),
                Err(e) => Err(e),
            }),
    {
        match self.run(what, ended) {
            Ok(_) => Ok(()),
            Err(e) => Err(e),
        }
    }

    /// What writing a file came to.
    pub fn put_executable(&self, dest: &str, ended: &Ended, fault: &Option<String>) -> (r: Result<
        (),
        TransportError,
    >)
        ensures
            unit_view(r) == wrote(self@, dest@, *ended, maybe(*fault)),
    {
        match self.run("writing ".to_string().concat(dest).as_str(), ended) {
            Err(e) => Err(e),
            Ok(_) => match fault {
                Some(e) => Err(
                    TransportError::Spawn { program: self.program.clone(), source: e.clone() },
                ),
                None => Ok(()),
            },
        }
    }
}

/// Nothing here prompts, no two sessions share a known-hosts file unless they
/// were given the same one, and the host comes last.
pub proof fn law_ssh_never_prompts(ssh: SshView)
    ensures
        shared_options(ssh).contains("BatchMode=yes"@),
        shared_options(ssh).contains("StrictHostKeyChecking=accept-new"@),
        shared_options(ssh).contains("UserKnownHostsFile="@ + ssh.known_hosts),
        shared_options(ssh).push(address_text(ssh.address)).last() == address_text(ssh.address),
{
    let o = shared_options(ssh);
    assert(o[1] == "BatchMode=yes"@);
    assert(o[3] == "StrictHostKeyChecking=accept-new"@);
    assert(o[5] == "UserKnownHostsFile="@ + ssh.known_hosts);
}

/// The other shell reads the destination as one word, whatever it holds.
pub proof fn law_an_upload_names_one_file(dest: Seq<char>)
    ensures
        crate::job::shell_reads(quote_of(dest), false) == Some(dest),
        upload(dest) == "cat > "@ + quote_of(dest) + " && chmod 0755 "@ + quote_of(dest),
{
    crate::job::law_quoting_survives_the_shell(dest);
}

}
