//! Getting a working tree in, and results back out.
//!
//! Both directions are rsync over the same SSH transport the rest of reaper
//! uses. The two are deliberately not symmetrical, and the asymmetry is the
//! only interesting thing in this module.
use vstd::prelude::*;
use vstd::string::*;

use crate::address::address_text;
use crate::address::Address;
use crate::job::{quote, quote_of};
use crate::paths::{join, joined};
use crate::scan::{
    has_blank, has_prefix, holds_blank, is_blank, lines, lines_of, starts_with, trim_start,
};
use crate::text::{chars_of, dec, decimal, join as joined_texts, join_text, texts};
use crate::transport::{
    at_least_one, describe_failure, failure_text, reported, secs, shared_options, Ended, Ssh,
    SshView,
};

verus! {

/// The directory results come back on, relative to the synced tree.
///
/// Anchored with a leading slash in the exclude below, so it means the one at
/// the top of the tree and not every `out` anywhere in it. Without that anchor
/// a forward sync would carry `--delete` into the guest's results directory and
/// destroy the run's output on the way past.
pub const RESULTS: &'static str = "out";

#[derive(Debug)]
pub enum SyncError<S = String> {
    Spawn { program: S, source: S },
    Failed { what: S, status: i32, stderr: S },
    /// The transport wrapper's path is unusable.
    UnusablePath { path: S },
}

pub type SyncErrorView = SyncError<Seq<char>>;

pub open spec fn sync_error_text(e: SyncErrorView) -> Seq<char> {
    match e {
        SyncError::Spawn { program, source } => "could not run "@ + program + ": "@ + source,
        SyncError::Failed { what, status, stderr } => failure_text(what, status, stderr),
        SyncError::UnusablePath { path } => "the transport wrapper would live at "@ + path
            + ", and rsync splits its --rsh option on whitespace with no quoting, so a path containing any would be torn into pieces. Point XDG_STATE_HOME at a directory whose path has no spaces in it"@,
    }
}

impl SyncError<String> {
    pub open spec fn view(&self) -> SyncErrorView {
        match self {
            SyncError::Spawn { program, source } => SyncError::Spawn {
                program: program@,
                source: source@,
            },
            SyncError::Failed { what, status, stderr } => SyncError::Failed {
                what: what@,
                status: *status,
                stderr: stderr@,
            },
            SyncError::UnusablePath { path } => SyncError::UnusablePath { path: path@ },
        }
    }

    pub fn message(&self) -> (r: String)
        ensures
            r@ == sync_error_text(self@),
    {
        match self {
            SyncError::Spawn { program, source } => "could not run ".to_string().concat(
                program.as_str(),
            ).concat(": ").concat(source.as_str()),
            SyncError::Failed { what, status, stderr } => describe_failure(
                what.as_str(),
                *status,
                stderr.as_str(),
            ),
            SyncError::UnusablePath { path } => "the transport wrapper would live at ".to_string().concat(
                path.as_str(),
            ).concat(
                ", and rsync splits its --rsh option on whitespace with no quoting, so a path containing any would be torn into pieces. Point XDG_STATE_HOME at a directory whose path has no spaces in it",
            ),
        }
    }
}

/// An rsync invocation, built but not yet run.
///
/// Separating construction from execution is what makes the arguments something
/// that can be stated -- the flags are the whole substance of this module.
#[derive(Debug)]
pub struct Plan {
    pub program: String,
    pub args: Vec<String>,
}

pub open spec fn output_view(r: Result<String, SyncError>) -> Result<Seq<char>, SyncErrorView> {
    match r {
        Ok(s) => Ok(s@),
        Err(e) => Err(e@),
    }
}

/// What an invocation came to. Nothing bounds it from here, so one that was
/// given up on counts as killed.
pub open spec fn came_to(program: Seq<char>, args: Seq<Seq<char>>, ended: Ended) -> Result<
    Seq<char>,
    SyncErrorView,
> {
    let what = program + " "@ + joined_texts(args, " "@);
    match ended {
        Ended::Unstarted(e) => Err(SyncError::Spawn { program, source: e@ }),
        Ended::Stalled => Err(
            SyncError::Failed { what, status: reported(None), stderr: Seq::empty() },
        ),
        Ended::Ended { status, stdout, stderr } => if status == Some(0i32) {
            Ok(stdout@)
        } else {
            Err(SyncError::Failed { what, status: reported(status), stderr: stderr@ })
        },
    }
}

impl Plan {
    pub fn copy(&self) -> (r: Plan)
        ensures
            r.program@ == self.program@,
            texts(r.args@) == texts(self.args@),
    {
        let mut args: Vec<String> = Vec::new();
        let mut i: usize = 0;
        while i < self.args.len()
            invariant
                i <= self.args@.len(),
                args@.len() == i,
                forall|k: int| 0 <= k < i ==> (#[trigger] args@[k])@ == self.args@[k]@,
            decreases self.args@.len() - i,
        {
            args.push(self.args[i].clone());
            i += 1;
        }
        assert(texts(args@) =~= texts(self.args@));
        Plan { program: self.program.clone(), args }
    }

    /// What running this came to.
    pub fn run(&self, ended: &Ended) -> (r: Result<String, SyncError>)
        ensures
            output_view(r) == came_to(self.program@, texts(self.args@), *ended),
    {
        let what = self.program.clone().concat(" ").concat(
            join_text(&self.args, " ").as_str(),
        );
        match ended {
            Ended::Unstarted(e) => Err(
                SyncError::Spawn { program: self.program.clone(), source: e.clone() },
            ),
            Ended::Stalled => {
                let none = String::new();
                assert(none@ =~= Seq::empty());
                Err(SyncError::Failed { what, status: -1, stderr: none })
            },
            Ended::Ended { status, stdout, stderr } => {
                let code: i32 = match status {
                    Some(s) => *s,
                    None => -1,
                };
                if status.is_some() && code == 0 {
                    Ok(stdout.clone())
                } else {
                    Err(SyncError::Failed { what, status: code, stderr: stderr.clone() })
                }
            },
        }
    }
}

// ---------------------------------------------------------------------------
// The script that stands in for ssh
// ---------------------------------------------------------------------------

/// The words, quoted, each after a space.
pub open spec fn quoted_words(words: Seq<Seq<char>>) -> Seq<char>
    decreases words.len(),
{
    if words.len() == 0 {
        Seq::empty()
    } else {
        quoted_words(words.drop_last()) + " "@ + quote_of(words.last())
    }
}

/// The script that rsync uses in place of `ssh`.
///
/// rsync's `--rsh` takes a command *string*, which it splits on whitespace with
/// no quote handling of its own. Anything with a path in it -- a key, a
/// per-session known-hosts file -- is therefore one space away from being torn
/// into pieces. A script sidesteps the whole question: the options live inside
/// it, quoted by us, and rsync sees a single word.
pub open spec fn wrapper(ssh: SshView) -> Seq<char> {
    "#!/bin/sh\n# Written by reaper. rsync splits --rsh on whitespace and does no\n# quoting, so the transport's options live in a script instead.\nexec "@
        + quote_of(ssh.program) + quoted_words(shared_options(ssh)) + " \"$@\"\n"@
}

/// The script to write at a path, unless rsync could not be given that path.
pub fn rsh_wrapper(ssh: &Ssh, at: &str) -> (r: Result<String, SyncError>)
    ensures
        output_view(r) == (if has_blank(at@) {
            Err(SyncErrorView::UnusablePath { path: at@ })
        } else {
            Ok(wrapper(ssh@))
        }),
{
    if holds_blank(at) {
        return Err(SyncError::UnusablePath { path: at.to_string() });
    }
    let mut script = "#!/bin/sh\n# Written by reaper. rsync splits --rsh on whitespace and does no\n# quoting, so the transport's options live in a script instead.\nexec ".to_string().concat(
        quote(ssh.program()).as_str(),
    );
    let ghost start = script@;
    let options = ssh.transport_options();
    let ghost all = texts(options@);
    let mut i: usize = 0;
    assert(script@ =~= start + quoted_words(all.take(0)));
    while i < options.len()
        invariant
            i <= options@.len(),
            all == texts(options@),
            script@ == start + quoted_words(all.take(i as int)),
        decreases options@.len() - i,
    {
        proof {
            assert(all.take(i + 1).drop_last() =~= all.take(i as int));
            assert(all.take(i + 1).last() == options@[i as int]@);
        }
        script = script.concat(" ").concat(quote(options[i].as_str()).as_str());
        assert(script@ =~= start + quoted_words(all.take(i + 1)));
        i += 1;
    }
    assert(all.take(options@.len() as int) =~= all);
    Ok(script.concat(" \"$@\"\n"))
}

// ---------------------------------------------------------------------------
// The two directions
// ---------------------------------------------------------------------------

/// A trailing slash on a source means "the contents of", and on a destination
/// it costs nothing. Getting it wrong on the source nests the tree inside
/// itself one directory deeper on every sync.
pub open spec fn slashed(s: Seq<char>) -> Seq<char> {
    if s.len() > 0 && s.last() == '/' {
        s
    } else {
        s + "/"@
    }
}

pub fn with_slash(s: &str) -> (r: String)
    ensures
        r@ == slashed(s@),
{
    let v = chars_of(s);
    if v.len() > 0 && v[v.len() - 1] == '/' {
        s.to_string()
    } else {
        s.to_string().concat("/")
    }
}

/// The host as rsync wants it written.
pub open spec fn host(ssh: SshView) -> Seq<char> {
    match ssh.address {
        Address::V4(_) => address_text(ssh.address),
        Address::V6(_) => "["@ + address_text(ssh.address) + "]"@,
    }
}

/// rsync's own inactivity timeout, and the only thing that bounds a transfer
/// that wedges with both ends idle while the connection stays up.
pub open spec fn patience(ssh: SshView) -> Seq<char> {
    "--timeout="@ + dec(at_least_one(secs(ssh.io_timeout)))
}

pub open spec fn excluded(patterns: Seq<Seq<char>>) -> Seq<Seq<char>> {
    patterns.map_values(|p: Seq<char>| "--exclude="@ + p)
}

/// What a forward sync is told. Numeric owners are not carried across: the two
/// machines share no user database.
pub open spec fn push_options(ssh: SshView, exclude: Seq<Seq<char>>) -> Seq<Seq<char>> {
    seq![
        "-a"@,
        "--delete"@,
        "--itemize-changes"@,
        patience(ssh),
        "--no-owner"@,
        "--no-group"@,
        "--exclude=/"@ + RESULTS@ + "/"@,
    ] + excluded(exclude)
}

/// What a backward sync is told.
pub open spec fn pull_options(ssh: SshView) -> Seq<Seq<char>> {
    seq!["-a"@, patience(ssh), "--no-owner"@, "--no-group"@]
}

fn wait_option(ssh: &Ssh) -> (r: String)
    ensures
        r@ == patience(ssh@),
{
    let t = ssh.io_timeout();
    t.bounds();
    let n: u64 = t.as_secs();
    let n: u64 = if n < 1 {
        1
    } else {
        n
    };
    "--timeout=".to_string().concat(decimal(n).as_str())
}

/// The working tree, into the session.
///
/// `--delete` mirrors deletions, because a tree that still holds a file the
/// operator removed is not the tree they are testing. The results directory is
/// excluded, and excluded rather than `--delete-excluded`, so the receiver's
/// copy is protected rather than destroyed.
///
/// `.git` is not excluded by default, deliberately: never needing a commit is
/// the point of this whole channel. A tenant who disagrees says so in
/// `sync.exclude`. No `-z`: this is a local network.
pub fn push(
    rsync: &str,
    rsh: &str,
    ssh: &Ssh,
    local: &str,
    remote: &str,
    exclude: &Vec<String>,
) -> (r: Plan)
    ensures
        r.program@ == rsync@,
        texts(r.args@) == push_options(ssh@, texts(exclude@)) + seq![
            "-e"@,
            rsh@,
            slashed(local@),
            host(ssh@) + ":"@ + slashed(remote@),
        ],
{
    let mut args = vec![
        "-a".to_string(),
        "--delete".to_string(),
        // Itemized so that `deletions` can count what went.
        "--itemize-changes".to_string(),
        wait_option(ssh),
        "--no-owner".to_string(),
        "--no-group".to_string(),
        "--exclude=/".to_string().concat(RESULTS).concat("/"),
    ];
    let ghost all = texts(exclude@);
    let ghost first = texts(args@);
    let mut i: usize = 0;
    assert(first =~= push_options(ssh@, Seq::empty())) by {
        assert(excluded(Seq::<Seq<char>>::empty()) =~= Seq::empty());
    }
    assert(texts(args@) =~= first + excluded(all.take(0)));
    while i < exclude.len()
        invariant
            i <= exclude@.len(),
            all == texts(exclude@),
            texts(args@) == first + excluded(all.take(i as int)),
        decreases exclude@.len() - i,
    {
        let arg = "--exclude=".to_string().concat(exclude[i].as_str());
        let ghost was = args@;
        args.push(arg);
        proof {
            assert(texts(args@) =~= texts(was).push(arg@));
            assert(all.take(i + 1) =~= all.take(i as int).push(all[i as int]));
            assert(excluded(all.take(i + 1)) =~= excluded(all.take(i as int)).push(arg@));
            assert(texts(args@) =~= first + excluded(all.take(i + 1)));
        }
        i += 1;
    }
    assert(all.take(exclude@.len() as int) =~= all);
    assert(texts(args@) =~= push_options(ssh@, all));
    let ghost options = args@;
    args.push("-e".to_string());
    args.push(rsh.to_string());
    args.push(with_slash(local));
    args.push(ssh.rsync_host().concat(":").concat(with_slash(remote).as_str()));
    assert(texts(args@) =~= texts(options) + seq![
        "-e"@,
        rsh@,
        slashed(local@),
        host(ssh@) + ":"@ + slashed(remote@),
    ]);
    Plan { program: rsync.to_string(), args }
}

/// Results, back out.
///
/// **No `--delete`**, and this is a decision rather than an omission. The guest
/// is authoritative for what it produced; it is not authoritative for what was
/// in the operator's results directory beforehand.
pub fn pull(rsync: &str, rsh: &str, ssh: &Ssh, remote: &str, local: &str) -> (r: Plan)
    ensures
        r.program@ == rsync@,
        texts(r.args@) == pull_options(ssh@) + seq![
            "-e"@,
            rsh@,
            host(ssh@) + ":"@ + slashed(remote@),
            slashed(local@),
        ],
{
    let args = vec![
        "-a".to_string(),
        wait_option(ssh),
        "--no-owner".to_string(),
        "--no-group".to_string(),
        "-e".to_string(),
        rsh.to_string(),
        ssh.rsync_host().concat(":").concat(with_slash(remote).as_str()),
        with_slash(local),
    ];
    assert(texts(args@) =~= pull_options(ssh@) + seq![
        "-e"@,
        rsh@,
        host(ssh@) + ":"@ + slashed(remote@),
        slashed(local@),
    ]);
    Plan { program: rsync.to_string(), args }
}

/// A line that reports a removal.
pub open spec fn is_removal(line: Seq<char>) -> bool {
    starts_with(trim_start(line), "*deleting"@)
}

pub open spec fn removals(l: Seq<Seq<char>>) -> nat
    decreases l.len(),
{
    if l.len() == 0 {
        0
    } else {
        removals(l.drop_last()) + if is_removal(l.last()) {
            1nat
        } else {
            0
        }
    }
}

fn reports_removal(line: &str) -> (r: bool)
    ensures
        r == is_removal(line@),
{
    let v = chars_of(line);
    let mut i: usize = 0;
    assert(v@.skip(0) =~= v@);
    while i < v.len() && is_blank(v[i])
        invariant
            i <= v@.len(),
            trim_start(v@) == trim_start(v@.skip(i as int)),
        decreases v@.len() - i,
    {
        assert(v@.skip(i as int)[0] == v@[i as int]);
        assert(v@.skip(i as int).skip(1) =~= v@.skip(i + 1));
        i += 1;
    }
    let rest = crate::text::part(&v, i, v.len());
    assert(rest@ =~= v@.skip(i as int));
    has_prefix(crate::text::text_of(&rest).as_str(), "*deleting")
}

/// How many paths a forward sync removed from the receiver.
///
/// Read from rsync's own itemized output, because the question this answers is
/// precisely "did `--delete` reach that path?". rsync writes one
/// `*deleting   <path>` line per removal; directories and files both count.
pub fn deletions(output: &str) -> (r: usize)
    ensures
        r == removals(lines(output@)),
{
    let l = lines_of(output);
    let ghost all = texts(l@);
    let mut n: usize = 0;
    let mut i: usize = 0;
    while i < l.len()
        invariant
            i <= l@.len(),
            n <= i,
            all == texts(l@),
            n == removals(all.take(i as int)),
        decreases l@.len() - i,
    {
        assert(all.take(i + 1).drop_last() =~= all.take(i as int));
        assert(all.take(i + 1).last() == l@[i as int]@);
        if reports_removal(l[i].as_str()) {
            n += 1;
        }
        i += 1;
    }
    assert(all.take(l@.len() as int) =~= all);
    n
}

/// The workstation's results directory.
pub fn results_dir(tree: &str) -> (r: String)
    ensures
        r@ == joined(tree@, RESULTS@),
{
    join(tree, RESULTS)
}

// ---------------------------------------------------------------------------
// What the two directions promise
// ---------------------------------------------------------------------------

/// A forward sync mirrors deletions and protects the results directory at the
/// top of the tree, whatever else the tenant keeps out: what is excluded is
/// never destroyed on the receiver.
pub proof fn law_a_push_protects_the_results(ssh: SshView, exclude: Seq<Seq<char>>)
    ensures
        push_options(ssh, exclude).contains("--delete"@),
        push_options(ssh, exclude).contains("--exclude=/out/"@),
        !push_options(ssh, exclude).contains("--delete-excluded"@),
        !push_options(ssh, exclude).contains("-z"@),
        forall|i: int|
            0 <= i < exclude.len() ==> push_options(ssh, exclude).contains(
                "--exclude="@ + #[trigger] exclude[i],
            ),
{
    let o = push_options(ssh, exclude);
    reveal_strlit("--exclude=/");
    reveal_strlit("out");
    reveal_strlit("/");
    reveal_strlit("--exclude=/out/");
    assert("--exclude=/"@ + "out"@ + "/"@ =~= "--exclude=/out/"@);
    assert(o[1] == "--delete"@);
    assert(o[6] == "--exclude=/out/"@);
    assert forall|i: int| 0 <= i < exclude.len() implies o.contains(
        "--exclude="@ + #[trigger] exclude[i],
    ) by {
        assert(o[7 + i] == "--exclude="@ + exclude[i]);
    }
    reveal_strlit("-a");
    reveal_strlit("--delete");
    reveal_strlit("--delete-excluded");
    reveal_strlit("--itemize-changes");
    reveal_strlit("--timeout=");
    reveal_strlit("--no-owner");
    reveal_strlit("--no-group");
    reveal_strlit("--exclude=");
    reveal_strlit("-z");
    assert forall|i: int| 0 <= i < o.len() implies o[i] != "--delete-excluded"@ && o[i]
        != "-z"@ by {
        if i >= 7 {
            assert(o[i] == "--exclude="@ + exclude[i - 7]);
            assert(o[i][2] == 'e');
        } else if i == 3 {
            assert(o[i][2] == 't');
        } else if i == 6 {
            assert(o[i][2] == 'e');
        } else if i == 0 {
            assert(o[i][1] == 'a');
        } else if i == 1 {
            assert(o[i].len() == 8);
        } else if i == 2 {
            assert(o[i][2] == 'i');
        } else {
            assert(o[i][2] == 'n');
        }
        assert("--delete-excluded"@[2] == 'd' && "--delete-excluded"@.len() == 17);
        assert("-z"@[1] == 'z' && "-z"@.len() == 2);
    }
}

/// The results channel never deletes: none of its options does.
pub proof fn law_a_pull_never_deletes(ssh: SshView)
    ensures
        forall|i: int|
            0 <= i < pull_options(ssh).len() ==> !starts_with(
                #[trigger] pull_options(ssh)[i],
                "--delete"@,
            ),
{
    let o = pull_options(ssh);
    reveal_strlit("-a");
    reveal_strlit("--delete");
    reveal_strlit("--timeout=");
    reveal_strlit("--no-owner");
    reveal_strlit("--no-group");
    assert("--delete"@[2] == 'd' && "--delete"@.len() == 8);
    assert forall|i: int| 0 <= i < o.len() implies !starts_with(#[trigger] o[i], "--delete"@) by {
        if i == 0 {
            assert(o[i].len() == 2);
        } else if i == 1 {
            assert(o[i][2] == 't');
        } else {
            assert(o[i][2] == 'n');
        }
        if starts_with(o[i], "--delete"@) {
            assert(o[i].take(8)[2] == 'd');
        }
    }
}

/// The two ends are named with a slash at the end, so that a tree is never
/// nested inside itself.
pub proof fn law_ends_are_slashed(s: Seq<char>)
    ensures
        slashed(s).len() > 0,
        slashed(s).last() == '/',
        slashed(slashed(s)) == slashed(s),
{
    reveal_strlit("/");
}

}
