//! What a verb asks for, and what it is told.
//!
//! A verb is a conversation: it asks for one deed after another, and what it
//! asks for next depends on what came of the deeds before. Here a verb is a
//! function of the replies so far. It says either what to do next, with what to
//! print before doing it, or how it ended.
use vstd::prelude::*;
use vstd::string::*;

use crate::address::Address;
use crate::provider::{Finding, MachineRef, MachineSummary};
use crate::session::{Session, SessionView};
use crate::text::texts;
use crate::time::{Duration, SystemTime};

verus! {

/// A line for the operator.
#[derive(Debug)]
pub struct Line {
    /// On the error stream, rather than among the output.
    pub err: bool,
    pub text: String,
}

/// Lines as they read, each with whether it goes to the error stream.
pub type Said = Seq<(bool, Seq<char>)>;

pub open spec fn lines(v: Seq<Line>) -> Said {
    v.map_values(|l: Line| (l.err, l.text@))
}

/// Something to do. `S` is a text, `L` a list of texts, `N` a session, `T` a
/// moment and `D` a span.
pub enum Deed<S = String, L = Vec<String>, N = Session, T = SystemTime, D = Duration> {
    /// Make the provider ready to be asked.
    Provider,
    /// Learn whether the session store can be written.
    ProbeStore,
    Get(S),
    List,
    Put(N),
    Remove(S),
    /// Move a session's expiry in the store.
    RecordExpiry(S, T),
    RecordRenewal(S, T, D),
    RecordHeartbeat(S, Option<u32>),
    RecordSync(S, T),
    /// List the machines that the provider has.
    Machines,
    Create {
        name: S,
        template: S,
        cores: Option<u16>,
        ram_gb: Option<u16>,
        disk_gb: Option<u32>,
        expires_at: T,
    },
    Start(S),
    SetExpiry(S, T),
    Destroy(S),
    AddressOf(S),
    /// Have the provider judge the site.
    Diagnose,
    /// Is a process alive?
    Alive(u32),
    StartHeartbeat(S),
    /// Is a process the heartbeat that was recorded?
    IsHeartbeat(u32),
    /// Ask a process to stop, and confirm that it did.
    StopProcess(u32),
    /// Forget the host keys of a session's machine.
    ForgetHosts(S),
    /// Remove what a session left on the workstation.
    ForgetFiles(S),
    /// Run a command in a session, with its output captured.
    Run { session: S, address: Address, command: S, what: S },
    /// Run a command in a session, with its output going to the terminal.
    RunLive { session: S, address: Address, command: S, what: S },
    /// As `RunLive`, with an rsync invocation run again and again meanwhile.
    RunCollecting { session: S, address: Address, command: S, what: S, program: S, args: L },
    /// Deliver the runner.
    UploadRunner { session: S, address: Address },
    /// Deliver a job script.
    UploadJob { session: S, address: Address, script: S },
    /// Write a script and make it executable.
    WriteScript { path: S, script: S },
    MakeDir(S),
    /// Run a program, with its output captured.
    Execute { program: S, args: L },
    /// Empty the results directory of a tree.
    ClearResults(S),
    /// Find a command, as a path or on the search path.
    Find(S),
}

pub type DeedView = Deed<Seq<char>, Seq<Seq<char>>, SessionView, int, int>;

impl Deed<String, Vec<String>, Session, SystemTime, Duration> {
    pub open spec fn view(&self) -> DeedView {
        match self {
            Deed::Provider => Deed::Provider,
            Deed::ProbeStore => Deed::ProbeStore,
            Deed::Get(n) => Deed::Get(n@),
            Deed::List => Deed::List,
            Deed::Put(s) => Deed::Put(s@),
            Deed::Remove(n) => Deed::Remove(n@),
            Deed::RecordExpiry(n, t) => Deed::RecordExpiry(n@, t@),
            Deed::RecordRenewal(n, t, d) => Deed::RecordRenewal(n@, t@, d@),
            Deed::RecordHeartbeat(n, p) => Deed::RecordHeartbeat(n@, *p),
            Deed::RecordSync(n, t) => Deed::RecordSync(n@, t@),
            Deed::Machines => Deed::Machines,
            Deed::Create { name, template, cores, ram_gb, disk_gb, expires_at } => Deed::Create {
                name: name@,
                template: template@,
                cores: *cores,
                ram_gb: *ram_gb,
                disk_gb: *disk_gb,
                expires_at: expires_at@,
            },
            Deed::Start(m) => Deed::Start(m@),
            Deed::SetExpiry(m, t) => Deed::SetExpiry(m@, t@),
            Deed::Destroy(m) => Deed::Destroy(m@),
            Deed::AddressOf(m) => Deed::AddressOf(m@),
            Deed::Diagnose => Deed::Diagnose,
            Deed::Alive(p) => Deed::Alive(*p),
            Deed::StartHeartbeat(n) => Deed::StartHeartbeat(n@),
            Deed::IsHeartbeat(p) => Deed::IsHeartbeat(*p),
            Deed::StopProcess(p) => Deed::StopProcess(*p),
            Deed::ForgetHosts(n) => Deed::ForgetHosts(n@),
            Deed::ForgetFiles(n) => Deed::ForgetFiles(n@),
            Deed::Run { session, address, command, what } => Deed::Run {
                session: session@,
                address: *address,
                command: command@,
                what: what@,
            },
            Deed::RunLive { session, address, command, what } => Deed::RunLive {
                session: session@,
                address: *address,
                command: command@,
                what: what@,
            },
            Deed::RunCollecting { session, address, command, what, program, args } =>
            Deed::RunCollecting {
                session: session@,
                address: *address,
                command: command@,
                what: what@,
                program: program@,
                args: texts(args@),
            },
            Deed::UploadRunner { session, address } => Deed::UploadRunner {
                session: session@,
                address: *address,
            },
            Deed::UploadJob { session, address, script } => Deed::UploadJob {
                session: session@,
                address: *address,
                script: script@,
            },
            Deed::WriteScript { path, script } => Deed::WriteScript {
                path: path@,
                script: script@,
            },
            Deed::MakeDir(p) => Deed::MakeDir(p@),
            Deed::Execute { program, args } => Deed::Execute {
                program: program@,
                args: texts(args@),
            },
            Deed::ClearResults(t) => Deed::ClearResults(t@),
            Deed::Find(c) => Deed::Find(c@),
        }
    }
}

/// What a deed came to.
pub enum Event {
    Done,
    Failed(String),
    /// The provider does not have that machine.
    Gone(String),
    Text(String),
    Flag(bool),
    Machines(Vec<MachineSummary>),
    Found(Option<Session>),
    Sessions(Vec<Session>),
    Pid(Option<u32>),
    Machine(MachineRef),
    Address(Option<Address>),
    Verdict(Option<bool>),
    Count(usize),
    Findings(Vec<Finding>),
}

/// What a deed came to, and when.
pub struct Reply {
    pub event: Event,
    pub at: SystemTime,
    /// How long the conversation had lasted, by a clock that nobody sets.
    pub since: Duration,
}

/// The next thing to do.
pub struct Ask {
    /// What to print first.
    pub say: Vec<Line>,
    /// How many seconds to wait first.
    pub pause: u64,
    pub deed: Deed,
}

pub struct AskView {
    pub say: Said,
    pub pause: u64,
    pub deed: DeedView,
}

impl Ask {
    pub open spec fn view(&self) -> AskView {
        AskView { say: lines(self.say@), pause: self.pause, deed: self.deed@ }
    }
}

/// How far a conversation has got: what to do next; or how it ended, how many
/// replies it took, and what is to be printed that has not been yet.
pub enum Talk<T> {
    Ask(Ask),
    Done(T, usize, Vec<Line>),
}

pub enum TalkView<T> {
    Ask(AskView),
    Done(T, int, Said),
}

pub type Outcome = Result<(), Seq<char>>;

pub open spec fn outcome(r: Result<(), String>) -> Outcome {
    match r {
        Ok(_) => Ok(()),
        Err(e) => Err(e@),
    }
}

pub open spec fn unit_talk(t: Talk<Result<(), String>>) -> TalkView<Outcome> {
    match t {
        Talk::Ask(a) => TalkView::Ask(a@),
        Talk::Done(v, n, s) => TalkView::Done(outcome(v), n as int, lines(s@)),
    }
}

pub open spec fn text_outcome(r: Result<String, String>) -> Result<Seq<char>, Seq<char>> {
    match r {
        Ok(t) => Ok(t@),
        Err(e) => Err(e@),
    }
}

pub open spec fn text_talk(t: Talk<Result<String, String>>) -> TalkView<
    Result<Seq<char>, Seq<char>>,
> {
    match t {
        Talk::Ask(a) => TalkView::Ask(a@),
        Talk::Done(v, n, s) => TalkView::Done(text_outcome(v), n as int, lines(s@)),
    }
}

/// A conversation whose outcome is a plain value.
pub open spec fn plain_talk<T>(t: Talk<T>) -> TalkView<T> {
    match t {
        Talk::Ask(a) => TalkView::Ask(a@),
        Talk::Done(v, n, s) => TalkView::Done(v, n as int, lines(s@)),
    }
}

/// A conversation whose outcome is a value or the reason there is none.
pub open spec fn value_talk<T>(t: Talk<Result<T, String>>) -> TalkView<Result<T, Seq<char>>> {
    match t {
        Talk::Ask(a) => TalkView::Ask(a@),
        Talk::Done(v, n, s) => TalkView::Done(
            match v {
                Ok(x) => Ok(x),
                Err(e) => Err(e@),
            },
            n as int,
            lines(s@),
        ),
    }
}

pub open spec fn ref_talk<T>(t: Talk<Result<&T, String>>) -> TalkView<Result<T, Seq<char>>> {
    match t {
        Talk::Ask(a) => TalkView::Ask(a@),
        Talk::Done(v, n, s) => TalkView::Done(
            match v {
                Ok(x) => Ok(*x),
                Err(e) => Err(e@),
            },
            n as int,
            lines(s@),
        ),
    }
}

/// A conversation has taken no more replies than there are.
pub open spec fn within<T>(t: Talk<T>, from: usize, r: Seq<Reply>) -> bool {
    t matches Talk::Done(_, n, _) ==> from <= n <= r.len()
}

/// When the reply before came in; a conversation starts at `start`.
pub open spec fn reached(r: Seq<Reply>, i: int, start: SystemTime) -> SystemTime {
    if 0 < i <= r.len() {
        r[i - 1].at
    } else {
        start
    }
}

pub fn now(r: &Vec<Reply>, i: usize, start: &SystemTime) -> (t: SystemTime)
    requires
        i <= r@.len(),
    ensures
        t == reached(r@, i as int, *start),
{
    if i > 0 {
        r[i - 1].at
    } else {
        *start
    }
}

/// How long the conversation had lasted when the reply before came in, in
/// nanoseconds.
pub open spec fn lasted(r: Seq<Reply>, i: int) -> int {
    if 0 < i <= r.len() {
        r[i - 1].since@
    } else {
        0
    }
}

pub fn so_far(r: &Vec<Reply>, i: usize) -> (d: Duration)
    requires
        i <= r@.len(),
    ensures
        d@ == lasted(r@, i as int),
{
    if i > 0 {
        r[i - 1].since
    } else {
        Duration::from_secs(0)
    }
}

pub open spec fn ask(say: Said, pause: u64, deed: DeedView) -> AskView {
    AskView { say, pause, deed }
}

fn asking(say: Vec<Line>, pause: u64, deed: Deed) -> (r: Ask)
    ensures
        r@ == ask(lines(say@), pause, deed@),
{
    Ask { say, pause, deed }
}

fn quiet() -> (r: Vec<Line>)
    ensures
        lines(r@) == Seq::<(bool, Seq<char>)>::empty(),
{
    let v: Vec<Line> = Vec::new();
    assert(lines(v@) =~= Seq::empty());
    v
}

pub fn silence() -> (r: Vec<Line>)
    ensures
        lines(r@) == Seq::<(bool, Seq<char>)>::empty(),
{
    quiet()
}

/// One more line among the output.
pub fn say(said: Vec<Line>, text: String) -> (r: Vec<Line>)
    ensures
        lines(r@) == lines(said@).push((false, text@)),
{
    let mut out = said;
    let ghost t = text@;
    out.push(Line { err: false, text });
    assert(lines(out@) =~= lines(said@).push((false, t)));
    out
}

/// One more line on the error stream.
pub fn warn(said: Vec<Line>, text: String) -> (r: Vec<Line>)
    ensures
        lines(r@) == lines(said@).push((true, text@)),
{
    let mut out = said;
    let ghost t = text@;
    out.push(Line { err: true, text });
    assert(lines(out@) =~= lines(said@).push((true, t)));
    out
}

// ---------------------------------------------------------------------------
// Asking
//
// A reply of another kind than the deed calls for is no answer to it.
// ---------------------------------------------------------------------------

/// Whether a deed was done, or why not.
pub open spec fn unit_of(e: Event) -> Option<Outcome> {
    match e {
        Event::Done => Some(Ok(())),
        Event::Failed(m) => Some(Err(m@)),
        Event::Gone(m) => Some(Err(m@)),
        _ => None,
    }
}

pub open spec fn done(r: Seq<Reply>, i: int, a: AskView) -> TalkView<Outcome> {
    if i < r.len() && unit_of(r[i].event) is Some {
        TalkView::Done(unit_of(r[i].event)->0, i + 1, Seq::empty())
    } else {
        TalkView::Ask(a)
    }
}

pub fn ask_done(r: &Vec<Reply>, i: usize, said: Vec<Line>, pause: u64, deed: Deed) -> (t: Talk<
    Result<(), String>,
>)
    requires
        i <= r@.len(),
    ensures
        unit_talk(t) == done(r@, i as int, ask(lines(said@), pause, deed@)),
        within(t, i, r@),
{
    if i < r.len() {
        match &r[i].event {
            Event::Done => {
                return Talk::Done(Ok(()), i + 1, quiet());
            },
            Event::Failed(m) => {
                return Talk::Done(Err(m.clone()), i + 1, quiet());
            },
            Event::Gone(m) => {
                return Talk::Done(Err(m.clone()), i + 1, quiet());
            },
            _ => {},
        }
    }
    Talk::Ask(asking(said, pause, deed))
}

/// What became of a deed on a machine that may be gone.
pub enum Fate<S = String> {
    Well,
    Gone(S),
    Failed(S),
}

pub open spec fn fate_view(f: Fate) -> Fate<Seq<char>> {
    match f {
        Fate::Well => Fate::Well,
        Fate::Gone(m) => Fate::Gone(m@),
        Fate::Failed(m) => Fate::Failed(m@),
    }
}

pub open spec fn fate_of(e: Event) -> Option<Fate<Seq<char>>> {
    match e {
        Event::Done => Some(Fate::Well),
        Event::Failed(m) => Some(Fate::Failed(m@)),
        Event::Gone(m) => Some(Fate::Gone(m@)),
        _ => None,
    }
}

pub open spec fn fate_talk(t: Talk<Fate>) -> TalkView<Fate<Seq<char>>> {
    match t {
        Talk::Ask(a) => TalkView::Ask(a@),
        Talk::Done(v, n, s) => TalkView::Done(fate_view(v), n as int, lines(s@)),
    }
}

pub open spec fn fared(r: Seq<Reply>, i: int, a: AskView) -> TalkView<Fate<Seq<char>>> {
    if i < r.len() && fate_of(r[i].event) is Some {
        TalkView::Done(fate_of(r[i].event)->0, i + 1, Seq::empty())
    } else {
        TalkView::Ask(a)
    }
}

pub fn ask_fate(r: &Vec<Reply>, i: usize, said: Vec<Line>, pause: u64, deed: Deed) -> (t: Talk<
    Fate,
>)
    requires
        i <= r@.len(),
    ensures
        fate_talk(t) == fared(r@, i as int, ask(lines(said@), pause, deed@)),
        within(t, i, r@),
{
    if i < r.len() {
        match &r[i].event {
            Event::Done => {
                return Talk::Done(Fate::Well, i + 1, quiet());
            },
            Event::Failed(m) => {
                return Talk::Done(Fate::Failed(m.clone()), i + 1, quiet());
            },
            Event::Gone(m) => {
                return Talk::Done(Fate::Gone(m.clone()), i + 1, quiet());
            },
            _ => {},
        }
    }
    Talk::Ask(asking(said, pause, deed))
}

pub open spec fn text_of(e: Event) -> Option<Result<Seq<char>, Seq<char>>> {
    match e {
        Event::Text(t) => Some(Ok(t@)),
        Event::Failed(m) => Some(Err(m@)),
        _ => None,
    }
}

pub open spec fn told(r: Seq<Reply>, i: int, a: AskView) -> TalkView<
    Result<Seq<char>, Seq<char>>,
> {
    if i < r.len() && text_of(r[i].event) is Some {
        TalkView::Done(text_of(r[i].event)->0, i + 1, Seq::empty())
    } else {
        TalkView::Ask(a)
    }
}

pub fn ask_text(r: &Vec<Reply>, i: usize, said: Vec<Line>, pause: u64, deed: Deed) -> (t: Talk<
    Result<String, String>,
>)
    requires
        i <= r@.len(),
    ensures
        text_talk(t) == told(r@, i as int, ask(lines(said@), pause, deed@)),
        within(t, i, r@),
{
    if i < r.len() {
        match &r[i].event {
            Event::Text(x) => {
                return Talk::Done(Ok(x.clone()), i + 1, quiet());
            },
            Event::Failed(m) => {
                return Talk::Done(Err(m.clone()), i + 1, quiet());
            },
            _ => {},
        }
    }
    Talk::Ask(asking(said, pause, deed))
}

pub open spec fn flagged(r: Seq<Reply>, i: int, a: AskView) -> TalkView<bool> {
    if i < r.len() && r[i].event is Flag {
        TalkView::Done(r[i].event->Flag_0, i + 1, Seq::empty())
    } else {
        TalkView::Ask(a)
    }
}

pub fn ask_flag(r: &Vec<Reply>, i: usize, said: Vec<Line>, pause: u64, deed: Deed) -> (t: Talk<
    bool,
>)
    requires
        i <= r@.len(),
    ensures
        plain_talk(t) == flagged(r@, i as int, ask(lines(said@), pause, deed@)),
        within(t, i, r@),
{
    if i < r.len() {
        match &r[i].event {
            Event::Flag(b) => {
                return Talk::Done(*b, i + 1, quiet());
            },
            _ => {},
        }
    }
    Talk::Ask(asking(said, pause, deed))
}

pub open spec fn judged(r: Seq<Reply>, i: int, a: AskView) -> TalkView<Option<bool>> {
    if i < r.len() && r[i].event is Verdict {
        TalkView::Done(r[i].event->Verdict_0, i + 1, Seq::empty())
    } else {
        TalkView::Ask(a)
    }
}

pub fn ask_verdict(r: &Vec<Reply>, i: usize, said: Vec<Line>, pause: u64, deed: Deed) -> (t: Talk<
    Option<bool>,
>)
    requires
        i <= r@.len(),
    ensures
        plain_talk(t) == judged(r@, i as int, ask(lines(said@), pause, deed@)),
        within(t, i, r@),
{
    if i < r.len() {
        match &r[i].event {
            Event::Verdict(v) => {
                return Talk::Done(*v, i + 1, quiet());
            },
            _ => {},
        }
    }
    Talk::Ask(asking(said, pause, deed))
}

pub open spec fn machines_of(e: Event) -> Option<Result<Vec<MachineSummary>, Seq<char>>> {
    match e {
        Event::Machines(v) => Some(Ok(v)),
        Event::Failed(m) => Some(Err(m@)),
        _ => None,
    }
}

pub open spec fn machines(r: Seq<Reply>, i: int, a: AskView) -> TalkView<
    Result<Vec<MachineSummary>, Seq<char>>,
> {
    if i < r.len() && machines_of(r[i].event) is Some {
        TalkView::Done(machines_of(r[i].event)->0, i + 1, Seq::empty())
    } else {
        TalkView::Ask(a)
    }
}

pub fn ask_machines(r: &Vec<Reply>, i: usize, said: Vec<Line>, pause: u64) -> (t: Talk<
    Result<&Vec<MachineSummary>, String>,
>)
    requires
        i <= r@.len(),
    ensures
        ref_talk(t) == machines(r@, i as int, ask(lines(said@), pause, Deed::Machines)),
        within(t, i, r@),
{
    if i < r.len() {
        match &r[i].event {
            Event::Machines(v) => {
                return Talk::Done(Ok(v), i + 1, quiet());
            },
            Event::Failed(m) => {
                return Talk::Done(Err(m.clone()), i + 1, quiet());
            },
            _ => {},
        }
    }
    Talk::Ask(asking(said, pause, Deed::Machines))
}

pub open spec fn found_of(e: Event) -> Option<Result<Option<Session>, Seq<char>>> {
    match e {
        Event::Found(s) => Some(Ok(s)),
        Event::Failed(m) => Some(Err(m@)),
        _ => None,
    }
}

pub open spec fn found(r: Seq<Reply>, i: int, a: AskView) -> TalkView<
    Result<Option<Session>, Seq<char>>,
> {
    if i < r.len() && found_of(r[i].event) is Some {
        TalkView::Done(found_of(r[i].event)->0, i + 1, Seq::empty())
    } else {
        TalkView::Ask(a)
    }
}

pub fn ask_found(r: &Vec<Reply>, i: usize, said: Vec<Line>, deed: Deed) -> (t: Talk<
    Result<&Option<Session>, String>,
>)
    requires
        i <= r@.len(),
    ensures
        ref_talk(t) == found(r@, i as int, ask(lines(said@), 0, deed@)),
        within(t, i, r@),
{
    if i < r.len() {
        match &r[i].event {
            Event::Found(s) => {
                return Talk::Done(Ok(s), i + 1, quiet());
            },
            Event::Failed(m) => {
                return Talk::Done(Err(m.clone()), i + 1, quiet());
            },
            _ => {},
        }
    }
    Talk::Ask(asking(said, 0, deed))
}

pub open spec fn sessions_of(e: Event) -> Option<Result<Vec<Session>, Seq<char>>> {
    match e {
        Event::Sessions(s) => Some(Ok(s)),
        Event::Failed(m) => Some(Err(m@)),
        _ => None,
    }
}

pub open spec fn listed(r: Seq<Reply>, i: int, a: AskView) -> TalkView<
    Result<Vec<Session>, Seq<char>>,
> {
    if i < r.len() && sessions_of(r[i].event) is Some {
        TalkView::Done(sessions_of(r[i].event)->0, i + 1, Seq::empty())
    } else {
        TalkView::Ask(a)
    }
}

pub fn ask_list(r: &Vec<Reply>, i: usize, said: Vec<Line>) -> (t: Talk<
    Result<&Vec<Session>, String>,
>)
    requires
        i <= r@.len(),
    ensures
        ref_talk(t) == listed(r@, i as int, ask(lines(said@), 0, Deed::List)),
        within(t, i, r@),
{
    if i < r.len() {
        match &r[i].event {
            Event::Sessions(s) => {
                return Talk::Done(Ok(s), i + 1, quiet());
            },
            Event::Failed(m) => {
                return Talk::Done(Err(m.clone()), i + 1, quiet());
            },
            _ => {},
        }
    }
    Talk::Ask(asking(said, 0, Deed::List))
}

pub open spec fn pid_of(e: Event) -> Option<Result<Option<u32>, Seq<char>>> {
    match e {
        Event::Pid(p) => Some(Ok(p)),
        Event::Failed(m) => Some(Err(m@)),
        _ => None,
    }
}

pub open spec fn started(r: Seq<Reply>, i: int, a: AskView) -> TalkView<
    Result<Option<u32>, Seq<char>>,
> {
    if i < r.len() && pid_of(r[i].event) is Some {
        TalkView::Done(pid_of(r[i].event)->0, i + 1, Seq::empty())
    } else {
        TalkView::Ask(a)
    }
}

pub fn ask_pid(r: &Vec<Reply>, i: usize, said: Vec<Line>, deed: Deed) -> (t: Talk<
    Result<Option<u32>, String>,
>)
    requires
        i <= r@.len(),
    ensures
        value_talk(t) == started(r@, i as int, ask(lines(said@), 0, deed@)),
        within(t, i, r@),
{
    if i < r.len() {
        match &r[i].event {
            Event::Pid(p) => {
                return Talk::Done(Ok(*p), i + 1, quiet());
            },
            Event::Failed(m) => {
                return Talk::Done(Err(m.clone()), i + 1, quiet());
            },
            _ => {},
        }
    }
    Talk::Ask(asking(said, 0, deed))
}

pub open spec fn machine_of(e: Event) -> Option<Result<MachineRef, Seq<char>>> {
    match e {
        Event::Machine(m) => Some(Ok(m)),
        Event::Failed(m) => Some(Err(m@)),
        Event::Gone(m) => Some(Err(m@)),
        _ => None,
    }
}

pub open spec fn made(r: Seq<Reply>, i: int, a: AskView) -> TalkView<
    Result<MachineRef, Seq<char>>,
> {
    if i < r.len() && machine_of(r[i].event) is Some {
        TalkView::Done(machine_of(r[i].event)->0, i + 1, Seq::empty())
    } else {
        TalkView::Ask(a)
    }
}

pub fn ask_machine(r: &Vec<Reply>, i: usize, said: Vec<Line>, deed: Deed) -> (t: Talk<
    Result<&MachineRef, String>,
>)
    requires
        i <= r@.len(),
    ensures
        ref_talk(t) == made(r@, i as int, ask(lines(said@), 0, deed@)),
        within(t, i, r@),
{
    if i < r.len() {
        match &r[i].event {
            Event::Machine(m) => {
                return Talk::Done(Ok(m), i + 1, quiet());
            },
            Event::Failed(m) => {
                return Talk::Done(Err(m.clone()), i + 1, quiet());
            },
            Event::Gone(m) => {
                return Talk::Done(Err(m.clone()), i + 1, quiet());
            },
            _ => {},
        }
    }
    Talk::Ask(asking(said, 0, deed))
}

/// Where a machine is, if it says so yet.
pub enum Whereabouts<S = String> {
    At(Option<Address>),
    Gone(S),
    Failed(S),
}

pub open spec fn whereabouts_of(e: Event) -> Option<Whereabouts<Seq<char>>> {
    match e {
        Event::Address(a) => Some(Whereabouts::At(a)),
        Event::Gone(m) => Some(Whereabouts::Gone(m@)),
        Event::Failed(m) => Some(Whereabouts::Failed(m@)),
        _ => None,
    }
}

pub open spec fn whereabouts_talk(t: Talk<Whereabouts>) -> TalkView<Whereabouts<Seq<char>>> {
    match t {
        Talk::Ask(a) => TalkView::Ask(a@),
        Talk::Done(v, n, s) => TalkView::Done(
            match v {
                Whereabouts::At(a) => Whereabouts::At(a),
                Whereabouts::Gone(m) => Whereabouts::Gone(m@),
                Whereabouts::Failed(m) => Whereabouts::Failed(m@),
            },
            n as int,
            lines(s@),
        ),
    }
}

pub open spec fn located(r: Seq<Reply>, i: int, a: AskView) -> TalkView<Whereabouts<Seq<char>>> {
    if i < r.len() && whereabouts_of(r[i].event) is Some {
        TalkView::Done(whereabouts_of(r[i].event)->0, i + 1, Seq::empty())
    } else {
        TalkView::Ask(a)
    }
}

pub fn ask_address(r: &Vec<Reply>, i: usize, said: Vec<Line>, pause: u64, deed: Deed) -> (t: Talk<
    Whereabouts,
>)
    requires
        i <= r@.len(),
    ensures
        whereabouts_talk(t) == located(r@, i as int, ask(lines(said@), pause, deed@)),
        within(t, i, r@),
{
    if i < r.len() {
        match &r[i].event {
            Event::Address(a) => {
                return Talk::Done(Whereabouts::At(*a), i + 1, quiet());
            },
            Event::Gone(m) => {
                return Talk::Done(Whereabouts::Gone(m.clone()), i + 1, quiet());
            },
            Event::Failed(m) => {
                return Talk::Done(Whereabouts::Failed(m.clone()), i + 1, quiet());
            },
            _ => {},
        }
    }
    Talk::Ask(asking(said, pause, deed))
}

pub open spec fn count_of(e: Event) -> Option<Result<usize, Seq<char>>> {
    match e {
        Event::Count(n) => Some(Ok(n)),
        Event::Failed(m) => Some(Err(m@)),
        _ => None,
    }
}

pub open spec fn counted(r: Seq<Reply>, i: int, a: AskView) -> TalkView<Result<usize, Seq<char>>> {
    if i < r.len() && count_of(r[i].event) is Some {
        TalkView::Done(count_of(r[i].event)->0, i + 1, Seq::empty())
    } else {
        TalkView::Ask(a)
    }
}

pub fn ask_count(r: &Vec<Reply>, i: usize, said: Vec<Line>, deed: Deed) -> (t: Talk<
    Result<usize, String>,
>)
    requires
        i <= r@.len(),
    ensures
        value_talk(t) == counted(r@, i as int, ask(lines(said@), 0, deed@)),
        within(t, i, r@),
{
    if i < r.len() {
        match &r[i].event {
            Event::Count(n) => {
                return Talk::Done(Ok(*n), i + 1, quiet());
            },
            Event::Failed(m) => {
                return Talk::Done(Err(m.clone()), i + 1, quiet());
            },
            _ => {},
        }
    }
    Talk::Ask(asking(said, 0, deed))
}

pub open spec fn diagnosed(r: Seq<Reply>, i: int, a: AskView) -> TalkView<Vec<Finding>> {
    if i < r.len() && r[i].event is Findings {
        TalkView::Done(r[i].event->Findings_0, i + 1, Seq::empty())
    } else {
        TalkView::Ask(a)
    }
}

pub open spec fn findings_talk(t: Talk<&Vec<Finding>>) -> TalkView<Vec<Finding>> {
    match t {
        Talk::Ask(a) => TalkView::Ask(a@),
        Talk::Done(v, n, s) => TalkView::Done(*v, n as int, lines(s@)),
    }
}

pub fn ask_findings(r: &Vec<Reply>, i: usize, said: Vec<Line>) -> (t: Talk<&Vec<Finding>>)
    requires
        i <= r@.len(),
    ensures
        findings_talk(t) == diagnosed(r@, i as int, ask(lines(said@), 0, Deed::Diagnose)),
        within(t, i, r@),
{
    if i < r.len() {
        match &r[i].event {
            Event::Findings(v) => {
                return Talk::Done(v, i + 1, quiet());
            },
            _ => {},
        }
    }
    Talk::Ask(asking(said, 0, Deed::Diagnose))
}

}
