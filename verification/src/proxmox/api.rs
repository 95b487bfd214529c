//! Conversations with the API.
//!
//! An operation is a conversation: it asks for one thing after another, and
//! what it asks for next depends on what came back. Here an operation is a
//! function of the replies so far. It says either what to ask for next or how
//! it ended, so that whoever does the asking decides nothing.
use vstd::prelude::*;
use vstd::string::*;

use crate::json::{Json, JsonView};
use crate::provider::ProviderError;
use crate::text::{dec, decimal, texts};
use crate::time::Duration;

verus! {

#[derive(Debug, Clone, Copy, PartialEq, Eq, Structural)]
pub enum Method {
    Get,
    Post,
    Put,
    Delete,
}

/// Something to ask the API for.
pub struct Request {
    pub method: Method,
    pub path: String,
    /// What a post or a put carries.
    pub form: Vec<(String, String)>,
    /// Wait for the poll interval before asking.
    pub pause: bool,
    /// What to tell the operator before asking.
    pub say: Vec<String>,
}

/// What a request is.
pub struct RequestView {
    pub method: Method,
    pub path: Seq<char>,
    pub form: Seq<(Seq<char>, Seq<char>)>,
    pub pause: bool,
    pub say: Seq<Seq<char>>,
}

pub open spec fn form_view(form: Seq<(String, String)>) -> Seq<(Seq<char>, Seq<char>)> {
    form.map_values(|p: (String, String)| (p.0@, p.1@))
}

impl Request {
    pub open spec fn view(&self) -> RequestView {
        RequestView {
            method: self.method,
            path: self.path@,
            form: form_view(self.form@),
            pause: self.pause,
            say: texts(self.say@),
        }
    }
}

/// What came back, and how long after the start of the operation.
pub struct Reply {
    pub answer: Result<Json, ProviderError>,
    pub at: Duration,
}

pub type Answer<T> = Result<T, ProviderError<Seq<char>>>;

pub struct ReplyView {
    pub answer: Answer<JsonView>,
    pub at: int,
}

pub open spec fn json_answer(r: Result<Json, ProviderError>) -> Answer<JsonView> {
    match r {
        Ok(j) => Ok(j@),
        Err(e) => Err(e@),
    }
}

impl Reply {
    pub open spec fn view(&self) -> ReplyView {
        ReplyView { answer: json_answer(self.answer), at: self.at@ }
    }
}

pub open spec fn replies_view(r: Seq<Reply>) -> Seq<ReplyView> {
    r.map_values(|x: Reply| x@)
}

/// How far an operation has got: what it asks for next, or how it ended and
/// how many replies it took.
pub enum Run<T> {
    Ask(Request),
    Done(T, usize),
}

pub enum RunView<T> {
    Ask(RequestView),
    Done(T, int),
}

/// The outcome of an operation, with the failure as its text.
pub open spec fn answer<T>(r: Result<T, ProviderError>) -> Answer<T> {
    match r {
        Ok(v) => Ok(v),
        Err(e) => Err(e@),
    }
}

pub open spec fn run_view<T>(r: Run<Result<T, ProviderError>>) -> RunView<Answer<T>> {
    match r {
        Run::Ask(q) => RunView::Ask(q@),
        Run::Done(v, n) => RunView::Done(answer(v), n as int),
    }
}

pub open spec fn json_run(r: Run<Result<Json, ProviderError>>) -> RunView<Answer<JsonView>> {
    match r {
        Run::Ask(q) => RunView::Ask(q@),
        Run::Done(v, n) => RunView::Done(json_answer(v), n as int),
    }
}

pub open spec fn error_run(r: Run<ProviderError>) -> RunView<ProviderError<Seq<char>>> {
    match r {
        Run::Ask(q) => RunView::Ask(q@),
        Run::Done(e, n) => RunView::Done(e@, n as int),
    }
}

/// An operation has taken no more replies than there are.
pub open spec fn within<T>(r: Run<T>, from: usize, replies: Seq<Reply>) -> bool {
    r matches Run::Done(_, n) ==> from <= n <= replies.len()
}

/// A reply is there, or the request has to be made.
pub open spec fn sent(r: Seq<ReplyView>, i: int, q: RequestView) -> RunView<Answer<JsonView>> {
    if i < r.len() {
        RunView::Done(r[i].answer, i + 1)
    } else {
        RunView::Ask(q)
    }
}

pub fn send(r: &Vec<Reply>, i: usize, q: Request) -> (run: Run<Result<Json, ProviderError>>)
    requires
        i <= r@.len(),
    ensures
        json_run(run) == sent(replies_view(r@), i as int, q@),
        within(run, i, r@),
{
    if i < r.len() {
        let answer = match &r[i].answer {
            Ok(j) => Ok(j.copy()),
            Err(e) => Err(e.copy()),
        };
        Run::Done(answer, i + 1)
    } else {
        Run::Ask(q)
    }
}

/// When the reply before came in; an operation starts at zero.
pub open spec fn reached(r: Seq<ReplyView>, i: int) -> int {
    if 0 < i <= r.len() {
        r[i - 1].at
    } else {
        0
    }
}

pub fn time_reached(r: &Vec<Reply>, i: usize) -> (d: Duration)
    requires
        i <= r@.len(),
    ensures
        d@ == reached(replies_view(r@), i as int),
{
    if i > 0 {
        r[i - 1].at
    } else {
        Duration::from_secs(0)
    }
}

/// Has it been as long as `limit` since `since`?
pub fn is_late(at: &Duration, since: &Duration, limit: &Duration) -> (r: bool)
    ensures
        r == (at@ - since@ >= limit@),
{
    limit.bounds();
    match at.checked_sub(since) {
        Some(gone) => !gone.shorter_than(limit),
        None => false,
    }
}

// ---------------------------------------------------------------------------
// Requests
// ---------------------------------------------------------------------------

pub open spec fn get(path: Seq<char>) -> RequestView {
    RequestView {
        method: Method::Get,
        path,
        form: Seq::empty(),
        pause: false,
        say: Seq::empty(),
    }
}

pub open spec fn get_again(path: Seq<char>, pause: bool) -> RequestView {
    RequestView { method: Method::Get, path, form: Seq::empty(), pause, say: Seq::empty() }
}

pub open spec fn saying(q: RequestView, say: Seq<Seq<char>>) -> RequestView {
    RequestView { method: q.method, path: q.path, form: q.form, pause: q.pause, say }
}

pub open spec fn posting(path: Seq<char>, form: Seq<(Seq<char>, Seq<char>)>) -> RequestView {
    RequestView { method: Method::Post, path, form, pause: false, say: Seq::empty() }
}

pub open spec fn putting(path: Seq<char>, form: Seq<(Seq<char>, Seq<char>)>) -> RequestView {
    RequestView { method: Method::Put, path, form, pause: false, say: Seq::empty() }
}

pub open spec fn deleting(path: Seq<char>) -> RequestView {
    RequestView {
        method: Method::Delete,
        path,
        form: Seq::empty(),
        pause: false,
        say: Seq::empty(),
    }
}

pub fn request(
    method: Method,
    path: String,
    form: Vec<(String, String)>,
    pause: bool,
    say: Vec<String>,
) -> (q: Request)
    ensures
        q@ == (RequestView {
            method,
            path: path@,
            form: form_view(form@),
            pause,
            say: texts(say@),
        }),
{
    Request { method, path, form, pause, say }
}

pub fn ask_get(path: String, pause: bool) -> (q: Request)
    ensures
        q@ == get_again(path@, pause),
{
    let form: Vec<(String, String)> = Vec::new();
    let say: Vec<String> = Vec::new();
    assert(form_view(form@) =~= Seq::empty());
    assert(texts(say@) =~= Seq::empty());
    request(Method::Get, path, form, pause, say)
}

pub fn ask_delete(path: String) -> (q: Request)
    ensures
        q@ == deleting(path@),
{
    let form: Vec<(String, String)> = Vec::new();
    let say: Vec<String> = Vec::new();
    assert(form_view(form@) =~= Seq::empty());
    assert(texts(say@) =~= Seq::empty());
    request(Method::Delete, path, form, false, say)
}

pub fn ask_post(path: String, form: Vec<(String, String)>) -> (q: Request)
    ensures
        q@ == posting(path@, form_view(form@)),
{
    let say: Vec<String> = Vec::new();
    assert(texts(say@) =~= Seq::empty());
    request(Method::Post, path, form, false, say)
}

pub fn ask_put(path: String, form: Vec<(String, String)>) -> (q: Request)
    ensures
        q@ == putting(path@, form_view(form@)),
{
    let say: Vec<String> = Vec::new();
    assert(texts(say@) =~= Seq::empty());
    request(Method::Put, path, form, false, say)
}

/// A path below a machine on a node.
pub open spec fn vm_path(node: Seq<char>, id: nat, rest: Seq<char>) -> Seq<char> {
    "/nodes/"@ + node + "/qemu/"@ + dec(id) + rest
}

pub fn path_to_vm(node: &str, id: u32, rest: &str) -> (r: String)
    ensures
        r@ == vm_path(node@, id as nat, rest@),
{
    "/nodes/".to_string().concat(node).concat("/qemu/").concat(decimal(id as u64).as_str()).concat(
        rest,
    )
}

/// Where a task's status is.
pub open spec fn task_path(node: Seq<char>, task: Seq<char>) -> Seq<char> {
    "/nodes/"@ + node + "/tasks/"@ + task + "/status"@
}

pub fn path_to_task(node: &str, task: &str) -> (r: String)
    ensures
        r@ == task_path(node@, task@),
{
    "/nodes/".to_string().concat(node).concat("/tasks/").concat(task).concat("/status")
}

/// Where a storage's status is.
pub open spec fn storage_path(node: Seq<char>, storage: Seq<char>) -> Seq<char> {
    "/nodes/"@ + node + "/storage/"@ + storage + "/status"@
}

pub fn path_to_storage(node: &str, storage: &str) -> (r: String)
    ensures
        r@ == storage_path(node@, storage@),
{
    "/nodes/".to_string().concat(node).concat("/storage/").concat(storage).concat("/status")
}

/// The cluster's machines, whoever they belong to.
pub open spec fn listing_request() -> RequestView {
    get("/cluster/resources?type=vm"@)
}

pub fn ask_listing() -> (q: Request)
    ensures
        q@ == listing_request(),
{
    ask_get("/cluster/resources?type=vm".to_string(), false)
}

}
