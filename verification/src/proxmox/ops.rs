//! The provider's operations, as conversations.
use vstd::prelude::*;
use vstd::string::*;

use crate::address::Address;
use crate::provider::{
    error_text, CreateRequest, MachineRef, MachineSummary, ProviderError,
};
use crate::proxmox::api::{
    answer, ask_delete, ask_get, ask_listing, ask_put, deleting, form_view, get, listing_request,
    path_to_vm, posting, putting, replies_view, request, run_view, saying, send, sent, vm_path,
    within, Answer, Method, Reply, ReplyView, RequestView, Run, RunView,
};
use crate::proxmox::cluster::{
    chosen_address, find_free, first_usable_address, held, items_of, lowest_free, our_machines,
    summaries, summaries_view, text_or_empty, text_or_none,
};
use crate::proxmox::config::Config;
use crate::proxmox::ids::{checked, range_text};
use crate::proxmox::names::{hostname, sanitize_name};
use crate::proxmox::room::{check_room, roomed};
use crate::proxmox::tags::{encode, retagged, tag_for, with_expiry};
use crate::proxmox::tasks::{
    ambiguous, await_stopped, disambiguate, disambiguated, existence, gone, gone_error,
    is_ambiguous, is_running, running, still_exists, stopping, switch, switched, wait, waited,
};
use crate::scan::{contains, holds};
use crate::text::{debug_text, dec, decimal, quoted, texts};
use crate::time::SystemTime;

verus! {

// ---------------------------------------------------------------------------
// Destroying
// ---------------------------------------------------------------------------

pub open spec fn removal(c: Config, id: nat) -> RequestView {
    deleting(vm_path(c.node@, id, "?purge=1&destroy-unreferenced-disks=1"@))
}

/// Deleting a machine and waiting for it to be gone.
pub open spec fn removed(c: Config, id: u32, r: Seq<ReplyView>, i: int) -> RunView<Answer<()>> {
    match sent(r, i, removal(c, id as nat)) {
        RunView::Ask(q) => RunView::Ask(q),
        RunView::Done(Err(e), n) => RunView::Done(Err(e), n),
        RunView::Done(Ok(task), n) => waited(c, task, r, n),
    }
}

/// Stopping a machine and waiting for it to be stopped.
pub open spec fn halted(c: Config, id: u32, r: Seq<ReplyView>, i: int) -> RunView<Answer<()>> {
    match switched(c, id, "/status/stop"@, r, i) {
        RunView::Ask(q) => RunView::Ask(q),
        RunView::Done(Err(e), n) => RunView::Done(Err(e), n),
        RunView::Done(Ok(_), n) => stopping(
            c,
            id,
            crate::proxmox::api::reached(r, n),
            r,
            n,
            false,
        ),
    }
}

/// Destroying a machine: it is stopped first if it runs, and one that is gone
/// already is reported as gone.
pub open spec fn destroyed(c: Config, id: u32, r: Seq<ReplyView>, i: int) -> RunView<Answer<()>> {
    match existence(c, id, r, i) {
        RunView::Ask(q) => RunView::Ask(q),
        RunView::Done(Err(e), n) => RunView::Done(Err(e), n),
        RunView::Done(Ok(false), n) => RunView::Done(Err(gone(id as nat)), n),
        RunView::Done(Ok(true), n) => match running(c, id, r, n) {
            RunView::Ask(q) => RunView::Ask(q),
            RunView::Done(Err(e), k) => RunView::Done(Err(e), k),
            RunView::Done(Ok(false), k) => removed(c, id, r, k),
            RunView::Done(Ok(true), k) => match halted(c, id, r, k) {
                RunView::Ask(q) => RunView::Ask(q),
                RunView::Done(Err(e), m) => RunView::Done(Err(e), m),
                RunView::Done(Ok(_), m) => removed(c, id, r, m),
            },
        },
    }
}

fn remove(c: &Config, id: u32, r: &Vec<Reply>, i: usize) -> (run: Run<Result<(), ProviderError>>)
    requires
        i <= r@.len(),
    ensures
        run_view(run) == removed(*c, id, replies_view(r@), i as int),
        within(run, i, r@),
{
    let q = ask_delete(
        path_to_vm(c.node.as_str(), id, "?purge=1&destroy-unreferenced-disks=1"),
    );
    match send(r, i, q) {
        Run::Ask(q) => Run::Ask(q),
        Run::Done(a, n) => match a {
            Err(e) => Run::Done(Err(e), n),
            Ok(task) => wait(c, &task, r, n),
        },
    }
}

fn halt(c: &Config, id: u32, r: &Vec<Reply>, i: usize) -> (run: Run<Result<(), ProviderError>>)
    requires
        i <= r@.len(),
    ensures
        run_view(run) == halted(*c, id, replies_view(r@), i as int),
        within(run, i, r@),
{
    match switch(c, id, "/status/stop", r, i) {
        Run::Ask(q) => Run::Ask(q),
        Run::Done(a, n) => match a {
            Err(e) => Run::Done(Err(e), n),
            Ok(_) => await_stopped(c, id, r, n),
        },
    }
}

/// Destroy a machine whose identifier has been checked.
///
/// Already gone is told apart from a failure. The usual reason is the happy
/// one: the sweeper collected an expired machine, doing exactly its job. The
/// API refuses to delete a running machine, so one that runs is stopped first.
pub fn destroy_checked(c: &Config, id: u32, r: &Vec<Reply>, i: usize) -> (run: Run<
    Result<(), ProviderError>,
>)
    requires
        i <= r@.len(),
    ensures
        run_view(run) == destroyed(*c, id, replies_view(r@), i as int),
        within(run, i, r@),
{
    let n = match still_exists(c, id, r, i) {
        Run::Ask(q) => {
            return Run::Ask(q);
        },
        Run::Done(a, n) => match a {
            Err(e) => {
                return Run::Done(Err(e), n);
            },
            Ok(here) => {
                if !here {
                    return Run::Done(Err(gone_error(id)), n);
                }
                n
            },
        },
    };
    match is_running(c, id, r, n) {
        Run::Ask(q) => Run::Ask(q),
        Run::Done(a, k) => match a {
            Err(e) => Run::Done(Err(e), k),
            Ok(false) => remove(c, id, r, k),
            Ok(true) => match halt(c, id, r, k) {
                Run::Ask(q) => Run::Ask(q),
                Run::Done(b, m) => match b {
                    Err(e) => Run::Done(Err(e), m),
                    Ok(_) => remove(c, id, r, m),
                },
            },
        },
    }
}

// ---------------------------------------------------------------------------
// Creating
// ---------------------------------------------------------------------------

/// What a clone is asked for with. The pool is always sent: the credential can
/// allocate nowhere else.
pub open spec fn clone_form(c: Config, req: CreateRequest, id: nat) -> Seq<
    (Seq<char>, Seq<char>),
> {
    seq![
        ("newid"@, dec(id)),
        ("name"@, hostname(req.name@)),
        ("pool"@, c.pool@),
        ("full"@, "1"@),
    ]
}

pub open spec fn clone_request(
    c: Config,
    req: CreateRequest,
    template: nat,
    id: nat,
    notes: Seq<Seq<char>>,
) -> RequestView {
    saying(
        posting(vm_path(c.node@, template, "/clone"@), clone_form(c, req, id)),
        notes,
    )
}

pub open spec fn one(present: bool, name: Seq<char>, value: Seq<char>) -> Seq<
    (Seq<char>, Seq<char>),
> {
    if present {
        seq![(name, value)]
    } else {
        Seq::empty()
    }
}

/// Everything that is set on a new machine, in one write: its expiry first, its
/// protection cleared, its size, and its blank disk.
pub open spec fn settings(c: Config, req: CreateRequest) -> Seq<(Seq<char>, Seq<char>)> {
    seq![("tags"@, tag_for(req.expires_at)), ("protection"@, "0"@)] + one(
        req.cores is Some,
        "cores"@,
        dec(req.cores->0 as nat),
    ) + one(req.ram_gb is Some, "memory"@, dec((req.ram_gb->0 * 1024) as nat)) + one(
        req.data_disk_gb is Some && c.data_storage is Some,
        c.data_bus@,
        c.data_storage->0@ + ":"@ + dec(req.data_disk_gb->0 as nat),
    )
}

pub open spec fn settings_request(c: Config, req: CreateRequest, id: nat) -> RequestView {
    putting(vm_path(c.node@, id, "/config"@), settings(c, req))
}

/// A timeout while cloning: the outcome is unknown and nothing carries a tag
/// yet.
pub open spec fn orphan(t: Seq<char>, id: nat) -> Seq<char> {
    t + ". CAUTION: this was the clone making "@ + dec(id)
        + ", which has no expiry tag yet -- if it did finish, "@ + dec(id)
        + " exists and nothing will collect it. Check for "@ + dec(id)
        + " and destroy it by hand"@
}

/// A clone that failed, and what became of what it left.
pub open spec fn clone_failure(
    template: nat,
    id: nat,
    failed: ProviderError<Seq<char>>,
    cleanup: Answer<()>,
) -> ProviderError<Seq<char>> {
    let start = "cloning "@ + dec(template) + " into "@ + dec(id) + " failed ("@ + error_text(
        failed,
    );
    ProviderError::Api {
        status: 0,
        message: match cleanup {
            Ok(_) => start + "); nothing was left behind"@,
            Err(also) => if also is NotFound {
                start + "); nothing was left behind"@
            } else {
                start + "), and the leftover could not be destroyed either ("@ + error_text(also)
                    + "). It carries no expiry, so nothing will collect it: destroy "@ + dec(id)
                    + " by hand"@
            },
        },
    }
}

/// A machine that could not be given an expiry, and what became of it.
pub open spec fn tag_failure(
    id: nat,
    failed: ProviderError<Seq<char>>,
    cleanup: Answer<()>,
) -> ProviderError<Seq<char>> {
    ProviderError::Api {
        status: 0,
        message: match cleanup {
            Ok(_) => "machine "@ + dec(id) + " was created but could not be given an expiry ("@
                + error_text(failed) + "); it has been destroyed"@,
            Err(also) => "machine "@ + dec(id)
                + " was created, could not be given an expiry ("@ + error_text(failed)
                + "), and could not be destroyed either ("@ + error_text(also)
                + "). It carries no expiry, so nothing will collect it: destroy "@ + dec(id)
                + " by hand"@,
        },
    }
}

/// Giving a new machine its expiry and the rest. One that cannot be given an
/// expiry is destroyed: it is the one state nothing ever collects.
pub open spec fn tagged(c: Config, req: CreateRequest, id: u32, r: Seq<ReplyView>, i: int) -> RunView<
    Answer<u32>,
> {
    match sent(r, i, settings_request(c, req, id as nat)) {
        RunView::Ask(q) => RunView::Ask(q),
        RunView::Done(Ok(_), n) => RunView::Done(Ok(id), n),
        RunView::Done(Err(e), n) => match destroyed(c, id, r, n) {
            RunView::Ask(q) => RunView::Ask(q),
            RunView::Done(d, k) => RunView::Done(Err(tag_failure(id as nat, e, d)), k),
        },
    }
}

/// Cloning the template and setting the clone up.
pub open spec fn cloned(
    c: Config,
    req: CreateRequest,
    template: u32,
    id: u32,
    notes: Seq<Seq<char>>,
    r: Seq<ReplyView>,
    i: int,
) -> RunView<Answer<u32>> {
    match sent(r, i, clone_request(c, req, template as nat, id as nat, notes)) {
        RunView::Ask(q) => RunView::Ask(q),
        RunView::Done(Err(e), n) => RunView::Done(Err(e), n),
        RunView::Done(Ok(task), n) => match waited(c, task, r, n) {
            RunView::Ask(q) => RunView::Ask(q),
            RunView::Done(Ok(_), k) => tagged(c, req, id, r, k),
            RunView::Done(Err(ProviderError::Timeout(t)), k) => RunView::Done(
                Err(ProviderError::Timeout(orphan(t, id as nat))),
                k,
            ),
            RunView::Done(Err(failed), k) => match destroyed(c, id, r, k) {
                RunView::Ask(q) => RunView::Ask(q),
                RunView::Done(d, m) => RunView::Done(
                    Err(clone_failure(template as nat, id as nat, failed, d)),
                    m,
                ),
            },
        },
    }
}

/// Why a request is refused before anything is asked of the API.
pub open spec fn create_refusal(c: Config, req: CreateRequest) -> Option<
    ProviderError<Seq<char>>,
> {
    match checked(c.ids@, req.template@) {
        Err(e) => Some(
            ProviderError::Refused(
                "the registered template "@ + debug_text(req.template@) + " is not usable: "@
                    + error_text(e),
            ),
        ),
        Ok(_) => if req.data_disk_gb is Some && c.data_storage is None {
            Some(
                ProviderError::Config(
                    "a session disk was requested but [proxmox].data_storage is not set, so there is nowhere to put it"@,
                ),
            )
        } else {
            None
        },
    }
}

pub open spec fn full_range(c: Config) -> ProviderError<Seq<char>> {
    ProviderError::Refused(
        "every identifier in "@ + range_text(c.ids@)
            + " is in use; nothing can be created until something is destroyed"@,
    )
}

/// Making a machine: an identifier nothing has, room for it, the clone, and
/// then at once its expiry.
pub open spec fn created(c: Config, req: CreateRequest, r: Seq<ReplyView>) -> RunView<Answer<u32>> {
    match create_refusal(c, req) {
        Some(e) => RunView::Done(Err(e), 0),
        None => {
            let template = checked(c.ids@, req.template@)->Ok_0;
            match sent(r, 0, listing_request()) {
                RunView::Ask(q) => RunView::Ask(q),
                RunView::Done(Err(e), n) => RunView::Done(Err(e), n),
                RunView::Done(Ok(data), n) => match lowest_free(
                    held(data),
                    c.ids@.0 as int,
                    c.ids@.1 as int,
                ) {
                    None => RunView::Done(Err(full_range(c)), n),
                    Some(id) => match roomed(c, template, req.data_disk_gb, r, n) {
                        RunView::Ask(q) => RunView::Ask(q),
                        RunView::Done(Err(e), k) => RunView::Done(Err(e), k),
                        RunView::Done(Ok(notes), k) => cloned(c, req, template, id, notes, r, k),
                    },
                },
            }
        },
    }
}

fn pair(name: &str, value: String) -> (r: (String, String))
    ensures
        r.0@ == name@,
        r.1@ == value@,
{
    (name.to_string(), value)
}

fn write_settings(c: &Config, req: &CreateRequest) -> (r: Vec<(String, String)>)
    ensures
        form_view(r@) == settings(*c, *req),
{
    let mut form: Vec<(String, String)> = Vec::new();
    form.push(pair("tags", encode(req.expires_at)));
    form.push(pair("protection", "0".to_string()));
    let ghost base = form_view(form@);
    assert(base =~= seq![("tags"@, tag_for(req.expires_at)), ("protection"@, "0"@)]);
    match req.cores {
        Some(cores) => {
            form.push(pair("cores", decimal(cores as u64)));
        },
        None => {},
    }
    let ghost with_cores = form_view(form@);
    assert(with_cores =~= base + one(
        req.cores is Some,
        "cores"@,
        dec(req.cores->0 as nat),
    ));
    match req.ram_gb {
        Some(ram) => {
            form.push(pair("memory", decimal(ram as u64 * 1024)));
        },
        None => {},
    }
    let ghost with_ram = form_view(form@);
    assert(with_ram =~= with_cores + one(
        req.ram_gb is Some,
        "memory"@,
        dec((req.ram_gb->0 * 1024) as nat),
    ));
    match (req.data_disk_gb, &c.data_storage) {
        (Some(gb), Some(storage)) => {
            form.push(
                pair(
                    c.data_bus.as_str(),
                    storage.clone().concat(":").concat(decimal(gb as u64).as_str()),
                ),
            );
        },
        _ => {},
    }
    assert(form_view(form@) =~= settings(*c, *req));
    form
}

fn write_clone_form(c: &Config, req: &CreateRequest, id: u32) -> (r: Vec<(String, String)>)
    ensures
        form_view(r@) == clone_form(*c, *req, id as nat),
{
    let mut form: Vec<(String, String)> = Vec::new();
    form.push(pair("newid", decimal(id as u64)));
    form.push(pair("name", sanitize_name(req.name.as_str())));
    form.push(pair("pool", c.pool.clone()));
    form.push(pair("full", "1".to_string()));
    assert(form_view(form@) =~= clone_form(*c, *req, id as nat));
    form
}

fn say_clone_failure(
    template: u32,
    id: u32,
    failed: &ProviderError,
    cleanup: &Result<(), ProviderError>,
) -> (r: ProviderError)
    ensures
        r@ == clone_failure(template as nat, id as nat, failed@, answer(*cleanup)),
{
    let start = "cloning ".to_string().concat(decimal(template as u64).as_str()).concat(
        " into ",
    ).concat(decimal(id as u64).as_str()).concat(" failed (").concat(failed.message().as_str());
    let message = match cleanup {
        Ok(_) => start.concat("); nothing was left behind"),
        Err(also) => match also {
            ProviderError::NotFound(_) => start.concat("); nothing was left behind"),
            _ => start.concat("), and the leftover could not be destroyed either (").concat(
                also.message().as_str(),
            ).concat("). It carries no expiry, so nothing will collect it: destroy ").concat(
                decimal(id as u64).as_str(),
            ).concat(" by hand"),
        },
    };
    ProviderError::Api { status: 0, message }
}

fn say_tag_failure(id: u32, failed: &ProviderError, cleanup: &Result<(), ProviderError>) -> (r:
    ProviderError)
    ensures
        r@ == tag_failure(id as nat, failed@, answer(*cleanup)),
{
    let start = "machine ".to_string().concat(decimal(id as u64).as_str());
    let message = match cleanup {
        Ok(_) => start.concat(" was created but could not be given an expiry (").concat(
            failed.message().as_str(),
        ).concat("); it has been destroyed"),
        Err(also) => start.concat(" was created, could not be given an expiry (").concat(
            failed.message().as_str(),
        ).concat("), and could not be destroyed either (").concat(also.message().as_str()).concat(
            "). It carries no expiry, so nothing will collect it: destroy ",
        ).concat(decimal(id as u64).as_str()).concat(" by hand"),
    };
    ProviderError::Api { status: 0, message }
}

fn tag_new(c: &Config, req: &CreateRequest, id: u32, r: &Vec<Reply>, i: usize) -> (run: Run<
    Result<u32, ProviderError>,
>)
    requires
        i <= r@.len(),
    ensures
        run_view(run) == tagged(*c, *req, id, replies_view(r@), i as int),
        within(run, i, r@),
{
    let q = ask_put(path_to_vm(c.node.as_str(), id, "/config"), write_settings(c, req));
    match send(r, i, q) {
        Run::Ask(q) => Run::Ask(q),
        Run::Done(a, n) => match a {
            Ok(_) => Run::Done(Ok(id), n),
            Err(e) => match destroy_checked(c, id, r, n) {
                Run::Ask(q) => Run::Ask(q),
                Run::Done(d, k) => Run::Done(Err(say_tag_failure(id, &e, &d)), k),
            },
        },
    }
}

fn clone_template(
    c: &Config,
    req: &CreateRequest,
    template: u32,
    id: u32,
    notes: Vec<String>,
    r: &Vec<Reply>,
    i: usize,
) -> (run: Run<Result<u32, ProviderError>>)
    requires
        i <= r@.len(),
    ensures
        run_view(run) == cloned(
            *c,
            *req,
            template,
            id,
            texts(notes@),
            replies_view(r@),
            i as int,
        ),
        within(run, i, r@),
{
    let q = request(
        Method::Post,
        path_to_vm(c.node.as_str(), template, "/clone"),
        write_clone_form(c, req, id),
        false,
        notes,
    );
    let (task, n) = match send(r, i, q) {
        Run::Ask(q) => {
            return Run::Ask(q);
        },
        Run::Done(a, n) => match a {
            Err(e) => {
                return Run::Done(Err(e), n);
            },
            Ok(task) => (task, n),
        },
    };
    match wait(c, &task, r, n) {
        Run::Ask(q) => Run::Ask(q),
        Run::Done(a, k) => match a {
            Ok(_) => tag_new(c, req, id, r, k),
            Err(ProviderError::Timeout(t)) => {
                let d = decimal(id as u64);
                let m = t.concat(". CAUTION: this was the clone making ").concat(
                    d.as_str(),
                ).concat(", which has no expiry tag yet -- if it did finish, ").concat(
                    d.as_str(),
                ).concat(" exists and nothing will collect it. Check for ").concat(
                    d.as_str(),
                ).concat(" and destroy it by hand");
                Run::Done(Err(ProviderError::Timeout(m)), k)
            },
            Err(failed) => match destroy_checked(c, id, r, k) {
                Run::Ask(q) => Run::Ask(q),
                Run::Done(d, m) => Run::Done(
                    Err(say_clone_failure(template, id, &failed, &d)),
                    m,
                ),
            },
        },
    }
}

/// Make a machine. The identifier is the outcome.
pub fn create_id(c: &Config, req: &CreateRequest, r: &Vec<Reply>) -> (run: Run<
    Result<u32, ProviderError>,
>)
    ensures
        run_view(run) == created(*c, *req, replies_view(r@)),
        within(run, 0, r@),
{
    // The template is an identifier too, and cloning *from* outside the
    // permitted range is just as wrong as cloning into it.
    let template: u32 = match c.ids.check(&MachineRef(req.template.clone())) {
        Ok(id) => id,
        Err(e) => {
            return Run::Done(
                Err(
                    ProviderError::Refused(
                        "the registered template ".to_string().concat(
                            quoted(req.template.as_str()).as_str(),
                        ).concat(" is not usable: ").concat(e.message().as_str()),
                    ),
                ),
                0,
            );
        },
    };
    if req.data_disk_gb.is_some() && c.data_storage.is_none() {
        return Run::Done(
            Err(
                ProviderError::Config(
                    "a session disk was requested but [proxmox].data_storage is not set, so there is nowhere to put it".to_string(),
                ),
            ),
            0,
        );
    }
    let (data, n) = match send(r, 0, ask_listing()) {
        Run::Ask(q) => {
            return Run::Ask(q);
        },
        Run::Done(a, n) => match a {
            Err(e) => {
                return Run::Done(Err(e), n);
            },
            Ok(data) => (data, n),
        },
    };
    let (low, high) = c.ids.bounds();
    let id: u32 = match find_free(&items_of(&data), low, high) {
        Some(id) => id,
        None => {
            return Run::Done(
                Err(
                    ProviderError::Refused(
                        "every identifier in ".to_string().concat(c.ids.text().as_str()).concat(
                            " is in use; nothing can be created until something is destroyed",
                        ),
                    ),
                ),
                n,
            );
        },
    };
    match check_room(c, template, req.data_disk_gb, r, n) {
        Run::Ask(q) => Run::Ask(q),
        Run::Done(a, k) => match a {
            Err(e) => Run::Done(Err(e), k),
            Ok(notes) => clone_template(c, req, template, id, notes, r, k),
        },
    }
}

// ---------------------------------------------------------------------------
// Moving an expiry
// ---------------------------------------------------------------------------

pub open spec fn expiry_request(c: Config, id: nat, tags: Seq<char>) -> RequestView {
    putting(vm_path(c.node@, id, "/config"@), seq![("tags"@, tags)])
}

/// A failure once it has been told from an absence.
pub open spec fn failed<T>(id: u32, e: ProviderError<Seq<char>>, r: Seq<ReplyView>, i: int) -> RunView<
    Answer<T>,
> {
    match disambiguated(id, e, r, i) {
        RunView::Ask(q) => RunView::Ask(q),
        RunView::Done(f, k) => RunView::Done(Err(f), k),
    }
}

/// Moving an expiry: the tags are read, and written back with the new expiry in
/// the place of the old one.
pub open spec fn renewed(c: Config, machine: Seq<char>, at: SystemTime, r: Seq<ReplyView>) -> RunView<
    Answer<()>,
> {
    match checked(c.ids@, machine) {
        Err(e) => RunView::Done(Err(e), 0),
        Ok(id) => match sent(r, 0, get(vm_path(c.node@, id as nat, "/config"@))) {
            RunView::Ask(q) => RunView::Ask(q),
            RunView::Done(Err(e), n) => failed(id, e, r, n),
            RunView::Done(Ok(config), n) => {
                let tags = retagged(text_or_empty(config, "tags"@), at);
                match sent(r, n, expiry_request(c, id as nat, tags)) {
                    RunView::Ask(q) => RunView::Ask(q),
                    RunView::Done(Err(e), k) => failed(id, e, r, k),
                    RunView::Done(Ok(_), k) => RunView::Done(Ok(()), k),
                }
            },
        },
    }
}

fn fail(id: u32, e: ProviderError, r: &Vec<Reply>, i: usize) -> (run: Run<
    Result<(), ProviderError>,
>)
    requires
        i <= r@.len(),
    ensures
        run_view(run) == failed::<()>(id, e@, replies_view(r@), i as int),
        within(run, i, r@),
{
    match disambiguate(id, e, r, i) {
        Run::Ask(q) => Run::Ask(q),
        Run::Done(f, k) => Run::Done(Err(f), k),
    }
}

/// Move the expiry of a machine.
///
/// Read-modify-write. This is a shared cluster and reaper is not the only thing
/// that writes tags; replacing the whole string would discard somebody else's,
/// invisibly.
pub fn move_expiry(c: &Config, machine: &MachineRef, at: SystemTime, r: &Vec<Reply>) -> (run: Run<
    Result<(), ProviderError>,
>)
    ensures
        run_view(run) == renewed(*c, machine@.0, at, replies_view(r@)),
        within(run, 0, r@),
{
    let id: u32 = match c.ids.check(machine) {
        Ok(id) => id,
        Err(e) => {
            return Run::Done(Err(e), 0);
        },
    };
    let (config, n) = match send(
        r,
        0,
        ask_get(path_to_vm(c.node.as_str(), id, "/config"), false),
    ) {
        Run::Ask(q) => {
            return Run::Ask(q);
        },
        Run::Done(a, n) => match a {
            Err(e) => {
                return fail(id, e, r, n);
            },
            Ok(config) => (config, n),
        },
    };
    let existing = text_or_none(&config, "tags");
    let mut form: Vec<(String, String)> = Vec::new();
    let updated = with_expiry(existing.as_str(), at);
    form.push(pair("tags", updated));
    assert(form_view(form@) =~= seq![("tags"@, updated@)]);
    match send(r, n, ask_put(path_to_vm(c.node.as_str(), id, "/config"), form)) {
        Run::Ask(q) => Run::Ask(q),
        Run::Done(a, k) => match a {
            Err(e) => fail(id, e, r, k),
            Ok(_) => Run::Done(Ok(()), k),
        },
    }
}

// ---------------------------------------------------------------------------
// Starting, stopping, destroying
// ---------------------------------------------------------------------------

/// An operation on a checked identifier; a reference that does not check is
/// refused before anything is asked.
pub open spec fn guarded(
    c: Config,
    machine: Seq<char>,
    then_run: spec_fn(u32) -> RunView<Answer<()>>,
) -> RunView<Answer<()>> {
    match checked(c.ids@, machine) {
        Err(e) => RunView::Done(Err(e), 0),
        Ok(id) => then_run(id),
    }
}

pub open spec fn started(c: Config, machine: Seq<char>, r: Seq<ReplyView>) -> RunView<Answer<()>> {
    guarded(c, machine, |id: u32| switched(c, id, "/status/start"@, r, 0))
}

pub open spec fn stopped(c: Config, machine: Seq<char>, r: Seq<ReplyView>) -> RunView<Answer<()>> {
    guarded(c, machine, |id: u32| switched(c, id, "/status/stop"@, r, 0))
}

pub open spec fn taken_down(c: Config, machine: Seq<char>, r: Seq<ReplyView>) -> RunView<
    Answer<()>,
> {
    guarded(c, machine, |id: u32| destroyed(c, id, r, 0))
}

pub fn start_machine(c: &Config, machine: &MachineRef, r: &Vec<Reply>) -> (run: Run<
    Result<(), ProviderError>,
>)
    ensures
        run_view(run) == started(*c, machine@.0, replies_view(r@)),
        within(run, 0, r@),
{
    match c.ids.check(machine) {
        Ok(id) => switch(c, id, "/status/start", r, 0),
        Err(e) => Run::Done(Err(e), 0),
    }
}

pub fn stop_machine(c: &Config, machine: &MachineRef, r: &Vec<Reply>) -> (run: Run<
    Result<(), ProviderError>,
>)
    ensures
        run_view(run) == stopped(*c, machine@.0, replies_view(r@)),
        within(run, 0, r@),
{
    match c.ids.check(machine) {
        Ok(id) => switch(c, id, "/status/stop", r, 0),
        Err(e) => Run::Done(Err(e), 0),
    }
}

pub fn destroy_machine(c: &Config, machine: &MachineRef, r: &Vec<Reply>) -> (run: Run<
    Result<(), ProviderError>,
>)
    ensures
        run_view(run) == taken_down(*c, machine@.0, replies_view(r@)),
        within(run, 0, r@),
{
    match c.ids.check(machine) {
        Ok(id) => destroy_checked(c, id, r, 0),
        Err(e) => Run::Done(Err(e), 0),
    }
}

// ---------------------------------------------------------------------------
// Addresses and listings
// ---------------------------------------------------------------------------

/// The failure means that the machine has no address to report yet.
pub open spec fn not_yet(e: ProviderError<Seq<char>>) -> bool {
    e matches ProviderError::Api { status, message } && (contains(message, "guest agent"@)
        || contains(message, "is not running"@))
}

/// The failure names a machine that is not there.
pub open spec fn names_missing(e: ProviderError<Seq<char>>) -> bool {
    e matches ProviderError::Api { status, message } && contains(message, "does not exist"@)
}

/// Asking a machine's agent for its address. Before the agent is up, asking is
/// not an error.
pub open spec fn addressed(c: Config, machine: Seq<char>, r: Seq<ReplyView>) -> RunView<
    Answer<Option<Address>>,
> {
    match checked(c.ids@, machine) {
        Err(e) => RunView::Done(Err(e), 0),
        Ok(id) => match sent(
            r,
            0,
            get(vm_path(c.node@, id as nat, "/agent/network-get-interfaces"@)),
        ) {
            RunView::Ask(q) => RunView::Ask(q),
            RunView::Done(Ok(data), n) => RunView::Done(Ok(chosen_address(data)), n),
            RunView::Done(Err(e), n) => if not_yet(e) {
                RunView::Done(Ok(None), n)
            } else if ambiguous(e) {
                match existence(c, id, r, n) {
                    RunView::Ask(q) => RunView::Ask(q),
                    RunView::Done(Err(f), k) => RunView::Done(Err(f), k),
                    RunView::Done(Ok(true), k) => RunView::Done(Err(e), k),
                    RunView::Done(Ok(false), k) => RunView::Done(Err(gone(id as nat)), k),
                }
            } else if names_missing(e) {
                RunView::Done(Err(ProviderError::NotFound(e->message)), n)
            } else {
                RunView::Done(Err(e), n)
            },
        },
    }
}

/// The machine's address, or `None` if it does not have one yet.
pub fn find_address(c: &Config, machine: &MachineRef, r: &Vec<Reply>) -> (run: Run<
    Result<Option<Address>, ProviderError>,
>)
    ensures
        run_view(run) == addressed(*c, machine@.0, replies_view(r@)),
        within(run, 0, r@),
{
    let id: u32 = match c.ids.check(machine) {
        Ok(id) => id,
        Err(e) => {
            return Run::Done(Err(e), 0);
        },
    };
    let q = ask_get(path_to_vm(c.node.as_str(), id, "/agent/network-get-interfaces"), false);
    let (e, n) = match send(r, 0, q) {
        Run::Ask(q) => {
            return Run::Ask(q);
        },
        Run::Done(a, n) => match a {
            Ok(data) => {
                return Run::Done(Ok(first_usable_address(&data)), n);
            },
            Err(e) => (e, n),
        },
    };
    if is_ambiguous(&e) {
        return match still_exists(c, id, r, n) {
            Run::Ask(q) => Run::Ask(q),
            Run::Done(b, k) => match b {
                Err(f) => Run::Done(Err(f), k),
                Ok(true) => Run::Done(Err(e), k),
                Ok(false) => Run::Done(Err(gone_error(id)), k),
            },
        };
    }
    match e {
        ProviderError::Api { status, message } => {
            if holds(message.as_str(), "guest agent") || holds(
                message.as_str(),
                "is not running",
            ) {
                Run::Done(Ok(None), n)
            } else if holds(message.as_str(), "does not exist") {
                Run::Done(Err(ProviderError::NotFound(message)), n)
            } else {
                Run::Done(Err(ProviderError::Api { status, message }), n)
            }
        },
        other => Run::Done(Err(other), n),
    }
}

/// Listing reaper's machines.
pub open spec fn listed(c: Config, r: Seq<ReplyView>) -> RunView<
    Answer<Seq<MachineSummary<Seq<char>>>>,
> {
    match sent(r, 0, listing_request()) {
        RunView::Ask(q) => RunView::Ask(q),
        RunView::Done(Err(e), n) => RunView::Done(Err(e), n),
        RunView::Done(Ok(data), n) => RunView::Done(Ok(summaries(c, held(data))), n),
    }
}

pub open spec fn list_run(r: Run<Result<Vec<MachineSummary>, ProviderError>>) -> RunView<
    Answer<Seq<MachineSummary<Seq<char>>>>,
> {
    match r {
        Run::Ask(q) => RunView::Ask(q@),
        Run::Done(Ok(v), n) => RunView::Done(Ok(summaries_view(v@)), n as int),
        Run::Done(Err(e), n) => RunView::Done(Err(e@), n as int),
    }
}

pub fn list_machines(c: &Config, r: &Vec<Reply>) -> (run: Run<
    Result<Vec<MachineSummary>, ProviderError>,
>)
    ensures
        list_run(run) == listed(*c, replies_view(r@)),
        within(run, 0, r@),
{
    match send(r, 0, ask_listing()) {
        Run::Ask(q) => Run::Ask(q),
        Run::Done(a, n) => match a {
            Err(e) => Run::Done(Err(e), n),
            Ok(data) => Run::Done(Ok(our_machines(c, &items_of(&data))), n),
        },
    }
}

}
