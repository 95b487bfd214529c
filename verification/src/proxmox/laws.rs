//! What holds of the provider's operations whatever the API replies.
use vstd::prelude::*;

use crate::json::JsonView;
use crate::provider::{CreateRequest, ProviderError, RegisteredGuest};
use crate::proxmox::api::{
    get, posting, reached, sent, vm_path, Answer, Method, ReplyView, RequestView, RunView,
};
use crate::proxmox::cluster::{held, lowest_free, taken, text_or_empty};
use crate::proxmox::config::Config;
use crate::proxmox::diagnose::{
    all_hygiene, all_storages, any_expired, diagnosed, expired, first_findings, grouped, hygiene,
    largest, no_data_storage, no_evidence, pool_findings, storage_finding, storages_judged, swept,
    template_fail, template_finding, template_known, templates_judged, Found, Progress,
    ProgressView,
};
use crate::proxmox::ids::{checked, in_range};
use crate::proxmox::ops::{
    addressed, clone_request, cloned, created, destroyed, halted, removal, removed, renewed,
    settings, settings_request, started, stopped, tagged, taken_down,
};
use crate::proxmox::room::{roomed, weighed};
use crate::proxmox::tags::{others, tag_for, tags_of};
use crate::proxmox::tasks::{
    disambiguated, existence, polled, running, running_in, stopping, switched, waited,
};
use crate::time::SystemTime;

verus! {

// ---------------------------------------------------------------------------
// The range guard
// ---------------------------------------------------------------------------

/// A machine outside the permitted range is refused by every operation, and
/// none of them asks the API for anything first.
pub proof fn law_an_outsider_never_reaches_the_api(
    c: Config,
    machine: Seq<char>,
    at: SystemTime,
    r: Seq<ReplyView>,
)
    requires
        checked(c.ids@, machine) is Err,
    ensures
        checked(c.ids@, machine)->Err_0 is Refused,
        renewed(c, machine, at, r) == RunView::<Answer<()>>::Done(
            Err(checked(c.ids@, machine)->Err_0),
            0,
        ),
        started(c, machine, r) == renewed(c, machine, at, r),
        stopped(c, machine, r) == renewed(c, machine, at, r),
        taken_down(c, machine, r) == renewed(c, machine, at, r),
        addressed(c, machine, r) matches RunView::Done(Err(e), n) && n == 0 && e is Refused,
{
}

/// A request that cannot be met for what it says, or for how the site is
/// configured, is refused before the API is asked for anything.
pub proof fn law_a_hopeless_request_asks_nothing(c: Config, req: CreateRequest, r: Seq<ReplyView>)
    requires
        checked(c.ids@, req.template@) is Err || (req.data_disk_gb is Some && c.data_storage is None),
    ensures
        created(c, req, r) matches RunView::Done(Err(e), n) && n == 0,
{
}

// ---------------------------------------------------------------------------
// What is asked for
// ---------------------------------------------------------------------------

/// If there is something to ask, it only reads.
pub open spec fn only_reads<T>(run: RunView<T>) -> bool {
    run matches RunView::Ask(q) ==> q.method is Get
}

proof fn lemma_polled_reads(
    c: Config,
    task: Seq<char>,
    since: int,
    r: Seq<ReplyView>,
    i: int,
    failures: int,
    again: bool,
)
    ensures
        only_reads(polled(c, task, since, r, i, failures, again)),
    decreases r.len() - i,
{
    if i < r.len() {
        lemma_polled_reads(c, task, since, r, i + 1, failures + 1, true);
        lemma_polled_reads(c, task, since, r, i + 1, 0, true);
    }
}

proof fn lemma_waited_reads(c: Config, task: JsonView, r: Seq<ReplyView>, i: int)
    ensures
        only_reads(waited(c, task, r, i)),
{
    match crate::json::text_in(task) {
        Some(upid) => {
            lemma_polled_reads(c, upid, reached(r, i), r, i, 0, false);
        },
        None => {},
    }
}

proof fn lemma_stopping_reads(
    c: Config,
    id: u32,
    since: int,
    r: Seq<ReplyView>,
    i: int,
    again: bool,
)
    ensures
        only_reads(stopping(c, id, since, r, i, again)),
    decreases r.len() - i,
{
    if i < r.len() {
        lemma_stopping_reads(c, id, since, r, i + 1, true);
    }
}

pub open spec fn stop_request(c: Config, id: nat) -> RequestView {
    posting(vm_path(c.node@, id, "/status/stop"@), Seq::empty())
}

proof fn lemma_switched_asks(c: Config, id: u32, rest: Seq<char>, r: Seq<ReplyView>, i: int)
    ensures
        switched(c, id, rest, r, i) matches RunView::Ask(q) ==> q.method is Get || q == posting(
            vm_path(c.node@, id as nat, rest),
            Seq::empty(),
        ),
{
    match sent(r, i, posting(vm_path(c.node@, id as nat, rest), Seq::empty())) {
        RunView::Done(Ok(task), n) => {
            lemma_waited_reads(c, task, r, n);
        },
        _ => {},
    }
}

proof fn lemma_removed_asks(c: Config, id: u32, r: Seq<ReplyView>, i: int)
    ensures
        removed(c, id, r, i) matches RunView::Ask(q) ==> q.method is Get || q == removal(
            c,
            id as nat,
        ),
{
    match sent(r, i, removal(c, id as nat)) {
        RunView::Done(Ok(task), n) => {
            lemma_waited_reads(c, task, r, n);
        },
        _ => {},
    }
}

/// Everything that destroying a machine asks for, besides reading, is that this
/// machine be stopped and that it be deleted.
pub proof fn law_destroying_touches_only_that_machine(
    c: Config,
    id: u32,
    r: Seq<ReplyView>,
    i: int,
)
    ensures
        destroyed(c, id, r, i) matches RunView::Ask(q) ==> q.method is Get || q == stop_request(
            c,
            id as nat,
        ) || q == removal(c, id as nat),
{
    match existence(c, id, r, i) {
        RunView::Done(Ok(true), n) => match running(c, id, r, n) {
            RunView::Done(Ok(false), k) => {
                lemma_removed_asks(c, id, r, k);
            },
            RunView::Done(Ok(true), k) => {
                lemma_switched_asks(c, id, "/status/stop"@, r, k);
                match switched(c, id, "/status/stop"@, r, k) {
                    RunView::Done(Ok(_), m) => {
                        lemma_stopping_reads(c, id, reached(r, m), r, m, false);
                    },
                    _ => {},
                }
                match halted(c, id, r, k) {
                    RunView::Done(Ok(_), m) => {
                        lemma_removed_asks(c, id, r, m);
                    },
                    _ => {},
                }
            },
            _ => {},
        },
        _ => {},
    }
}

proof fn lemma_weighed_reads(
    c: Config,
    needs: Seq<(Seq<char>, u128)>,
    k: int,
    notes: Seq<Seq<char>>,
    r: Seq<ReplyView>,
    i: int,
)
    ensures
        only_reads(weighed(c, needs, k, notes, r, i)),
    decreases needs.len() - k,
{
    if k < needs.len() {
        lemma_weighed_reads(
            c,
            needs,
            k + 1,
            seq![crate::proxmox::room::silent(needs[k].0)],
            r,
            i + 1,
        );
        lemma_weighed_reads(c, needs, k + 1, Seq::empty(), r, i + 1);
    }
}

proof fn lemma_roomed_reads(
    c: Config,
    template: u32,
    gb: Option<u32>,
    r: Seq<ReplyView>,
    i: int,
)
    ensures
        only_reads(roomed(c, template, gb, r, i)),
{
    match sent(r, i, get(vm_path(c.node@, template as nat, "/config"@))) {
        RunView::Done(Ok(config), n) => {
            lemma_weighed_reads(
                c,
                crate::proxmox::room::session_needs(c, config, gb),
                0,
                crate::proxmox::room::price_notes(crate::proxmox::room::entries_in(config)),
                r,
                n,
            );
        },
        _ => {},
    }
}

/// The identifier that creating settles on, once the listing is known.
pub open spec fn new_id(c: Config, r: Seq<ReplyView>) -> Option<u32> {
    if r.len() > 0 && r[0].answer is Ok {
        lowest_free(held(r[0].answer->Ok_0), c.ids@.0 as int, c.ids@.1 as int)
    } else {
        None
    }
}

/// Besides reading, creating asks for four things only: the clone into a free
/// identifier inside the range, the new machine's settings, and, to clean up,
/// that the new machine be stopped and deleted. In particular it never starts
/// anything and never touches a machine that was there before.
pub proof fn law_creating_touches_only_the_new_machine(
    c: Config,
    req: CreateRequest,
    r: Seq<ReplyView>,
)
    requires
        created(c, req, r) matches RunView::Ask(q) && !(q.method is Get),
    ensures
        new_id(c, r) is Some,
        in_range(c.ids@, new_id(c, r)->0 as int),
        !taken(held(r[0].answer->Ok_0), new_id(c, r)->0),
        ({
            let q = created(c, req, r)->Ask_0;
            let id = new_id(c, r)->0 as nat;
            let template = checked(c.ids@, req.template@)->Ok_0 as nat;
            ||| exists|notes: Seq<Seq<char>>| q == #[trigger] clone_request(
                c,
                req,
                template,
                id,
                notes,
            )
            ||| q == settings_request(c, req, id)
            ||| q == stop_request(c, id)
            ||| q == removal(c, id)
        }),
{
    let template = checked(c.ids@, req.template@)->Ok_0;
    crate::proxmox::cluster::law_the_lowest_free_identifier_is_chosen(
        held(r[0].answer->Ok_0),
        c.ids@.0,
        c.ids@.1,
    );
    let id = new_id(c, r)->0;
    lemma_roomed_reads(c, template, req.data_disk_gb, r, 1);
    match roomed(c, template, req.data_disk_gb, r, 1) {
        RunView::Done(Ok(notes), k) => {
            let q = clone_request(c, req, template as nat, id as nat, notes);
            match sent(r, k, q) {
                RunView::Done(Ok(task), n) => {
                    lemma_waited_reads(c, task, r, n);
                    match waited(c, task, r, n) {
                        RunView::Done(Ok(_), m) => {
                            law_destroying_touches_only_that_machine(c, id, r, m + 1);
                        },
                        RunView::Done(Err(_), m) => {
                            law_destroying_touches_only_that_machine(c, id, r, m);
                        },
                        _ => {},
                    }
                },
                _ => {},
            }
        },
        _ => {},
    }
}

/// A machine is made as it was asked for: cloned in full from the template that
/// was named, into the pool that is configured; and then given, in one write to
/// its own configuration, the expiry, the cores, the memory in mebibytes and the
/// blank disk that were asked for. What is not asked for is left as the template
/// has it.
pub proof fn law_a_machine_is_made_as_asked(c: Config, req: CreateRequest, r: Seq<ReplyView>)
    requires
        created(c, req, r) is Ask,
    ensures
        ({
            let q = created(c, req, r)->Ask_0;
            let id = crate::text::dec(new_id(c, r)->0 as nat);
            let own = "/nodes/"@ + c.node@ + "/qemu/"@ + id;
            match q.method {
                Method::Get => true,
                Method::Post => {
                    ||| q.path == own + "/status/stop"@
                    ||| {
                        &&& checked(c.ids@, req.template@) matches Ok(template) && q.path
                            == "/nodes/"@ + c.node@ + "/qemu/"@ + crate::text::dec(template as nat)
                            + "/clone"@
                        &&& q.form.contains(("newid"@, id))
                        &&& q.form.contains(
                            ("name"@, crate::proxmox::names::hostname(req.name@)),
                        )
                        &&& q.form.contains(("pool"@, c.pool@))
                        &&& q.form.contains(("full"@, "1"@))
                    }
                },
                Method::Put => {
                    &&& q.path == own + "/config"@
                    &&& q.form.contains(("tags"@, tag_for(req.expires_at)))
                    &&& q.form.contains(("protection"@, "0"@))
                    &&& req.cores matches Some(n) ==> q.form.contains(
                        ("cores"@, crate::text::dec(n as nat)),
                    )
                    &&& req.ram_gb matches Some(n) ==> q.form.contains(
                        ("memory"@, crate::text::dec((n * 1024) as nat)),
                    )
                    &&& req.data_disk_gb matches Some(n) ==> (c.data_storage matches Some(s)
                        ==> q.form.contains(
                        (c.data_bus@, s@ + ":"@ + crate::text::dec(n as nat)),
                    ))
                    &&& forall|i: int|
                        0 <= i < q.form.len() ==> {
                            ||| (#[trigger] q.form[i]).0 == "tags"@
                            ||| q.form[i].0 == "protection"@
                            ||| q.form[i].0 == "cores"@ && req.cores is Some
                            ||| q.form[i].0 == "memory"@ && req.ram_gb is Some
                            ||| q.form[i].0 == c.data_bus@ && req.data_disk_gb is Some
                        }
                },
                Method::Delete => q.path == own + "?purge=1&destroy-unreferenced-disks=1"@,
            }
        }),
{
    let q = created(c, req, r)->Ask_0;
    if !(q.method is Get) {
        law_creating_touches_only_the_new_machine(c, req, r);
        let id = new_id(c, r)->0 as nat;
        let template = checked(c.ids@, req.template@)->Ok_0 as nat;
        if q.method is Put {
            let s = settings(c, req);
            assert(q == settings_request(c, req, id));
            assert(s[0] == ("tags"@, tag_for(req.expires_at)));
            assert(s[1] == ("protection"@, "0"@));
            let a = if req.cores is Some {
                1int
            } else {
                0
            };
            let b = if req.ram_gb is Some {
                1int
            } else {
                0
            };
            if req.cores is Some {
                assert(s[2] == ("cores"@, crate::text::dec(req.cores->0 as nat)));
            }
            if req.ram_gb is Some {
                assert(s[2 + a] == (
                    "memory"@,
                    crate::text::dec((req.ram_gb->0 * 1024) as nat),
                ));
            }
            if req.data_disk_gb is Some && c.data_storage is Some {
                assert(s[2 + a + b] == (
                    c.data_bus@,
                    c.data_storage->0@ + ":"@ + crate::text::dec(req.data_disk_gb->0 as nat),
                ));
            }
        } else if q.method is Post && q != stop_request(c, id) {
            let form = crate::proxmox::ops::clone_form(c, req, id);
            assert(q.form == form);
            assert(form[0] == ("newid"@, crate::text::dec(id)));
            assert(form[1] == ("name"@, crate::proxmox::names::hostname(req.name@)));
            assert(form[2] == ("pool"@, c.pool@));
            assert(form[3] == ("full"@, "1"@));
        }
    }
}

/// Starting and stopping a machine each ask for just that, of that machine.
pub proof fn law_starting_starts_and_stopping_stops(c: Config, machine: Seq<char>, r: Seq<ReplyView>)
    ensures
        started(c, machine, r) matches RunView::Ask(q) ==> q.method is Get || (q.method is Post && (
        checked(c.ids@, machine) matches Ok(id) && q.path == "/nodes/"@ + c.node@ + "/qemu/"@
            + crate::text::dec(id as nat) + "/status/start"@)),
        stopped(c, machine, r) matches RunView::Ask(q) ==> q.method is Get || (q.method is Post && (
        checked(c.ids@, machine) matches Ok(id) && q.path == "/nodes/"@ + c.node@ + "/qemu/"@
            + crate::text::dec(id as nat) + "/status/stop"@)),
{
    match checked(c.ids@, machine) {
        Ok(id) => {
            lemma_switched_asks(c, id, "/status/start"@, r, 0);
            lemma_switched_asks(c, id, "/status/stop"@, r, 0);
        },
        Err(_) => {},
    }
}

/// Moving an expiry, starting, stopping and asking for an address never delete
/// anything, whatever comes back -- a timeout among it.
pub proof fn law_only_destroying_deletes(
    c: Config,
    machine: Seq<char>,
    at: SystemTime,
    r: Seq<ReplyView>,
)
    ensures
        renewed(c, machine, at, r) matches RunView::Ask(q) ==> !(q.method is Delete),
        started(c, machine, r) matches RunView::Ask(q) ==> !(q.method is Delete),
        stopped(c, machine, r) matches RunView::Ask(q) ==> !(q.method is Delete),
        addressed(c, machine, r) matches RunView::Ask(q) ==> q.method is Get,
{
    match checked(c.ids@, machine) {
        Ok(id) => {
            lemma_switched_asks(c, id, "/status/start"@, r, 0);
            lemma_switched_asks(c, id, "/status/stop"@, r, 0);
        },
        Err(_) => {},
    }
}

// ---------------------------------------------------------------------------
// The expiry
// ---------------------------------------------------------------------------

/// The settings of a new machine start with its expiry, clear its protection,
/// and hold its blank disk where one is asked for.
pub proof fn law_settings_come_in_one_write(c: Config, req: CreateRequest)
    ensures
        settings(c, req)[0] == ("tags"@, tag_for(req.expires_at)),
        settings(c, req)[1] == ("protection"@, "0"@),
        req.data_disk_gb is Some && c.data_storage is Some ==> settings(c, req).last() == (
            c.data_bus@,
            c.data_storage->0@ + ":"@ + crate::text::dec(req.data_disk_gb->0 as nat),
        ),
        req.data_disk_gb is None ==> settings(c, req).len() == 2 + (if req.cores is Some {
            1int
        } else {
            0
        }) + (if req.ram_gb is Some {
            1int
        } else {
            0
        }),
{
}

/// The moment the clone has finished, the next thing asked for is its expiry.
pub proof fn law_the_expiry_follows_the_clone(
    c: Config,
    req: CreateRequest,
    template: u32,
    id: u32,
    notes: Seq<Seq<char>>,
    r: Seq<ReplyView>,
    i: int,
)
    requires
        0 <= i < r.len(),
        r[i].answer is Ok,
        waited(c, r[i].answer->Ok_0, r, i + 1) == RunView::<Answer<()>>::Done(Ok(()), r.len() as int),
    ensures
        cloned(c, req, template, id, notes, r, i) == RunView::<Answer<u32>>::Ask(
            settings_request(c, req, id as nat),
        ),
{
}

/// A clone whose outcome is unknown is left alone: nothing more is asked for.
pub proof fn law_a_timeout_destroys_nothing(
    c: Config,
    req: CreateRequest,
    template: u32,
    id: u32,
    notes: Seq<Seq<char>>,
    r: Seq<ReplyView>,
    i: int,
)
    requires
        0 <= i < r.len(),
        r[i].answer is Ok,
        waited(c, r[i].answer->Ok_0, r, i + 1) matches RunView::Done(Err(ProviderError::Timeout(_)), _),
    ensures
        cloned(c, req, template, id, notes, r, i) matches RunView::Done(Err(e), n) && e is Timeout,
{
}

/// A machine that could not be given its expiry is destroyed: what is asked
/// for from there on is what destroying asks for.
pub proof fn law_an_untagged_machine_is_destroyed(
    c: Config,
    req: CreateRequest,
    id: u32,
    r: Seq<ReplyView>,
    i: int,
)
    requires
        0 <= i < r.len(),
        r[i].answer is Err,
    ensures
        tagged(c, req, id, r, i) is Ask <==> destroyed(c, id, r, i + 1) is Ask,
        tagged(c, req, id, r, i) matches RunView::Ask(q) ==> destroyed(c, id, r, i + 1)
            == RunView::<Answer<()>>::Ask(q),
        !(tagged(c, req, id, r, i) matches RunView::Done(Ok(_), _)),
{
}

// An operation that has come to its end has not looked at any later reply.

proof fn lemma_polled_prefix(
    c: Config,
    task: Seq<char>,
    since: int,
    r: Seq<ReplyView>,
    i: int,
    failures: int,
    again: bool,
    k: int,
)
    requires
        0 <= i,
        0 <= k <= r.len(),
        polled(c, task, since, r, i, failures, again) matches RunView::Done(_, n) && n <= k,
    ensures
        i < k,
        polled(c, task, since, r, i, failures, again)->Done_1 > i,
        polled(c, task, since, r.take(k), i, failures, again) == polled(
            c,
            task,
            since,
            r,
            i,
            failures,
            again,
        ),
    decreases r.len() - i,
{
    let late = r[i].at - since >= c.task_timeout@;
    match r[i].answer {
        Err(e) => {
            if !(failures + 1 >= 3 || late) {
                lemma_polled_prefix(c, task, since, r, i + 1, failures + 1, true, k);
            }
        },
        Ok(data) => {
            if text_or_empty(data, "status"@) != "stopped"@ && !late {
                lemma_polled_prefix(c, task, since, r, i + 1, 0, true, k);
            }
        },
    }
    if i < k {
        assert(r.take(k)[i] == r[i]);
    }
}

proof fn lemma_waited_prefix(c: Config, task: JsonView, r: Seq<ReplyView>, i: int, k: int)
    requires
        0 < i <= k <= r.len(),
        waited(c, task, r, i) matches RunView::Done(_, n) && n <= k,
    ensures
        waited(c, task, r.take(k), i) == waited(c, task, r, i),
        waited(c, task, r, i)->Done_1 >= i,
{
    match crate::json::text_in(task) {
        Some(upid) => {
            assert(r.take(k)[i - 1] == r[i - 1]);
            lemma_polled_prefix(c, upid, reached(r, i), r, i, 0, false, k);
        },
        None => {},
    }
}

proof fn lemma_weighed_prefix(
    c: Config,
    needs: Seq<(Seq<char>, u128)>,
    s: int,
    notes: Seq<Seq<char>>,
    r: Seq<ReplyView>,
    i: int,
    k: int,
)
    requires
        0 <= i,
        0 <= k <= r.len(),
        weighed(c, needs, s, notes, r, i) matches RunView::Done(_, n) && n <= k,
    ensures
        weighed(c, needs, s, notes, r.take(k), i) == weighed(c, needs, s, notes, r, i),
        weighed(c, needs, s, notes, r, i)->Done_1 >= i,
    decreases needs.len() - s,
{
    if s < needs.len() {
        let silent = seq![crate::proxmox::room::silent(needs[s].0)];
        if crate::proxmox::room::reported(r[i].answer) is None {
            lemma_weighed_prefix(c, needs, s + 1, silent, r, i + 1, k);
        } else if weighed(c, needs, s + 1, Seq::empty(), r, i + 1) == weighed(
            c,
            needs,
            s,
            notes,
            r,
            i,
        ) {
            lemma_weighed_prefix(c, needs, s + 1, Seq::empty(), r, i + 1, k);
        }
        if i < k {
            assert(r.take(k)[i] == r[i]);
        }
    }
}

/// A machine is reported as made only when the write that gives it its expiry
/// was the last thing asked for, and was accepted.
pub proof fn law_a_made_machine_carries_its_expiry(c: Config, req: CreateRequest, r: Seq<ReplyView>)
    requires
        created(c, req, r) matches RunView::Done(Ok(_), _),
    ensures
        ({
            let id = created(c, req, r)->Done_0->Ok_0;
            let n = created(c, req, r)->Done_1;
            &&& in_range(c.ids@, id as int)
            &&& !taken(held(r[0].answer->Ok_0), id)
            &&& 0 < n <= r.len()
            &&& r[n - 1].answer is Ok
            &&& created(c, req, r.take(n - 1)) == RunView::<Answer<u32>>::Ask(
                settings_request(c, req, id as nat),
            )
        }),
{
    let template = checked(c.ids@, req.template@)->Ok_0;
    let n = created(c, req, r)->Done_1;
    let id = new_id(c, r)->0;
    crate::proxmox::cluster::law_the_lowest_free_identifier_is_chosen(
        held(r[0].answer->Ok_0),
        c.ids@.0,
        c.ids@.1,
    );
    let room = roomed(c, template, req.data_disk_gb, r, 1);
    let notes = room->Done_0->Ok_0;
    let k = room->Done_1;
    let config = r[1].answer->Ok_0;
    let needs = crate::proxmox::room::session_needs(c, config, req.data_disk_gb);
    let said = crate::proxmox::room::price_notes(crate::proxmox::room::entries_in(config));
    let task = r[k].answer->Ok_0;
    let m = waited(c, task, r, k + 1)->Done_1;
    assert(weighed(c, needs, 0, said, r, 2) == room);
    lemma_weighed_prefix(c, needs, 0, said, r, 2, r.len() as int);
    assert(k >= 2);
    assert(waited(c, task, r, k + 1) matches RunView::Done(Ok(_), _));
    lemma_waited_prefix(c, task, r, k + 1, r.len() as int);
    assert(n == m + 1);
    let short = r.take(n - 1);
    lemma_weighed_prefix(c, needs, 0, said, r, 2, n - 1);
    lemma_waited_prefix(c, task, r, k + 1, n - 1);
    assert(short[0] == r[0] && short[1] == r[1] && short[k] == r[k]);
    assert(roomed(c, template, req.data_disk_gb, short, 1) == room);
    assert(waited(c, task, short, k + 1) == waited(c, task, r, k + 1));
}

/// When an expiry is moved, what is written keeps every tag that is not an
/// expiry, in order, and ends with the new expiry.
pub proof fn law_renewal_preserves_every_other_tag(
    c: Config,
    machine: Seq<char>,
    at: SystemTime,
    r: Seq<ReplyView>,
)
    requires
        at@ <= crate::time::last_moment(),
        renewed(c, machine, at, r) matches RunView::Ask(q) && q.method is Put,
    ensures
        r.len() == 1,
        r[0].answer is Ok,
        ({
            let q = renewed(c, machine, at, r)->Ask_0;
            let existing = text_or_empty(r[0].answer->Ok_0, "tags"@);
            &&& q.form.len() == 1
            &&& q.form[0].0 == "tags"@
            &&& tags_of(q.form[0].1) == others(tags_of(existing)).push(tag_for(at))
        }),
{
    if r.len() > 0 && r[0].answer is Ok {
        let existing = text_or_empty(r[0].answer->Ok_0, "tags"@);
        crate::proxmox::tags::law_setting_an_expiry_preserves_every_other_tag(existing, at);
    }
}

// ---------------------------------------------------------------------------
// Destroying
// ---------------------------------------------------------------------------

proof fn lemma_stopping_ends_stopped(
    c: Config,
    id: u32,
    since: int,
    r: Seq<ReplyView>,
    i: int,
    again: bool,
)
    requires
        0 <= i,
        stopping(c, id, since, r, i, again) matches RunView::Done(Ok(_), _),
    ensures
        ({
            let n = stopping(c, id, since, r, i, again)->Done_1;
            &&& i < n <= r.len()
            &&& r[n - 1].answer is Ok
            &&& !running_in(r[n - 1].answer->Ok_0)
        }),
    decreases r.len() - i,
{
    if i < r.len() && r[i].answer is Ok && running_in(r[i].answer->Ok_0) {
        lemma_stopping_ends_stopped(c, id, since, r, i + 1, true);
    }
}

/// A machine is deleted only when the last thing heard of it is that it does
/// not run.
pub proof fn law_a_running_machine_is_stopped_before_it_is_deleted(
    c: Config,
    id: u32,
    r: Seq<ReplyView>,
    i: int,
)
    requires
        0 <= i,
        destroyed(c, id, r, i) matches RunView::Ask(q) && q.method is Delete,
    ensures
        r.len() > 0,
        r.last().answer is Ok,
        !running_in(r.last().answer->Ok_0),
{
    let n = existence(c, id, r, i)->Done_1;
    match running(c, id, r, n) {
        RunView::Done(Ok(false), k) => {
            lemma_removed_deletes_at_end(c, id, r, k);
        },
        RunView::Done(Ok(true), k) => {
            lemma_switched_asks(c, id, "/status/stop"@, r, k);
            let m = switched(c, id, "/status/stop"@, r, k)->Done_1;
            match switched(c, id, "/status/stop"@, r, k) {
                RunView::Done(Ok(_), m) => {
                    lemma_stopping_reads(c, id, reached(r, m), r, m, false);
                    lemma_switched_advances(c, id, "/status/stop"@, r, k);
                    if halted(c, id, r, k) matches RunView::Done(Ok(_), _) {
                        lemma_stopping_ends_stopped(c, id, reached(r, m), r, m, false);
                        lemma_removed_deletes_at_end(c, id, r, halted(c, id, r, k)->Done_1);
                    }
                },
                _ => {},
            }
        },
        _ => {},
    }
}

proof fn lemma_removed_deletes_at_end(c: Config, id: u32, r: Seq<ReplyView>, i: int)
    requires
        0 <= i <= r.len(),
        removed(c, id, r, i) matches RunView::Ask(q) && q.method is Delete,
    ensures
        i == r.len(),
{
    match sent(r, i, removal(c, id as nat)) {
        RunView::Done(Ok(task), n) => {
            lemma_waited_reads(c, task, r, n);
        },
        _ => {},
    }
}

proof fn lemma_switched_advances(c: Config, id: u32, rest: Seq<char>, r: Seq<ReplyView>, i: int)
    requires
        0 <= i,
        switched(c, id, rest, r, i) matches RunView::Done(Ok(_), _),
    ensures
        switched(c, id, rest, r, i)->Done_1 > i,
{
    let task = r[i].answer->Ok_0;
    let n = waited(c, task, r, i + 1)->Done_1;
    lemma_waited_end(c, task, r, i + 1);
}

proof fn lemma_waited_end(c: Config, task: JsonView, r: Seq<ReplyView>, i: int)
    requires
        0 < i,
        waited(c, task, r, i) matches RunView::Done(_, _),
    ensures
        waited(c, task, r, i)->Done_1 >= i,
{
    match crate::json::text_in(task) {
        Some(upid) => {
            lemma_polled_end(c, upid, reached(r, i), r, i, 0, false);
        },
        None => {},
    }
}

proof fn lemma_polled_end(
    c: Config,
    task: Seq<char>,
    since: int,
    r: Seq<ReplyView>,
    i: int,
    failures: int,
    again: bool,
)
    requires
        polled(c, task, since, r, i, failures, again) matches RunView::Done(_, _),
    ensures
        i < polled(c, task, since, r, i, failures, again)->Done_1 <= r.len(),
    decreases r.len() - i,
{
    let late = r[i].at - since >= c.task_timeout@;
    match r[i].answer {
        Err(e) => {
            if !(failures + 1 >= 3 || late) {
                lemma_polled_end(c, task, since, r, i + 1, failures + 1, true);
            }
        },
        Ok(data) => {
            if text_or_empty(data, "status"@) != "stopped"@ && !late {
                lemma_polled_end(c, task, since, r, i + 1, 0, true);
            }
        },
    }
}

/// A task is given up on only after three failed polls in a row, or when its
/// time is up: two failures and then an answer are absorbed.
pub proof fn law_a_blinking_api_does_not_fail_a_task(
    c: Config,
    task: Seq<char>,
    since: int,
    r: Seq<ReplyView>,
    i: int,
    again: bool,
)
    requires
        0 <= i,
        i + 1 < r.len(),
        r[i].answer is Err,
        r[i + 1].answer is Err,
        r[i].at - since < c.task_timeout@,
        r[i + 1].at - since < c.task_timeout@,
    ensures
        polled(c, task, since, r, i, 0, again) == polled(c, task, since, r, i + 2, 2, true),
{
    reveal_with_fuel(polled, 3);
}

// ---------------------------------------------------------------------------
// Diagnosing
// ---------------------------------------------------------------------------

proof fn lemma_templates_read(
    c: Config,
    items: Seq<JsonView>,
    groups: Seq<(Seq<char>, Seq<char>)>,
    k: int,
    p: ProgressView,
    r: Seq<ReplyView>,
    i: int,
)
    ensures
        only_reads(templates_judged(c, items, groups, k, p, r, i)),
    decreases groups.len() - k,
{
    if k < groups.len() {
        let whose = groups[k].1;
        match template_known(c, items, groups[k].0, whose) {
            Err(f) => {
                lemma_templates_read(
                    c,
                    items,
                    groups,
                    k + 1,
                    Progress { found: p.found.push(f), storages: p.storages },
                    r,
                    i,
                );
            },
            Ok(id) => match sent(r, i, get(vm_path(c.node@, id as nat, "/config"@))) {
                RunView::Ask(_) => {},
                RunView::Done(Ok(config), n) => {
                    let entries = crate::proxmox::room::entries_in(config);
                    lemma_templates_read(
                        c,
                        items,
                        groups,
                        k + 1,
                        Progress {
                            found: p.found.push(template_finding(id as nat, whose, entries)),
                            storages: largest(p.storages, entries),
                        },
                        r,
                        n,
                    );
                },
                RunView::Done(Err(e), n) => match disambiguated(id, e, r, n) {
                    RunView::Ask(_) => {},
                    RunView::Done(f, m) => {
                        lemma_templates_read(
                            c,
                            items,
                            groups,
                            k + 1,
                            Progress {
                                found: p.found.push(
                                    template_fail(
                                        "template "@ + crate::text::dec(id as nat) + " (guest "@
                                            + whose
                                            + "): its configuration could not be read: "@
                                            + crate::provider::error_text(f),
                                    ),
                                ),
                                storages: p.storages,
                            },
                            r,
                            m,
                        );
                    },
                },
            },
        }
    }
}

proof fn lemma_storages_read(
    c: Config,
    storages: Seq<(Seq<char>, u64)>,
    k: int,
    found: Found,
    r: Seq<ReplyView>,
    i: int,
)
    ensures
        only_reads(storages_judged(c, storages, k, found, r, i)),
    decreases storages.len() - k,
{
    if k < storages.len() && i < r.len() {
        let f = storage_finding(c, storages[k].0, storages[k].1, r[i].answer);
        lemma_storages_read(c, storages, k + 1, found.push(f), r, i + 1);
    }
}

/// A diagnosis only reads: it makes nothing, changes nothing and deletes
/// nothing.
pub proof fn law_a_diagnosis_only_reads(
    c: Config,
    guests: Seq<RegisteredGuest>,
    now: SystemTime,
    r: Seq<ReplyView>,
)
    ensures
        only_reads(diagnosed(c, guests, now, r)),
{
    if r.len() >= 2 && first_findings(c, r[0].answer).0 && r[1].answer is Ok {
        let items = held(r[1].answer->Ok_0);
        let found = first_findings(c, r[0].answer).1 + pool_findings(c, items, now);
        let start = Progress { found, storages: Seq::empty() };
        lemma_templates_read(c, items, grouped(guests), 0, start, r, 2);
        match templates_judged(c, items, grouped(guests), 0, start, r, 2) {
            RunView::Done(p, n) => {
                lemma_storages_read(
                    c,
                    all_storages(c, p.storages),
                    0,
                    p.found + no_data_storage(c),
                    r,
                    n,
                );
            },
            _ => {},
        }
    }
}

proof fn lemma_hygiene_labels(c: Config, items: Seq<JsonView>, now: SystemTime)
    requires
        !any_expired(c, items, now),
    ensures
        forall|i: int|
            0 <= i < all_hygiene(c, items, now).len() ==> (#[trigger] all_hygiene(
                c,
                items,
                now,
            )[i]).label != "sweeper"@,
    decreases items.len(),
{
    if items.len() > 0 {
        let front = items.drop_last();
        assert(!any_expired(c, front, now)) by {
            assert(forall|i: int| 0 <= i < front.len() ==> front[i] == items[i]);
        }
        lemma_hygiene_labels(c, front, now);
        reveal_strlit("sweeper");
        reveal_strlit("pool hygiene");
        assert("sweeper"@[0] != "pool hygiene"@[0]);
        let last = items[items.len() - 1];
        assert(!(swept(c, last) && expired(last, now)));
        let all = all_hygiene(c, items, now);
        let before = all_hygiene(c, front, now);
        assert forall|i: int| 0 <= i < all.len() implies (#[trigger] all[i]).label
            != "sweeper"@ by {
            if i < before.len() {
                assert(all[i] == before[i]);
            } else {
                assert(all[i] == hygiene(c, last, now)[i - before.len()]);
            }
        }
    }
}

/// Where no expired machine is to be seen, nothing vouches for the sweeper: all
/// that is said of it is a warning.
pub proof fn law_an_unexercised_sweeper_is_a_warning(
    c: Config,
    items: Seq<JsonView>,
    now: SystemTime,
)
    requires
        !any_expired(c, items, now),
    ensures
        pool_findings(c, items, now).last() == no_evidence(),
        forall|i: int|
            0 <= i < pool_findings(c, items, now).len() && (#[trigger] pool_findings(
                c,
                items,
                now,
            )[i]).label == "sweeper"@ ==> pool_findings(c, items, now)[i].health is Warn,
{
    lemma_hygiene_labels(c, items, now);
    reveal_strlit("sweeper");
    reveal_strlit("pool");
    assert("sweeper"@[0] != "pool"@[0]);
    let all = pool_findings(c, items, now);
    let middle = all_hygiene(c, items, now);
    assert forall|i: int| 0 <= i < all.len() && (#[trigger] all[i]).label
        == "sweeper"@ implies all[i].health is Warn by {
        if 1 <= i < 1 + middle.len() {
            assert(all[i] == middle[i - 1]);
        }
    }
}

}
