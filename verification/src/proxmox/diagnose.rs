//! Judging everything a session would need.
//!
//! Staged deliberately: on a pool-scoped token the ACL check precedes the
//! existence check, so one bad credential yields refusals on everything
//! downstream. The stages that depend on a failed one report "skipped" rather
//! than piling on findings that all mean the same broken thing.
use vstd::prelude::*;
use vstd::string::*;

use crate::dict::{find, lemma_mapped_find, lemma_mapped_place, place, text_pairs, Dict};
use crate::json::{items_view, lemma_items, lemma_members, text_at, uint_at, Json, JsonView};
use crate::provider::{
    error_text, Finding, Health, MachineRef, ProviderError, RegisteredGuest,
};
use crate::proxmox::api::{
    answer, ask_get, ask_listing, get, json_answer, listing_request, path_to_storage, path_to_vm,
    replies_view, send, sent, storage_path, vm_path, within, Answer, Reply, ReplyView, Run,
    RunView,
};
use crate::proxmox::cluster::{
    held, is_template, items_of, template_item, text_or_empty, text_or_none, vmid, vmid_of,
};
use crate::proxmox::config::{Config, Tls};
use crate::proxmox::disks::{disk_storage_and_size, gib, gib_text, is_disk_key, priced, GIB};
use crate::proxmox::ids::{checked, in_range, range_text};
use crate::proxmox::room::{disk_spec, entries_in, floor_of, unpriced};
use crate::proxmox::tags::{expiry_at, expiry_moment};
use crate::proxmox::tasks::{disambiguate, disambiguated};
use crate::scan::holds;
use crate::text::{dec, decimal, join, join_text, same, texts};
use crate::time::SystemTime;

verus! {

pub type Found = Seq<Finding<Seq<char>>>;

pub open spec fn finding(label: Seq<char>, health: Health, detail: Seq<char>) -> Finding<
    Seq<char>,
> {
    Finding { label, health, detail }
}

pub open spec fn findings_view(v: Seq<Finding>) -> Found {
    v.map_values(|f: Finding| f@)
}

fn push(out: &mut Vec<Finding>, label: &str, health: Health, detail: String)
    ensures
        findings_view(final(out)@) == findings_view(old(out)@).push(
            finding(label@, health, detail@),
        ),
{
    let f = Finding { label: label.to_string(), health, detail };
    out.push(f);
    assert(findings_view(out@) =~= findings_view(old(out)@).push(f@));
}

// ---------------------------------------------------------------------------
// The API and the credential
// ---------------------------------------------------------------------------

pub open spec fn skipped(label: Seq<char>, what: Seq<char>) -> Finding<Seq<char>> {
    finding(label, Health::Warn, "skipped: "@ + what)
}

/// What the first question found: whether to go on, and what to report.
pub open spec fn first_findings(c: Config, a: Answer<JsonView>) -> (bool, Found) {
    match a {
        Ok(v) => (
            true,
            seq![
                finding(
                    "api"@,
                    Health::Fine,
                    c.api@ + " answers (version "@ + (match text_at(v, "version"@) {
                        Some(s) => s,
                        None => "?"@,
                    }) + ") and accepts the credential"@,
                ),
            ],
        ),
        Err(ProviderError::Unauthorized(m)) => (
            false,
            seq![
                finding(
                    "api"@,
                    Health::Fail,
                    c.api@ + " answers but refuses the credential: "@ + m,
                ),
                skipped("pool and sweeper"@, "the credential is refused"@),
                skipped("templates"@, "the credential is refused"@),
                skipped("storage"@, "the credential is refused"@),
            ],
        ),
        Err(e) => (
            false,
            seq![
                finding(
                    "api"@,
                    Health::Fail,
                    c.api@ + " did not answer: "@ + error_text(e)
                        + ". Nothing past this point could be checked"@,
                ),
                skipped("pool and sweeper"@, "the API is unreachable"@),
                skipped("templates"@, "the API is unreachable"@),
                skipped("storage"@, "the API is unreachable"@),
            ],
        ),
    }
}

fn skip(out: &mut Vec<Finding>, what: &str)
    ensures
        findings_view(final(out)@) == findings_view(old(out)@) + seq![
            skipped("pool and sweeper"@, what@),
            skipped("templates"@, what@),
            skipped("storage"@, what@),
        ],
{
    push(out, "pool and sweeper", Health::Warn, "skipped: ".to_string().concat(what));
    push(out, "templates", Health::Warn, "skipped: ".to_string().concat(what));
    push(out, "storage", Health::Warn, "skipped: ".to_string().concat(what));
    assert(findings_view(out@) =~= findings_view(old(out)@) + seq![
        skipped("pool and sweeper"@, what@),
        skipped("templates"@, what@),
        skipped("storage"@, what@),
    ]);
}

fn judge_api(c: &Config, a: &Result<Json, ProviderError>) -> (r: (bool, Vec<Finding>))
    ensures
        (r.0, findings_view(r.1@)) == first_findings(*c, json_answer(*a)),
{
    let mut out: Vec<Finding> = Vec::new();
    assert(findings_view(out@) =~= Seq::empty());
    match a {
        Ok(v) => {
            let version = match v.get_text("version") {
                Some(s) => s.clone(),
                None => "?".to_string(),
            };
            push(
                &mut out,
                "api",
                Health::Fine,
                c.api.clone().concat(" answers (version ").concat(version.as_str()).concat(
                    ") and accepts the credential",
                ),
            );
            assert(findings_view(out@) =~= first_findings(*c, json_answer(*a)).1);
            (true, out)
        },
        Err(e) => {
            match e {
                ProviderError::Unauthorized(m) => {
                    push(
                        &mut out,
                        "api",
                        Health::Fail,
                        c.api.clone().concat(" answers but refuses the credential: ").concat(
                            m.as_str(),
                        ),
                    );
                    skip(&mut out, "the credential is refused");
                },
                _ => {
                    push(
                        &mut out,
                        "api",
                        Health::Fail,
                        c.api.clone().concat(" did not answer: ").concat(
                            e.message().as_str(),
                        ).concat(". Nothing past this point could be checked"),
                    );
                    skip(&mut out, "the API is unreachable");
                },
            }
            assert(findings_view(out@) =~= first_findings(*c, json_answer(*a)).1);
            (false, out)
        },
    }
}

// ---------------------------------------------------------------------------
// The pool
// ---------------------------------------------------------------------------

pub open spec fn in_pool(c: Config, item: JsonView) -> bool {
    text_at(item, "pool"@) == Some(c.pool@)
}

/// How many of the listed machines are in the pool.
pub open spec fn pool_size(c: Config, items: Seq<JsonView>) -> nat
    decreases items.len(),
{
    if items.len() == 0 {
        0
    } else {
        pool_size(c, items.drop_last()) + (if in_pool(c, items.last()) {
            1nat
        } else {
            0nat
        })
    }
}

pub open spec fn pool_finding(c: Config, size: nat) -> Finding<Seq<char>> {
    if size == 0 {
        finding(
            "pool"@,
            Health::Fail,
            "pool "@ + c.pool@
                + " has no members visible to this token -- either it does not exist, it is empty of even templates, or the token cannot see it"@,
        )
    } else {
        finding(
            "pool"@,
            Health::Fine,
            "pool "@ + c.pool@ + " is visible with "@ + dec(size) + " member(s)"@,
        )
    }
}

pub open spec fn named(item: JsonView) -> Seq<char> {
    match text_at(item, "name"@) {
        Some(s) => s,
        None => "?"@,
    }
}

/// The machine's expiry has passed.
pub open spec fn expired(item: JsonView, now: SystemTime) -> bool {
    expiry_moment(text_or_empty(item, "tags"@)) matches Some(at) && at@ <= now@
}

/// A machine in the pool that the sweeper is answerable for: it has an
/// identifier in the range and is no template.
pub open spec fn swept(c: Config, item: JsonView) -> bool {
    &&& in_pool(c, item)
    &&& vmid(item) is Some
    &&& !is_template(item)
    &&& in_range(c.ids@, vmid(item)->0 as int)
}

/// What is found about one listed machine.
pub open spec fn hygiene(c: Config, item: JsonView, now: SystemTime) -> Found {
    if !in_pool(c, item) || vmid(item) is None || is_template(item) {
        Seq::empty()
    } else {
        let who = dec(vmid(item)->0 as nat) + " ("@ + named(item);
        if !in_range(c.ids@, vmid(item)->0 as int) {
            seq![
                finding(
                    "pool hygiene"@,
                    Health::Warn,
                    who + ") is in pool "@ + c.pool@ + " but outside "@ + range_text(c.ids@)
                        + " -- the sweeper refuses to touch it by design, so it is somebody's by hand"@,
                ),
            ]
        } else {
            match expiry_moment(text_or_empty(item, "tags"@)) {
                None => seq![
                    finding(
                        "pool hygiene"@,
                        Health::Warn,
                        who
                            + ") carries no expiry tag: nothing will ever collect it, and it wants a human"@,
                    ),
                ],
                Some(at) => if at@ > now@ {
                    Seq::empty()
                } else if now@ - at@ > c.sweep_within@ {
                    seq![
                        finding(
                            "sweeper"@,
                            Health::Fail,
                            who + ") expired "@ + dec(((now@ - at@) / 1_000_000_000) as nat)
                                + "s ago and is still here, which is longer than sweep_within allows: the sweeper does not appear to be collecting"@,
                        ),
                    ]
                } else {
                    seq![
                        finding(
                            "sweeper"@,
                            Health::Fine,
                            who + ") is expired and inside the "@ + dec(
                                (c.sweep_within@ / 1_000_000_000) as nat,
                            ) + "s sweep_within window; the sweeper has time"@,
                        ),
                    ]
                },
            }
        }
    }
}

pub open spec fn all_hygiene(c: Config, items: Seq<JsonView>, now: SystemTime) -> Found
    decreases items.len(),
{
    if items.len() == 0 {
        Seq::empty()
    } else {
        all_hygiene(c, items.drop_last(), now) + hygiene(c, items.last(), now)
    }
}

pub open spec fn any_expired(c: Config, items: Seq<JsonView>, now: SystemTime) -> bool {
    exists|i: int|
        0 <= i < items.len() && swept(c, #[trigger] items[i]) && expired(items[i], now)
}

pub open spec fn no_evidence() -> Finding<Seq<char>> {
    finding(
        "sweeper"@,
        Health::Warn,
        "no expired machine is present, so there is no evidence the sweeper works -- and none that it does not. Only a canary can answer this on a clean pool"@,
    )
}

/// What the listing says about the pool and the sweeper.
pub open spec fn pool_findings(c: Config, items: Seq<JsonView>, now: SystemTime) -> Found {
    seq![pool_finding(c, pool_size(c, items))] + all_hygiene(c, items, now) + (if any_expired(
        c,
        items,
        now,
    ) {
        Seq::empty()
    } else {
        seq![no_evidence()]
    })
}

fn is_in_pool(c: &Config, item: &Json) -> (r: bool)
    ensures
        r == in_pool(*c, item@),
{
    match item.get_text("pool") {
        Some(p) => same(p.as_str(), c.pool.as_str()),
        None => false,
    }
}

/// What is found about one listed machine, and whether it is one that the
/// sweeper should have an eye on.
fn judge_item(c: &Config, item: &Json, now: &SystemTime) -> (r: (Vec<Finding>, bool))
    ensures
        findings_view(r.0@) == hygiene(*c, item@, *now),
        r.1 == (swept(*c, item@) && expired(item@, *now)),
{
    let mut out: Vec<Finding> = Vec::new();
    assert(findings_view(out@) =~= Seq::empty());
    if !is_in_pool(c, item) || template_item(item) {
        return (out, false);
    }
    let id: u32 = match vmid_of(item) {
        Some(id) => id,
        None => {
            return (out, false);
        },
    };
    let name = match item.get_text("name") {
        Some(s) => s.clone(),
        None => "?".to_string(),
    };
    let who = decimal(id as u64).concat(" (").concat(name.as_str());
    if !c.ids.contains(id) {
        push(
            &mut out,
            "pool hygiene",
            Health::Warn,
            who.concat(") is in pool ").concat(c.pool.as_str()).concat(" but outside ").concat(
                c.ids.text().as_str(),
            ).concat(
                " -- the sweeper refuses to touch it by design, so it is somebody's by hand",
            ),
        );
        assert(findings_view(out@) =~= hygiene(*c, item@, *now));
        return (out, false);
    }
    match expiry_at(text_or_none(item, "tags").as_str()) {
        None => {
            push(
                &mut out,
                "pool hygiene",
                Health::Warn,
                who.concat(
                    ") carries no expiry tag: nothing will ever collect it, and it wants a human",
                ),
            );
            assert(findings_view(out@) =~= hygiene(*c, item@, *now));
            (out, false)
        },
        Some(at) => match now.duration_since(&at) {
            None => (out, false),
            Some(past) => {
                past.bounds();
                if c.sweep_within.shorter_than(&past) {
                    push(
                        &mut out,
                        "sweeper",
                        Health::Fail,
                        who.concat(") expired ").concat(decimal(past.as_secs()).as_str()).concat(
                            "s ago and is still here, which is longer than sweep_within allows: the sweeper does not appear to be collecting",
                        ),
                    );
                } else {
                    push(
                        &mut out,
                        "sweeper",
                        Health::Fine,
                        who.concat(") is expired and inside the ").concat(
                            decimal(c.sweep_within.as_secs()).as_str(),
                        ).concat("s sweep_within window; the sweeper has time"),
                    );
                }
                assert(findings_view(out@) =~= hygiene(*c, item@, *now));
                (out, true)
            },
        },
    }
}

fn judge_pool(c: &Config, items: &Vec<Json>, now: &SystemTime) -> (r: Vec<Finding>)
    ensures
        findings_view(r@) == pool_findings(*c, items_view(items@), *now),
{
    let ghost all = items_view(items@);
    proof {
        lemma_items(items@);
    }
    let mut size: u64 = 0;
    let mut hygiene_found: Vec<Finding> = Vec::new();
    let mut seen: bool = false;
    let mut i: usize = 0;
    assert(findings_view(hygiene_found@) =~= Seq::empty());
    while i < items.len()
        invariant
            i <= items@.len(),
            all.len() == items@.len(),
            forall|j: int| 0 <= j < items@.len() ==> #[trigger] all[j] == items@[j]@,
            size == pool_size(*c, all.take(i as int)),
            size <= i,
            findings_view(hygiene_found@) == all_hygiene(*c, all.take(i as int), *now),
            seen == (exists|j: int|
                0 <= j < i && swept(*c, #[trigger] all[j]) && expired(all[j], *now)),
        decreases items@.len() - i,
    {
        let ghost was = hygiene_found@;
        assert(all.take(i + 1).drop_last() =~= all.take(i as int));
        assert(all.take(i + 1).last() == all[i as int]);
        if is_in_pool(c, &items[i]) {
            size += 1;
        }
        let (mut more, hit) = judge_item(c, &items[i], now);
        let ghost added = more@;
        hygiene_found.append(&mut more);
        assert(hygiene_found@ =~= was + added);
        assert(findings_view(hygiene_found@) =~= findings_view(was) + findings_view(added));
        proof {
            if hit {
                assert(swept(*c, all[i as int]));
            }
        }
        seen = seen || hit;
        i += 1;
    }
    assert(all.take(items@.len() as int) =~= all);
    let mut out: Vec<Finding> = Vec::new();
    assert(findings_view(out@) =~= Seq::empty());
    if size == 0 {
        push(
            &mut out,
            "pool",
            Health::Fail,
            "pool ".to_string().concat(c.pool.as_str()).concat(
                " has no members visible to this token -- either it does not exist, it is empty of even templates, or the token cannot see it",
            ),
        );
    } else {
        push(
            &mut out,
            "pool",
            Health::Fine,
            "pool ".to_string().concat(c.pool.as_str()).concat(" is visible with ").concat(
                decimal(size).as_str(),
            ).concat(" member(s)"),
        );
    }
    let ghost first = out@;
    let ghost middle = hygiene_found@;
    out.append(&mut hygiene_found);
    assert(findings_view(out@) =~= findings_view(first) + findings_view(middle));
    if !seen {
        push(
            &mut out,
            "sweeper",
            Health::Warn,
            "no expired machine is present, so there is no evidence the sweeper works -- and none that it does not. Only a canary can answer this on a clean pool".to_string(),
        );
    }
    assert(findings_view(out@) =~= pool_findings(*c, all, *now));
    out
}

// ---------------------------------------------------------------------------
// The templates
// ---------------------------------------------------------------------------

/// Each template that some guest is registered for, with the guests' names, in
/// the order of the templates.
pub open spec fn grouped(guests: Seq<RegisteredGuest>) -> Seq<(Seq<char>, Seq<char>)>
    decreases guests.len(),
{
    if guests.len() == 0 {
        Seq::empty()
    } else {
        let before = grouped(guests.drop_last());
        let g = guests.last();
        place(
            before,
            g.template@,
            match find(before, g.template@) {
                Some(names) => names + ", "@ + g.name@,
                None => g.name@,
            },
        )
    }
}

fn group(guests: &Vec<RegisteredGuest>) -> (r: Dict<String>)
    ensures
        text_pairs(r@) == grouped(guests@),
{
    let mut d: Dict<String> = Dict::new();
    assert(text_pairs(d@) =~= Seq::empty());
    let mut i: usize = 0;
    while i < guests.len()
        invariant
            i <= guests@.len(),
            text_pairs(d@) == grouped(guests@.take(i as int)),
        decreases guests@.len() - i,
    {
        assert(guests@.take(i + 1).drop_last() =~= guests@.take(i as int));
        let g = &guests[i];
        let names = match d.get(g.template.as_str()) {
            Some(names) => names.clone().concat(", ").concat(g.name.as_str()),
            None => g.name.clone(),
        };
        proof {
            lemma_mapped_find(d@, |s: String| s@, g.template@);
            lemma_mapped_place(d@, |s: String| s@, g.template@, names);
        }
        d.insert(g.template.clone(), names);
        i += 1;
    }
    assert(guests@.take(guests@.len() as int) =~= guests@);
    d
}

/// The first listed machine with exactly this identifier.
pub open spec fn listed_as(items: Seq<JsonView>, id: u64) -> Option<JsonView>
    decreases items.len(),
{
    if items.len() == 0 {
        None
    } else if uint_at(items[0], "vmid"@) == Some(id) {
        Some(items[0])
    } else {
        listed_as(items.skip(1), id)
    }
}

pub open spec fn template_fail(detail: Seq<char>) -> Finding<Seq<char>> {
    finding("template"@, Health::Fail, detail)
}

/// What the range and the listing say about a template: why it cannot be used,
/// or the identifier under which to read its configuration.
pub open spec fn template_known(
    c: Config,
    items: Seq<JsonView>,
    template: Seq<char>,
    whose: Seq<char>,
) -> Result<u32, Finding<Seq<char>>> {
    match checked(c.ids@, template) {
        Err(e) => Err(
            template_fail(
                "template "@ + template + " (guest "@ + whose + ") is not usable: "@ + error_text(e),
            ),
        ),
        Ok(id) => match listed_as(items, id as u64) {
            None => Err(
                template_fail(
                    "template "@ + dec(id as nat) + " (guest "@ + whose
                        + ") does not exist on the cluster"@,
                ),
            ),
            Some(item) => if !is_template(item) {
                Err(
                    template_fail(
                        dec(id as nat) + " (guest "@ + whose
                            + ") exists but is not a template -- a clone would copy a machine somebody may be using"@,
                    ),
                )
            } else {
                Ok(id)
            },
        },
    }
}

/// How many disks of a machine can be priced.
pub open spec fn priced_count(entries: Seq<(Seq<char>, JsonView)>) -> nat
    decreases entries.len(),
{
    if entries.len() == 0 {
        0
    } else {
        priced_count(entries.drop_last()) + (match disk_spec(entries.last()) {
            Some(s) => if priced(s) is Some {
                1nat
            } else {
                0nat
            },
            None => 0nat,
        })
    }
}

/// The disks of a machine that cannot be priced.
pub open spec fn unpriced_keys(entries: Seq<(Seq<char>, JsonView)>) -> Seq<Seq<char>>
    decreases entries.len(),
{
    if entries.len() == 0 {
        Seq::empty()
    } else {
        let before = unpriced_keys(entries.drop_last());
        match disk_spec(entries.last()) {
            Some(s) => if unpriced(s) {
                before.push(entries.last().0)
            } else {
                before
            },
            None => before,
        }
    }
}

/// The storages with the largest disk that a clone would put on each.
pub open spec fn largest(
    storages: Seq<(Seq<char>, u64)>,
    entries: Seq<(Seq<char>, JsonView)>,
) -> Seq<(Seq<char>, u64)>
    decreases entries.len(),
{
    if entries.len() == 0 {
        storages
    } else {
        let before = largest(storages, entries.drop_last());
        match disk_spec(entries.last()) {
            Some(s) => match priced(s) {
                Some((storage, bytes)) => place(
                    before,
                    storage,
                    match find(before, storage) {
                        Some(n) => if n >= bytes {
                            n
                        } else {
                            bytes as u64
                        },
                        None => bytes as u64,
                    },
                ),
                None => before,
            },
            None => before,
        }
    }
}

/// What a template's configuration says about it.
pub open spec fn template_finding(
    id: nat,
    whose: Seq<char>,
    entries: Seq<(Seq<char>, JsonView)>,
) -> Finding<Seq<char>> {
    let start = "template "@ + dec(id) + " (guest "@ + whose;
    let disks = priced_count(entries);
    let without = unpriced_keys(entries);
    if disks == 0 {
        template_fail(start + ") has no priceable disk: a clone of it would boot nothing"@)
    } else if without.len() > 0 {
        finding(
            "template"@,
            Health::Warn,
            start + "): "@ + dec(disks) + " disk(s) priceable, but "@ + join(without, ", "@)
                + " could not be priced and will not count toward room checks"@,
        )
    } else {
        finding(
            "template"@,
            Health::Fine,
            start + ") exists, is a template, and its "@ + dec(disks) + " disk(s) price cleanly"@,
        )
    }
}

pub struct Progress<F, S> {
    pub found: F,
    pub storages: S,
}

pub type ProgressView = Progress<Found, Seq<(Seq<char>, u64)>>;

/// Judging the templates one by one, from the `k`th on.
pub open spec fn templates_judged(
    c: Config,
    items: Seq<JsonView>,
    groups: Seq<(Seq<char>, Seq<char>)>,
    k: int,
    p: ProgressView,
    r: Seq<ReplyView>,
    i: int,
) -> RunView<ProgressView>
    decreases groups.len() - k,
{
    if k >= groups.len() {
        RunView::Done(p, i)
    } else {
        let whose = groups[k].1;
        match template_known(c, items, groups[k].0, whose) {
            Err(f) => templates_judged(
                c,
                items,
                groups,
                k + 1,
                Progress { found: p.found.push(f), storages: p.storages },
                r,
                i,
            ),
            Ok(id) => match sent(r, i, get(vm_path(c.node@, id as nat, "/config"@))) {
                RunView::Ask(q) => RunView::Ask(q),
                RunView::Done(Ok(config), n) => templates_judged(
                    c,
                    items,
                    groups,
                    k + 1,
                    Progress {
                        found: p.found.push(
                            template_finding(id as nat, whose, entries_in(config)),
                        ),
                        storages: largest(p.storages, entries_in(config)),
                    },
                    r,
                    n,
                ),
                RunView::Done(Err(e), n) => match disambiguated(id, e, r, n) {
                    RunView::Ask(q) => RunView::Ask(q),
                    RunView::Done(f, m) => templates_judged(
                        c,
                        items,
                        groups,
                        k + 1,
                        Progress {
                            found: p.found.push(
                                template_fail(
                                    "template "@ + dec(id as nat) + " (guest "@ + whose
                                        + "): its configuration could not be read: "@
                                        + error_text(f),
                                ),
                            ),
                            storages: p.storages,
                        },
                        r,
                        m,
                    ),
                },
            },
        }
    }
}

fn find_listed(items: &Vec<Json>, id: u32) -> (r: Option<usize>)
    ensures
        match r {
            Some(i) => i < items@.len() && listed_as(items_view(items@), id as u64) == Some(
                items@[i as int]@,
            ),
            None => listed_as(items_view(items@), id as u64) is None,
        },
{
    let ghost all = items_view(items@);
    proof {
        lemma_items(items@);
        assert(all.skip(0) =~= all);
    }
    let mut i: usize = 0;
    while i < items.len()
        invariant
            i <= items@.len(),
            all == items_view(items@),
            all.len() == items@.len(),
            forall|j: int| 0 <= j < items@.len() ==> #[trigger] all[j] == items@[j]@,
            listed_as(all, id as u64) == listed_as(all.skip(i as int), id as u64),
        decreases items@.len() - i,
    {
        assert(all.skip(i as int)[0] == all[i as int]);
        match items[i].get_uint("vmid") {
            Some(n) => {
                if n == id as u64 {
                    return Some(i);
                }
            },
            None => {},
        }
        assert(all.skip(i as int).skip(1) =~= all.skip(i + 1));
        i += 1;
    }
    None
}

fn know_template(c: &Config, items: &Vec<Json>, template: &str, whose: &str) -> (r: Result<
    u32,
    Finding,
>)
    ensures
        match r {
            Ok(id) => template_known(*c, items_view(items@), template@, whose@) == Ok::<
                u32,
                Finding<Seq<char>>,
            >(id),
            Err(f) => template_known(*c, items_view(items@), template@, whose@) == Err::<
                u32,
                Finding<Seq<char>>,
            >(f@),
        },
{
    let id: u32 = match c.ids.check(&MachineRef::new(template)) {
        Ok(id) => id,
        Err(e) => {
            return Err(
                Finding {
                    label: "template".to_string(),
                    health: Health::Fail,
                    detail: "template ".to_string().concat(template).concat(" (guest ").concat(
                        whose,
                    ).concat(") is not usable: ").concat(e.message().as_str()),
                },
            );
        },
    };
    match find_listed(items, id) {
        None => Err(
            Finding {
                label: "template".to_string(),
                health: Health::Fail,
                detail: "template ".to_string().concat(decimal(id as u64).as_str()).concat(
                    " (guest ",
                ).concat(whose).concat(") does not exist on the cluster"),
            },
        ),
        Some(i) => if !template_item(&items[i]) {
            Err(
                Finding {
                    label: "template".to_string(),
                    health: Health::Fail,
                    detail: decimal(id as u64).concat(" (guest ").concat(whose).concat(
                        ") exists but is not a template -- a clone would copy a machine somebody may be using",
                    ),
                },
            )
        } else {
            Ok(id)
        },
    }
}

/// What a template's configuration says about it, with the storages brought up
/// to date.
fn judge_config(id: u32, whose: &str, config: &Json, storages: &mut Dict<u64>) -> (r: Finding)
    ensures
        r@ == template_finding(id as nat, whose@, entries_in(config@)),
        final(storages)@ == largest(old(storages)@, entries_in(config@)),
{
    let mut disks: u64 = 0;
    let mut without: Vec<String> = Vec::new();
    let ghost was = storages@;
    let ghost entries = entries_in(config@);
    assert(texts(without@) =~= Seq::empty());
    match config.as_members() {
        None => {},
        Some(members) => {
            proof {
                lemma_members(members@);
            }
            let mut i: usize = 0;
            assert(entries.take(0) =~= Seq::empty());
            while i < members.len()
                invariant
                    i <= members@.len(),
                    entries.len() == members@.len(),
                    forall|j: int|
                        0 <= j < members@.len() ==> #[trigger] entries[j] == (
                            members@[j].0@,
                            members@[j].1@,
                        ),
                    disks == priced_count(entries.take(i as int)),
                    disks <= i,
                    texts(without@) == unpriced_keys(entries.take(i as int)),
                    storages@ == largest(was, entries.take(i as int)),
                decreases members@.len() - i,
            {
                let ghost more = entries.take(i + 1);
                let ghost before = without@;
                assert(more.drop_last() =~= entries.take(i as int));
                assert(more.last() == entries[i as int]);
                let key = &members[i].0;
                if is_disk_key(key.as_str()) {
                    match members[i].1.as_text() {
                        None => {},
                        Some(spec) => match disk_storage_and_size(spec.as_str()) {
                            Some((storage, bytes)) => {
                                disks += 1;
                                let most: u64 = match storages.get(storage.as_str()) {
                                    Some(n) => if *n >= bytes {
                                        *n
                                    } else {
                                        bytes
                                    },
                                    None => bytes,
                                };
                                storages.insert(storage, most);
                            },
                            None => {
                                if !holds(spec.as_str(), "media=cdrom") {
                                    without.push(key.clone());
                                    assert(texts(without@) =~= texts(before).push(key@));
                                }
                            },
                        },
                    }
                }
                i += 1;
            }
            assert(entries.take(members@.len() as int) =~= entries);
        },
    }
    let start = "template ".to_string().concat(decimal(id as u64).as_str()).concat(
        " (guest ",
    ).concat(whose);
    assert(texts(without@).len() == without@.len());
    if disks == 0 {
        Finding {
            label: "template".to_string(),
            health: Health::Fail,
            detail: start.concat(") has no priceable disk: a clone of it would boot nothing"),
        }
    } else if without.len() > 0 {
        Finding {
            label: "template".to_string(),
            health: Health::Warn,
            detail: start.concat("): ").concat(decimal(disks).as_str()).concat(
                " disk(s) priceable, but ",
            ).concat(join_text(&without, ", ").as_str()).concat(
                " could not be priced and will not count toward room checks",
            ),
        }
    } else {
        Finding {
            label: "template".to_string(),
            health: Health::Fine,
            detail: start.concat(") exists, is a template, and its ").concat(
                decimal(disks).as_str(),
            ).concat(" disk(s) price cleanly"),
        }
    }
}

pub open spec fn progress_run(r: Run<Progress<Vec<Finding>, Dict<u64>>>) -> RunView<ProgressView> {
    match r {
        Run::Ask(q) => RunView::Ask(q@),
        Run::Done(p, n) => RunView::Done(
            Progress { found: findings_view(p.found@), storages: p.storages@ },
            n as int,
        ),
    }
}

fn judge_templates(
    c: &Config,
    items: &Vec<Json>,
    guests: &Vec<RegisteredGuest>,
    found: Vec<Finding>,
    r: &Vec<Reply>,
    from: usize,
) -> (run: Run<Progress<Vec<Finding>, Dict<u64>>>)
    requires
        from <= r@.len(),
    ensures
        progress_run(run) == templates_judged(
            *c,
            items_view(items@),
            grouped(guests@),
            0,
            (Progress {
                found: findings_view(found@),
                storages: Seq::<(Seq<char>, u64)>::empty(),
            }),
            replies_view(r@),
            from as int,
        ),
        within(run, from, r@),
{
    let groups = group(guests);
    let ghost g = grouped(guests@);
    let ghost v = replies_view(r@);
    let ghost all = items_view(items@);
    let mut out = found;
    let mut storages: Dict<u64> = Dict::new();
    let ghost whole = templates_judged(
        *c,
        all,
        g,
        0,
        Progress { found: findings_view(found@), storages: Seq::<(Seq<char>, u64)>::empty() },
        v,
        from as int,
    );
    let mut i: usize = from;
    let mut k: usize = 0;
    while k < groups.len()
        invariant
            k <= groups@.len(),
            from <= i <= r@.len(),
            v == replies_view(r@),
            all == items_view(items@),
            g == text_pairs(groups@),
            g == grouped(guests@),
            whole == templates_judged(
                *c,
                all,
                g,
                0,
                Progress {
                    found: findings_view(found@),
                    storages: Seq::<(Seq<char>, u64)>::empty(),
                },
                v,
                from as int,
            ),
            whole == templates_judged(
                *c,
                all,
                g,
                k as int,
                Progress { found: findings_view(out@), storages: storages@ },
                v,
                i as int,
            ),
        decreases groups@.len() - k,
    {
        let template = groups.key(k);
        let whose = groups.value(k);
        assert(g[k as int] == (template@, whose@));
        let ghost before = out@;
        match know_template(c, items, template.as_str(), whose.as_str()) {
            Err(f) => {
                out.push(f);
                assert(findings_view(out@) =~= findings_view(before).push(f@));
            },
            Ok(id) => match send(
                r,
                i,
                ask_get(path_to_vm(c.node.as_str(), id, "/config"), false),
            ) {
                Run::Ask(q) => {
                    return Run::Ask(q);
                },
                Run::Done(a, n) => match a {
                    Ok(config) => {
                        let f = judge_config(id, whose.as_str(), &config, &mut storages);
                        out.push(f);
                        assert(findings_view(out@) =~= findings_view(before).push(f@));
                        i = n;
                    },
                    Err(e) => match disambiguate(id, e, r, n) {
                        Run::Ask(q) => {
                            return Run::Ask(q);
                        },
                        Run::Done(f, m) => {
                            push(
                                &mut out,
                                "template",
                                Health::Fail,
                                "template ".to_string().concat(
                                    decimal(id as u64).as_str(),
                                ).concat(" (guest ").concat(whose.as_str()).concat(
                                    "): its configuration could not be read: ",
                                ).concat(f.message().as_str()),
                            );
                            i = m;
                        },
                    },
                },
            },
        }
        k += 1;
    }
    Run::Done(Progress { found: out, storages }, i)
}

// ---------------------------------------------------------------------------
// The storages and the connection
// ---------------------------------------------------------------------------

/// What a storage's status says.
pub open spec fn storage_finding(
    c: Config,
    storage: Seq<char>,
    need: u64,
    a: Answer<JsonView>,
) -> Finding<Seq<char>> {
    match a {
        Err(e) => finding("storage"@, Health::Fail, storage + " did not answer: "@ + error_text(e)),
        Ok(status) => match uint_at(status, "avail"@) {
            None => finding(
                "storage"@,
                Health::Warn,
                storage
                    + " answered without a free-space figure; room checks will proceed unchecked against it"@,
            ),
            Some(avail) => if avail < floor_of(c) + need {
                finding(
                    "storage"@,
                    Health::Fail,
                    storage + " has "@ + gib_text(avail as nat) + " free, under the "@ + gib_text(
                        floor_of(c),
                    ) + " floor plus the "@ + gib_text(need as nat)
                        + " a clone would take: sessions will be refused"@,
                )
            } else {
                finding(
                    "storage"@,
                    Health::Fine,
                    storage + " has "@ + gib_text(avail as nat) + " free ("@ + gib_text(
                        floor_of(c),
                    ) + " floor)"@,
                )
            },
        },
    }
}

/// Judging the storages one by one, from the `k`th on.
pub open spec fn storages_judged(
    c: Config,
    storages: Seq<(Seq<char>, u64)>,
    k: int,
    found: Found,
    r: Seq<ReplyView>,
    i: int,
) -> RunView<Found>
    decreases storages.len() - k,
{
    if k >= storages.len() {
        RunView::Done(found, i)
    } else {
        match sent(r, i, get(storage_path(c.node@, storages[k].0))) {
            RunView::Ask(q) => RunView::Ask(q),
            RunView::Done(a, n) => storages_judged(
                c,
                storages,
                k + 1,
                found.push(storage_finding(c, storages[k].0, storages[k].1, a)),
                r,
                n,
            ),
        }
    }
}

/// The storages to ask about: the templates', and the one for data disks.
pub open spec fn all_storages(c: Config, storages: Seq<(Seq<char>, u64)>) -> Seq<
    (Seq<char>, u64),
> {
    match c.data_storage {
        Some(d) => match find(storages, d@) {
            Some(n) => place(storages, d@, n),
            None => place(storages, d@, 0u64),
        },
        None => storages,
    }
}

pub open spec fn no_data_storage(c: Config) -> Found {
    if c.data_storage is None {
        seq![
            finding(
                "storage"@,
                Health::Fail,
                "data_storage is not set, and every session asks for a data disk -- up would refuse each one"@,
            ),
        ]
    } else {
        Seq::empty()
    }
}

pub open spec fn tls_finding(c: Config) -> Finding<Seq<char>> {
    if c.tls is Insecure {
        finding(
            "tls"@,
            Health::Warn,
            "certificate verification is disabled: anyone between here and the node can read the token and rewrite replies. Export the node's CA and set tls = \"ca-file\""@,
        )
    } else {
        finding("tls"@, Health::Fine, "certificate verification is on"@)
    }
}

fn judge_tls(c: &Config, out: &mut Vec<Finding>)
    ensures
        findings_view(final(out)@) == findings_view(old(out)@).push(tls_finding(*c)),
{
    match c.tls {
        Tls::Insecure => {
            push(
                out,
                "tls",
                Health::Warn,
                "certificate verification is disabled: anyone between here and the node can read the token and rewrite replies. Export the node's CA and set tls = \"ca-file\"".to_string(),
            );
        },
        _ => {
            push(out, "tls", Health::Fine, "certificate verification is on".to_string());
        },
    }
}

fn judge_storage(c: &Config, storage: &str, need: u64, a: &Result<Json, ProviderError>) -> (r:
    Finding)
    ensures
        r@ == storage_finding(*c, storage@, need, json_answer(*a)),
{
    let label = "storage".to_string();
    match a {
        Err(e) => Finding {
            label,
            health: Health::Fail,
            detail: storage.to_string().concat(" did not answer: ").concat(e.message().as_str()),
        },
        Ok(status) => match status.get_uint("avail") {
            None => Finding {
                label,
                health: Health::Warn,
                detail: storage.to_string().concat(
                    " answered without a free-space figure; room checks will proceed unchecked against it",
                ),
            },
            Some(avail) => {
                let floor: u64 = c.min_free_gb as u64 * GIB;
                if (avail as u128) < floor as u128 + need as u128 {
                    Finding {
                        label,
                        health: Health::Fail,
                        detail: storage.to_string().concat(" has ").concat(
                            gib(avail).as_str(),
                        ).concat(" free, under the ").concat(gib(floor).as_str()).concat(
                            " floor plus the ",
                        ).concat(gib(need).as_str()).concat(
                            " a clone would take: sessions will be refused",
                        ),
                    }
                } else {
                    Finding {
                        label,
                        health: Health::Fine,
                        detail: storage.to_string().concat(" has ").concat(
                            gib(avail).as_str(),
                        ).concat(" free (").concat(gib(floor).as_str()).concat(" floor)"),
                    }
                }
            },
        },
    }
}

// ---------------------------------------------------------------------------
// All of it
// ---------------------------------------------------------------------------

/// Judging everything a session would need.
pub open spec fn diagnosed(
    c: Config,
    guests: Seq<RegisteredGuest>,
    now: SystemTime,
    r: Seq<ReplyView>,
) -> RunView<Found> {
    match sent(r, 0, get("/version"@)) {
        RunView::Ask(q) => RunView::Ask(q),
        RunView::Done(a, n) => {
            let first = first_findings(c, a);
            if !first.0 {
                RunView::Done(first.1, n)
            } else {
                match sent(r, n, listing_request()) {
                    RunView::Ask(q) => RunView::Ask(q),
                    RunView::Done(Err(e), k) => RunView::Done(
                        first.1.push(
                            finding(
                                "pool"@,
                                Health::Fail,
                                "the cluster listing failed: "@ + error_text(e),
                            ),
                        ).push(skipped("templates"@, "the cluster listing failed"@)).push(
                            skipped("storage"@, "the cluster listing failed"@),
                        ).push(tls_finding(c)),
                        k,
                    ),
                    RunView::Done(Ok(data), k) => after_listing(
                        c,
                        guests,
                        held(data),
                        first.1 + pool_findings(c, held(data), now),
                        r,
                        k,
                    ),
                }
            }
        },
    }
}

/// The templates, the storages and the connection, once the listing is known.
pub open spec fn after_listing(
    c: Config,
    guests: Seq<RegisteredGuest>,
    items: Seq<JsonView>,
    found: Found,
    r: Seq<ReplyView>,
    i: int,
) -> RunView<Found> {
    match templates_judged(
        c,
        items,
        grouped(guests),
        0,
        Progress { found, storages: Seq::empty() },
        r,
        i,
    ) {
        RunView::Ask(q) => RunView::Ask(q),
        RunView::Done(p, n) => match storages_judged(
            c,
            all_storages(c, p.storages),
            0,
            p.found + no_data_storage(c),
            r,
            n,
        ) {
            RunView::Ask(q) => RunView::Ask(q),
            RunView::Done(f, m) => RunView::Done(f.push(tls_finding(c)), m),
        },
    }
}

pub open spec fn found_run(r: Run<Vec<Finding>>) -> RunView<Found> {
    match r {
        Run::Ask(q) => RunView::Ask(q@),
        Run::Done(v, n) => RunView::Done(findings_view(v@), n as int),
    }
}

fn judge_storages(
    c: &Config,
    storages: &Dict<u64>,
    found: Vec<Finding>,
    r: &Vec<Reply>,
    from: usize,
) -> (run: Run<Vec<Finding>>)
    requires
        from <= r@.len(),
    ensures
        found_run(run) == storages_judged(
            *c,
            storages@,
            0,
            findings_view(found@),
            replies_view(r@),
            from as int,
        ),
        within(run, from, r@),
{
    let ghost v = replies_view(r@);
    let ghost whole = storages_judged(*c, storages@, 0, findings_view(found@), v, from as int);
    let mut out = found;
    let mut i: usize = from;
    let mut k: usize = 0;
    while k < storages.len()
        invariant
            k <= storages@.len(),
            from <= i <= r@.len(),
            v == replies_view(r@),
            whole == storages_judged(*c, storages@, 0, findings_view(found@), v, from as int),
            whole == storages_judged(
                *c,
                storages@,
                k as int,
                findings_view(out@),
                v,
                i as int,
            ),
        decreases storages@.len() - k,
    {
        let storage = storages.key(k);
        let need: u64 = *storages.value(k);
        let ghost before = out@;
        match send(
            r,
            i,
            ask_get(path_to_storage(c.node.as_str(), storage.as_str()), false),
        ) {
            Run::Ask(q) => {
                return Run::Ask(q);
            },
            Run::Done(a, n) => {
                let f = judge_storage(c, storage.as_str(), need, &a);
                out.push(f);
                assert(findings_view(out@) =~= findings_view(before).push(f@));
                i = n;
            },
        }
        k += 1;
    }
    Run::Done(out, i)
}

fn judge_rest(
    c: &Config,
    guests: &Vec<RegisteredGuest>,
    items: &Vec<Json>,
    found: Vec<Finding>,
    r: &Vec<Reply>,
    i: usize,
) -> (run: Run<Vec<Finding>>)
    requires
        i <= r@.len(),
    ensures
        found_run(run) == after_listing(
            *c,
            guests@,
            items_view(items@),
            findings_view(found@),
            replies_view(r@),
            i as int,
        ),
        within(run, i, r@),
{
    let (p, n) = match judge_templates(c, items, guests, found, r, i) {
        Run::Ask(q) => {
            return Run::Ask(q);
        },
        Run::Done(p, n) => (p, n),
    };
    let mut storages = p.storages;
    let mut found = p.found;
    let ghost so_far = findings_view(found@);
    match &c.data_storage {
        Some(d) => {
            let need: u64 = match storages.get(d.as_str()) {
                Some(n) => *n,
                None => 0,
            };
            storages.insert(d.clone(), need);
            assert(so_far + no_data_storage(*c) =~= so_far);
        },
        None => {
            push(
                &mut found,
                "storage",
                Health::Fail,
                "data_storage is not set, and every session asks for a data disk -- up would refuse each one".to_string(),
            );
            assert(findings_view(found@) =~= so_far + no_data_storage(*c));
        },
    }
    match judge_storages(c, &storages, found, r, n) {
        Run::Ask(q) => Run::Ask(q),
        Run::Done(f, m) => {
            let mut out = f;
            judge_tls(c, &mut out);
            Run::Done(out, m)
        },
    }
}

/// Judge everything a session would need, and say what is wrong.
///
/// Every probe here uses only what a pool-scoped token can be relied on to
/// answer -- /version, the cluster listing, per-VM config/status. The node's
/// health is evidenced through the template checks, whose requests all cross
/// it.
pub fn judge(c: &Config, guests: &Vec<RegisteredGuest>, now: &SystemTime, r: &Vec<Reply>) -> (run:
    Run<Vec<Finding>>)
    ensures
        found_run(run) == diagnosed(*c, guests@, *now, replies_view(r@)),
        within(run, 0, r@),
{
    let (a, n) = match send(r, 0, ask_get("/version".to_string(), false)) {
        Run::Ask(q) => {
            return Run::Ask(q);
        },
        Run::Done(a, n) => (a, n),
    };
    let (go_on, first) = judge_api(c, &a);
    if !go_on {
        return Run::Done(first, n);
    }
    let mut out = first;
    match send(r, n, ask_listing()) {
        Run::Ask(q) => Run::Ask(q),
        Run::Done(b, k) => match b {
            Err(e) => {
                push(
                    &mut out,
                    "pool",
                    Health::Fail,
                    "the cluster listing failed: ".to_string().concat(e.message().as_str()),
                );
                push(
                    &mut out,
                    "templates",
                    Health::Warn,
                    "skipped: ".to_string().concat("the cluster listing failed"),
                );
                push(
                    &mut out,
                    "storage",
                    Health::Warn,
                    "skipped: ".to_string().concat("the cluster listing failed"),
                );
                judge_tls(c, &mut out);
                Run::Done(out, k)
            },
            Ok(data) => {
                let items = items_of(&data);
                let ghost before = out@;
                let mut more = judge_pool(c, &items, now);
                let ghost added = more@;
                out.append(&mut more);
                assert(findings_view(out@) =~= findings_view(before) + findings_view(added));
                judge_rest(c, guests, &items, out, r, k)
            },
        },
    }
}

}
