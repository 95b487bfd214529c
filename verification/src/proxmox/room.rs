//! Whether a session fits on the storages it would land on.
//!
//! What a session costs is the template's disks copied whole -- a clone is a
//! byte-for-byte copy -- plus the blank pool disk. Those can land on different
//! storages, so the need is totalled per storage and each is checked against
//! its own free space.
use vstd::prelude::*;
use vstd::string::*;

use crate::dict::{find, place, Dict};
use crate::json::{lemma_members, members_in, members_view, text_in, uint_at, Json, JsonView};
use crate::provider::ProviderError;
use crate::proxmox::api::{
    ask_get, get, path_to_storage, path_to_vm, replies_view, request, saying, send, sent,
    storage_path, vm_path, within, Answer, Method, Reply, ReplyView, Run, RunView,
};
use crate::proxmox::config::Config;
use crate::proxmox::disks::{
    disk_key, disk_storage_and_size, gib, gib_text, gib_wide, is_disk_key, priced, GIB, MAX_SIZE,
};
use crate::scan::{contains, holds};
use crate::text::texts;

verus! {

/// The members of an object; anything else has none.
pub open spec fn entries_in(j: JsonView) -> Seq<(Seq<char>, JsonView)> {
    match members_in(j) {
        Some(m) => m,
        None => Seq::empty(),
    }
}

/// What is needed of a storage so far.
pub open spec fn needed(needs: Seq<(Seq<char>, u128)>, storage: Seq<char>) -> u128 {
    match find(needs, storage) {
        Some(n) => n,
        None => 0,
    }
}

/// So much more is needed of a storage.
pub open spec fn with_need(
    needs: Seq<(Seq<char>, u128)>,
    storage: Seq<char>,
    bytes: nat,
) -> Seq<(Seq<char>, u128)> {
    place(needs, storage, (needed(needs, storage) + bytes) as u128)
}

/// The specification of a disk, if a member of a machine's configuration is
/// one.
pub open spec fn disk_spec(entry: (Seq<char>, JsonView)) -> Option<Seq<char>> {
    if disk_key(entry.0) {
        text_in(entry.1)
    } else {
        None
    }
}

/// What copying a machine's disks needs, storage by storage.
pub open spec fn copy_needs(entries: Seq<(Seq<char>, JsonView)>) -> Seq<(Seq<char>, u128)>
    decreases entries.len(),
{
    if entries.len() == 0 {
        Seq::empty()
    } else {
        let before = copy_needs(entries.drop_last());
        match disk_spec(entries.last()) {
            Some(s) => match priced(s) {
                Some((storage, bytes)) => with_need(before, storage, bytes),
                None => before,
            },
            None => before,
        }
    }
}

/// A disk that cannot be priced must not silently cost zero.
pub open spec fn unpriced(s: Seq<char>) -> bool {
    priced(s) is None && !contains(s, "media=cdrom"@)
}

/// What is said about disks that could not be priced.
pub open spec fn price_notes(entries: Seq<(Seq<char>, JsonView)>) -> Seq<Seq<char>>
    decreases entries.len(),
{
    if entries.len() == 0 {
        Seq::empty()
    } else {
        let before = price_notes(entries.drop_last());
        match disk_spec(entries.last()) {
            Some(s) => if unpriced(s) {
                before.push(
                    "reaper: could not price "@ + entries.last().0 + "="@ + s
                        + "; it is not counted toward the room this session needs"@,
                )
            } else {
                before
            },
            None => before,
        }
    }
}

/// What a session needs: the copy, and the blank disk where one is asked for.
pub open spec fn session_needs(c: Config, config: JsonView, gb: Option<u32>) -> Seq<
    (Seq<char>, u128),
> {
    let copy = copy_needs(entries_in(config));
    match (gb, c.data_storage) {
        (Some(n), Some(storage)) => with_need(copy, storage@, (n * GIB) as nat),
        _ => copy,
    }
}

pub open spec fn floor_of(c: Config) -> nat {
    (c.min_free_gb * GIB) as nat
}

/// What is said of a storage that is too full.
pub open spec fn too_full(storage: Seq<char>, avail: nat, wanted: nat, floor: nat) -> Seq<char> {
    storage + " has "@ + gib_text(avail) + " free and this session needs "@ + gib_text(wanted)
        + ", leaving less than the "@ + gib_text(floor)
        + " floor. Take a session down, or lower [proxmox].min_free_gb if you mean to run it close"@
}

pub open spec fn silent(storage: Seq<char>) -> Seq<char> {
    "reaper: "@ + storage
        + " did not report its free space; creating without checking there is room"@
}

/// What a storage's status says is free, if it says.
pub open spec fn reported(a: Answer<JsonView>) -> Option<u64> {
    match a {
        Ok(status) => uint_at(status, "avail"@),
        Err(_) => None,
    }
}

/// Asking each storage in turn, from the `k`th on. `notes` is what is still to
/// be told to the operator. Not knowing is not the same as knowing there is
/// room, but it does not refuse a session either.
pub open spec fn weighed(
    c: Config,
    needs: Seq<(Seq<char>, u128)>,
    k: int,
    notes: Seq<Seq<char>>,
    r: Seq<ReplyView>,
    i: int,
) -> RunView<Answer<Seq<Seq<char>>>>
    decreases needs.len() - k,
{
    if k >= needs.len() {
        RunView::Done(Ok(notes), i)
    } else {
        let storage = needs[k].0;
        let wanted = needs[k].1 as nat;
        match sent(r, i, saying(get(storage_path(c.node@, storage)), notes)) {
            RunView::Ask(q) => RunView::Ask(q),
            RunView::Done(a, n) => match reported(a) {
                None => weighed(c, needs, k + 1, seq![silent(storage)], r, n),
                Some(avail) => if avail < wanted + floor_of(c) {
                    RunView::Done(
                        Err(
                            ProviderError::Refused(
                                too_full(storage, avail as nat, wanted, floor_of(c)),
                            ),
                        ),
                        n,
                    )
                } else {
                    weighed(c, needs, k + 1, Seq::empty(), r, n)
                },
            },
        }
    }
}

/// Refusing a session that would leave a storage too full.
pub open spec fn roomed(
    c: Config,
    template: u32,
    gb: Option<u32>,
    r: Seq<ReplyView>,
    i: int,
) -> RunView<Answer<Seq<Seq<char>>>> {
    match sent(r, i, get(vm_path(c.node@, template as nat, "/config"@))) {
        RunView::Ask(q) => RunView::Ask(q),
        RunView::Done(Err(e), n) => RunView::Done(Err(e), n),
        RunView::Done(Ok(config), n) => weighed(
            c,
            session_needs(c, config, gb),
            0,
            price_notes(entries_in(config)),
            r,
            n,
        ),
    }
}

pub open spec fn notes_run(r: Run<Result<Vec<String>, ProviderError>>) -> RunView<
    Answer<Seq<Seq<char>>>,
> {
    match r {
        Run::Ask(q) => RunView::Ask(q@),
        Run::Done(Ok(v), n) => RunView::Done(Ok(texts(v@)), n as int),
        Run::Done(Err(e), n) => RunView::Done(Err(e@), n as int),
    }
}

/// No storage is needed for more than so much.
pub open spec fn bounded(needs: Seq<(Seq<char>, u128)>, most: int) -> bool {
    forall|key: Seq<char>| #[trigger] needed(needs, key) <= most
}

pub proof fn lemma_bounded(needs: Seq<(Seq<char>, u128)>, most: int, key: Seq<char>, bytes: nat)
    requires
        bounded(needs, most),
        most + bytes <= u128::MAX,
    ensures
        bounded(with_need(needs, key, bytes), most + bytes),
        needed(with_need(needs, key, bytes), key) == needed(needs, key) + bytes,
{
    assert(needed(needs, key) <= most);
    assert forall|other: Seq<char>| #[trigger] needed(with_need(needs, key, bytes), other) <= most
        + bytes by {
        crate::dict::lemma_place_find(needs, key, (needed(needs, key) + bytes) as u128, other);
        assert(needed(needs, other) <= most);
    }
    crate::dict::lemma_place_find(needs, key, (needed(needs, key) + bytes) as u128, key);
}

fn add_need(needs: &mut Dict<u128>, storage: String, bytes: u64)
    requires
        needed(old(needs)@, storage@) + bytes <= u128::MAX,
    ensures
        final(needs)@ == with_need(old(needs)@, storage@, bytes as nat),
{
    let before: u128 = match needs.get(storage.as_str()) {
        Some(n) => *n,
        None => 0,
    };
    needs.insert(storage, before + bytes as u128);
}

/// What copying a machine's disks needs, and what is said about those that
/// could not be priced.
pub fn copy_cost(config: &Json) -> (r: (Dict<u128>, Vec<String>))
    ensures
        r.0@ == copy_needs(entries_in(config@)),
        texts(r.1@) == price_notes(entries_in(config@)),
        bounded(r.0@, entries_in(config@).len() * MAX_SIZE),
        entries_in(config@).len() <= usize::MAX,
{
    let mut needs: Dict<u128> = Dict::new();
    let mut notes: Vec<String> = Vec::new();
    assert(texts(notes@) =~= Seq::empty());
    assert(bounded(needs@, 0));
    let members = match config.as_members() {
        Some(m) => m,
        None => {
            return (needs, notes);
        },
    };
    let ghost all = members_view(members@);
    proof {
        lemma_members(members@);
    }
    let mut i: usize = 0;
    while i < members.len()
        invariant
            i <= members@.len(),
            all.len() == members@.len(),
            forall|j: int|
                0 <= j < members@.len() ==> #[trigger] all[j] == (members@[j].0@, members@[j].1@),
            needs@ == copy_needs(all.take(i as int)),
            texts(notes@) == price_notes(all.take(i as int)),
            bounded(needs@, i * MAX_SIZE),
        decreases members@.len() - i,
    {
        let ghost more = all.take(i + 1);
        let ghost was = needs@;
        let ghost said = notes@;
        assert(more.drop_last() =~= all.take(i as int));
        assert(more.last() == all[i as int]);
        assert(bounded(was, (i + 1) * MAX_SIZE));
        let key = &members[i].0;
        if is_disk_key(key.as_str()) {
            match members[i].1.as_text() {
                None => {},
                Some(spec) => match disk_storage_and_size(spec.as_str()) {
                    Some((storage, bytes)) => {
                        proof {
                            assert(needed(was, storage@) <= i * MAX_SIZE);
                            assert(bytes <= MAX_SIZE) by {
                                crate::proxmox::disks::lemma_priced_bound(spec@);
                            }
                            lemma_bounded(was, i * MAX_SIZE, storage@, bytes as nat);
                            assert(bounded(
                                with_need(was, storage@, bytes as nat),
                                (i + 1) * MAX_SIZE,
                            ));
                        }
                        add_need(&mut needs, storage, bytes);
                    },
                    None => {
                        if !holds(spec.as_str(), "media=cdrom") {
                            let note = "reaper: could not price ".to_string().concat(
                                key.as_str(),
                            ).concat("=").concat(spec.as_str()).concat(
                                "; it is not counted toward the room this session needs",
                            );
                            notes.push(note);
                            assert(texts(notes@) =~= texts(said).push(note@));
                        }
                    },
                },
            }
        }
        i += 1;
    }
    assert(all.take(members@.len() as int) =~= all);
    (needs, notes)
}

/// What a session needs, and what is said about disks that could not be
/// priced.
fn cost(c: &Config, config: &Json, gb: Option<u32>) -> (r: (Dict<u128>, Vec<String>))
    ensures
        r.0@ == session_needs(*c, config@, gb),
        texts(r.1@) == price_notes(entries_in(config@)),
        bounded(r.0@, 0x8000_0000_0000_0000_0000_0000_0000_0000int),
{
    let (mut needs, notes) = copy_cost(config);
    let ghost n = entries_in(config@).len();
    proof {
        assert(n * MAX_SIZE <= 0xffff_ffff_ffff_ffff * 0x8000_0000_0000_0000);
    }
    match (gb, &c.data_storage) {
        (Some(g), Some(storage)) => {
            proof {
                assert(needed(needs@, storage@) <= n * MAX_SIZE);
                lemma_bounded(needs@, n * MAX_SIZE, storage@, (g * GIB) as nat);
            }
            add_need(&mut needs, storage.clone(), g as u64 * GIB);
        },
        _ => {},
    }
    (needs, notes)
}

/// Refuse a session that would leave a storage too full.
pub fn check_room(c: &Config, template: u32, gb: Option<u32>, r: &Vec<Reply>, from: usize) -> (run:
    Run<Result<Vec<String>, ProviderError>>)
    requires
        from <= r@.len(),
    ensures
        notes_run(run) == roomed(*c, template, gb, replies_view(r@), from as int),
        within(run, from, r@),
{
    let (config, start) = match send(
        r,
        from,
        ask_get(path_to_vm(c.node.as_str(), template, "/config"), false),
    ) {
        Run::Ask(q) => {
            return Run::Ask(q);
        },
        Run::Done(a, n) => match a {
            Err(e) => {
                return Run::Done(Err(e), n);
            },
            Ok(config) => (config, n),
        },
    };
    let (needs, first_notes) = cost(c, &config, gb);
    let floor: u64 = c.min_free_gb as u64 * GIB;
    let ghost v = replies_view(r@);
    let ghost whole = roomed(*c, template, gb, v, from as int);
    let mut notes = first_notes;
    let mut i: usize = start;
    let mut k: usize = 0;
    needs.ordered();
    while k < needs.len()
        invariant
            k <= needs@.len(),
            from <= start <= i <= r@.len(),
            v == replies_view(r@),
            floor == floor_of(*c),
            whole == weighed(*c, needs@, k as int, texts(notes@), v, i as int),
            whole == roomed(*c, template, gb, v, from as int),
            crate::dict::ascending(needs@),
            bounded(needs@, 0x8000_0000_0000_0000_0000_0000_0000_0000int),
        decreases needs@.len() - k,
    {
        let storage = needs.key(k);
        let wanted: u128 = *needs.value(k);
        proof {
            crate::dict::lemma_find_at(needs@, k as int);
            assert(needed(needs@, storage@) == wanted);
        }
        let form: Vec<(String, String)> = Vec::new();
        assert(crate::proxmox::api::form_view(form@) =~= Seq::empty());
        let q = request(
            Method::Get,
            path_to_storage(c.node.as_str(), storage.as_str()),
            form,
            false,
            notes,
        );
        match send(r, i, q) {
            Run::Ask(q) => {
                return Run::Ask(q);
            },
            Run::Done(a, n) => {
                let avail: Option<u64> = match &a {
                    Ok(status) => status.get_uint("avail"),
                    Err(_) => None,
                };
                notes = Vec::new();
                match avail {
                    None => {
                        let note = "reaper: ".to_string().concat(storage.as_str()).concat(
                            " did not report its free space; creating without checking there is room",
                        );
                        notes.push(note);
                        assert(texts(notes@) =~= seq![silent(storage@)]);
                    },
                    Some(free) => {
                        assert(texts(notes@) =~= Seq::empty());
                        if (free as u128) < wanted + floor as u128 {
                            let e = ProviderError::Refused(
                                storage.clone().concat(" has ").concat(gib(free).as_str()).concat(
                                    " free and this session needs ",
                                ).concat(gib_wide(wanted).as_str()).concat(
                                    ", leaving less than the ",
                                ).concat(gib(floor).as_str()).concat(
                                    " floor. Take a session down, or lower [proxmox].min_free_gb if you mean to run it close",
                                ),
                            );
                            return Run::Done(Err(e), n);
                        }
                    },
                }
                i = n;
            },
        }
        k += 1;
    }
    Run::Done(Ok(notes), i)
}

/// A session is let through only if every storage that said how much is free
/// has room for its share and the floor besides.
pub proof fn law_room_is_checked_per_storage(
    c: Config,
    needs: Seq<(Seq<char>, u128)>,
    k: int,
    notes: Seq<Seq<char>>,
    r: Seq<ReplyView>,
    i: int,
)
    requires
        0 <= k <= needs.len(),
        0 <= i <= r.len(),
        weighed(c, needs, k, notes, r, i) matches RunView::Done(Ok(_), _),
    ensures
        i + (needs.len() - k) <= r.len(),
        forall|j: int|
            k <= j < needs.len() ==> (reported((#[trigger] r[i + (j - k)]).answer) matches Some(
                avail,
            ) ==> avail >= needs[j].1 + floor_of(c)),
    decreases needs.len() - k,
{
    if k < needs.len() {
        let rest = if reported(r[i].answer) is None {
            seq![silent(needs[k].0)]
        } else {
            Seq::empty()
        };
        law_room_is_checked_per_storage(c, needs, k + 1, rest, r, i + 1);
        assert forall|j: int| k <= j < needs.len() implies (reported(
            (#[trigger] r[i + (j - k)]).answer,
        ) matches Some(avail) ==> avail >= needs[j].1 + floor_of(c)) by {
            if j > k {
                assert(r[(i + 1) + (j - (k + 1))] == r[i + (j - k)]);
            }
        }
    }
}

}
