//! What the cluster's listing and a guest's agent report.
use vstd::prelude::*;
use vstd::string::*;

use crate::address::{link_local, loopback, reads, Address};
use crate::json::{items_in, items_view, lemma_items, member, text_at, uint_at, Json, JsonView};
use crate::provider::{MachineRef, MachineSummary};
use crate::proxmox::config::Config;
use crate::proxmox::ids::in_range;
use crate::proxmox::tags::{expiry_at, expiry_moment};
use crate::text::{dec, decimal, same};

verus! {

// ---------------------------------------------------------------------------
// The listing
// ---------------------------------------------------------------------------

/// The items of an array; anything else holds none.
pub open spec fn held(data: JsonView) -> Seq<JsonView> {
    match items_in(data) {
        Some(a) => a,
        None => Seq::empty(),
    }
}

/// The text under a name, or none at all.
pub open spec fn text_or_empty(j: JsonView, name: Seq<char>) -> Seq<char> {
    match text_at(j, name) {
        Some(s) => s,
        None => Seq::empty(),
    }
}

pub fn text_or_none(j: &Json, name: &str) -> (r: String)
    ensures
        r@ == text_or_empty(j@, name@),
{
    match j.get_text(name) {
        Some(s) => s.clone(),
        None => {
            let none = String::new();
            assert(none@ =~= Seq::empty());
            none
        },
    }
}

/// The identifier of a listed machine, in 32 bits.
pub open spec fn vmid(item: JsonView) -> Option<u32> {
    match uint_at(item, "vmid"@) {
        Some(n) => Some((n % 0x1_0000_0000) as u32),
        None => None,
    }
}

pub fn vmid_of(item: &Json) -> (r: Option<u32>)
    ensures
        r == vmid(item@),
{
    match item.get_uint("vmid") {
        Some(n) => Some((n % 0x1_0000_0000) as u32),
        None => None,
    }
}

/// Some listed machine has this identifier, whoever it belongs to.
pub open spec fn taken(items: Seq<JsonView>, id: u32) -> bool {
    exists|i: int| 0 <= i < items.len() && vmid(#[trigger] items[i]) == Some(id)
}

/// The item is a template.
pub open spec fn is_template(item: JsonView) -> bool {
    uint_at(item, "template"@) == Some(1u64)
}

pub fn template_item(item: &Json) -> (r: bool)
    ensures
        r == is_template(item@),
{
    match item.get_uint("template") {
        Some(n) => n == 1,
        None => false,
    }
}

/// The items of an array; anything else holds none.
pub fn items_of(data: &Json) -> (r: Vec<Json>)
    ensures
        items_view(r@) == held(data@),
{
    match data.as_items() {
        Some(a) => {
            let mut out: Vec<Json> = Vec::new();
            let mut i: usize = 0;
            while i < a.len()
                invariant
                    i <= a@.len(),
                    out@.len() == i,
                    forall|j: int| 0 <= j < i ==> (#[trigger] out@[j])@ == a@[j]@,
                decreases a@.len() - i,
            {
                out.push(a[i].copy());
                i += 1;
            }
            proof {
                lemma_items(a@);
                lemma_items(out@);
                assert(items_view(out@) =~= items_view(a@));
            }
            out
        },
        None => {
            let none: Vec<Json> = Vec::new();
            assert(items_view(none@) =~= Seq::empty());
            none
        },
    }
}

/// Has some listed machine this identifier?
pub fn is_taken(items: &Vec<Json>, id: u32) -> (r: bool)
    ensures
        r == taken(items_view(items@), id),
{
    let ghost all = items_view(items@);
    proof {
        lemma_items(items@);
    }
    let mut i: usize = 0;
    while i < items.len()
        invariant
            i <= items@.len(),
            all == items_view(items@),
            all.len() == items@.len(),
            forall|j: int| 0 <= j < items@.len() ==> #[trigger] all[j] == items@[j]@,
            forall|j: int| 0 <= j < i ==> vmid(#[trigger] all[j]) != Some(id),
        decreases items@.len() - i,
    {
        assert(all[i as int] == items@[i as int]@);
        match vmid_of(&items[i]) {
            Some(n) => {
                if n == id {
                    assert(vmid(all[i as int]) == Some(id));
                    return true;
                }
            },
            None => {},
        }
        i += 1;
    }
    false
}

/// The lowest identifier from `low` to `high` that nothing has.
pub open spec fn lowest_free(items: Seq<JsonView>, low: int, high: int) -> Option<u32>
    decreases high - low + 1,
{
    if low > high {
        None
    } else if !taken(items, low as u32) {
        Some(low as u32)
    } else {
        lowest_free(items, low + 1, high)
    }
}

/// The identifier that is chosen is free, in the range, and the lowest such.
pub proof fn law_the_lowest_free_identifier_is_chosen(items: Seq<JsonView>, low: u32, high: u32)
    ensures
        match lowest_free(items, low as int, high as int) {
            Some(id) => low <= id <= high && !taken(items, id) && forall|j: u32|
                low <= j < id ==> #[trigger] taken(items, j),
            None => forall|j: u32| low <= j <= high ==> #[trigger] taken(items, j),
        },
    decreases high - low,
{
    if low <= high && taken(items, low) {
        if low < high {
            law_the_lowest_free_identifier_is_chosen(items, (low + 1) as u32, high);
        } else {
            assert(lowest_free(items, low + 1, high as int) is None);
        }
    }
}

pub fn find_free(items: &Vec<Json>, low: u32, high: u32) -> (r: Option<u32>)
    ensures
        r == lowest_free(items_view(items@), low as int, high as int),
{
    let mut id: u32 = low;
    while id <= high
        invariant
            lowest_free(items_view(items@), low as int, high as int) == lowest_free(
                items_view(items@),
                id as int,
                high as int,
            ),
        decreases high - id,
    {
        if !is_taken(items, id) {
            return Some(id);
        }
        if id == high {
            assert(lowest_free(items_view(items@), id + 1, high as int) is None);
            return None;
        }
        id += 1;
    }
    None
}

/// A machine of reaper's: in its pool, inside its range, and no template.
///
/// Both conditions, always. The pool alone is not enough: this provider must
/// never report, still less act on, a machine outside the range it is
/// permitted to touch.
pub open spec fn ours(c: Config, item: JsonView) -> bool {
    &&& vmid(item) is Some
    &&& in_range(c.ids@, vmid(item)->0 as int)
    &&& text_at(item, "pool"@) == Some(c.pool@)
    &&& !is_template(item)
}

pub open spec fn summary(item: JsonView) -> MachineSummary<Seq<char>> {
    MachineSummary {
        machine: MachineRef(dec(vmid(item)->0 as nat)),
        name: text_or_empty(item, "name"@),
        expires_at: expiry_moment(text_or_empty(item, "tags"@)),
        running: text_at(item, "status"@) == Some("running"@),
    }
}

/// The machines of reaper's among those listed, in order.
pub open spec fn summaries(c: Config, items: Seq<JsonView>) -> Seq<MachineSummary<Seq<char>>>
    decreases items.len(),
{
    if items.len() == 0 {
        Seq::empty()
    } else {
        let before = summaries(c, items.drop_last());
        if ours(c, items.last()) {
            before.push(summary(items.last()))
        } else {
            before
        }
    }
}

pub open spec fn summaries_view(v: Seq<MachineSummary>) -> Seq<MachineSummary<Seq<char>>> {
    v.map_values(|m: MachineSummary| m@)
}

pub fn is_ours(c: &Config, item: &Json) -> (r: bool)
    ensures
        r == ours(*c, item@),
{
    match vmid_of(item) {
        None => false,
        Some(id) => {
            if !c.ids.contains(id) {
                return false;
            }
            match item.get_text("pool") {
                None => false,
                Some(p) => same(p.as_str(), c.pool.as_str()) && !template_item(item),
            }
        },
    }
}

fn is_running_item(item: &Json) -> (r: bool)
    ensures
        r == (text_at(item@, "status"@) == Some("running"@)),
{
    match item.get_text("status") {
        Some(s) => same(s.as_str(), "running"),
        None => false,
    }
}

/// The machines of reaper's among those listed.
pub fn our_machines(c: &Config, items: &Vec<Json>) -> (r: Vec<MachineSummary>)
    ensures
        summaries_view(r@) == summaries(*c, items_view(items@)),
{
    let ghost all = items_view(items@);
    proof {
        lemma_items(items@);
    }
    let mut out: Vec<MachineSummary> = Vec::new();
    let mut i: usize = 0;
    assert(summaries_view(out@) =~= Seq::empty());
    while i < items.len()
        invariant
            i <= items@.len(),
            all.len() == items@.len(),
            forall|j: int| 0 <= j < items@.len() ==> #[trigger] all[j] == items@[j]@,
            summaries_view(out@) == summaries(*c, all.take(i as int)),
        decreases items@.len() - i,
    {
        let ghost was = out@;
        assert(all.take(i + 1).drop_last() =~= all.take(i as int));
        assert(all.take(i + 1).last() == items@[i as int]@);
        let item = &items[i];
        if is_ours(c, item) {
            let id: u32 = match vmid_of(item) {
                Some(id) => id,
                None => 0,
            };
            let m = MachineSummary {
                machine: MachineRef(decimal(id as u64)),
                name: text_or_none(item, "name"),
                expires_at: expiry_at(text_or_none(item, "tags").as_str()),
                running: is_running_item(item),
            };
            out.push(m);
            assert(summaries_view(out@) =~= summaries_view(was).push(m@));
        }
        i += 1;
    }
    assert(all.take(items@.len() as int) =~= all);
    out
}

/// Whatever is listed as reaper's is in its pool and in its range.
pub proof fn law_only_our_machines_are_listed(c: Config, items: Seq<JsonView>, k: int)
    requires
        0 <= k < summaries(c, items).len(),
    ensures
        exists|i: int|
            0 <= i < items.len() && ours(c, #[trigger] items[i]) && summaries(c, items)[k]
                == summary(items[i]),
    decreases items.len(),
{
    let front = items.drop_last();
    let before = summaries(c, front);
    if k < before.len() {
        law_only_our_machines_are_listed(c, front, k);
        let i = choose|i: int|
            0 <= i < front.len() && ours(c, #[trigger] front[i]) && before[k] == summary(front[i]);
        assert(items[i] == front[i]);
        assert(ours(c, items[i]));
    } else {
        assert(ours(c, items[items.len() - 1]));
    }
}

// ---------------------------------------------------------------------------
// Addresses
// ---------------------------------------------------------------------------

/// The interfaces that an agent reports, in either shape of its reply.
pub open spec fn interfaces(data: JsonView) -> Option<Seq<JsonView>> {
    match member(data, "result"@) {
        Some(r) => match items_in(r) {
            Some(a) => Some(a),
            None => items_in(data),
        },
        None => items_in(data),
    }
}

/// An address worth talking to, if an entry holds one. Loopback and link-local
/// are things every machine has and neither is reachable from here.
pub open spec fn usable(entry: JsonView) -> Option<Address> {
    match text_at(entry, "ip-address"@) {
        Some(s) => match reads(s) {
            Some(a) => if loopback(a) || link_local(a) {
                None
            } else {
                Some(a)
            },
            None => None,
        },
        None => None,
    }
}

pub open spec fn usable_among(entries: Seq<JsonView>) -> Seq<Address>
    decreases entries.len(),
{
    if entries.len() == 0 {
        Seq::empty()
    } else {
        let before = usable_among(entries.drop_last());
        match usable(entries.last()) {
            Some(a) => before.push(a),
            None => before,
        }
    }
}

/// The entries that an interface holds.
pub open spec fn entries(iface: JsonView) -> Seq<JsonView> {
    match member(iface, "ip-addresses"@) {
        Some(a) => held(a),
        None => Seq::empty(),
    }
}

/// Every usable address, interface by interface.
pub open spec fn reachable(ifaces: Seq<JsonView>) -> Seq<Address>
    decreases ifaces.len(),
{
    if ifaces.len() == 0 {
        Seq::empty()
    } else {
        reachable(ifaces.drop_last()) + usable_among(entries(ifaces.last()))
    }
}

/// The first IPv4 address from a position on.
pub open spec fn first_v4(a: Seq<Address>) -> Option<Address>
    decreases a.len(),
{
    if a.len() == 0 {
        None
    } else if a[0] is V4 {
        Some(a[0])
    } else {
        first_v4(a.skip(1))
    }
}

/// The address to talk to: an IPv4 one if there is any, else the first.
pub open spec fn chosen_address(data: JsonView) -> Option<Address> {
    match interfaces(data) {
        None => None,
        Some(ifaces) => {
            let all = reachable(ifaces);
            match first_v4(all) {
                Some(a) => Some(a),
                None => if all.len() > 0 {
                    Some(all[0])
                } else {
                    None
                },
            }
        },
    }
}

fn usable_address(entry: &Json) -> (r: Option<Address>)
    ensures
        r == usable(entry@),
{
    match entry.get_text("ip-address") {
        None => None,
        Some(s) => match Address::parse(s.as_str()) {
            None => None,
            Some(a) => if a.is_loopback() || a.is_link_local() {
                None
            } else {
                Some(a)
            },
        },
    }
}

fn collect_usable(list: &Vec<Json>) -> (r: Vec<Address>)
    ensures
        r@ == usable_among(items_view(list@)),
{
    let ghost all = items_view(list@);
    proof {
        lemma_items(list@);
    }
    let mut out: Vec<Address> = Vec::new();
    let mut i: usize = 0;
    while i < list.len()
        invariant
            i <= list@.len(),
            all.len() == list@.len(),
            forall|j: int| 0 <= j < list@.len() ==> #[trigger] all[j] == list@[j]@,
            out@ == usable_among(all.take(i as int)),
        decreases list@.len() - i,
    {
        assert(all.take(i + 1).drop_last() =~= all.take(i as int));
        assert(all.take(i + 1).last() == list@[i as int]@);
        match usable_address(&list[i]) {
            Some(a) => {
                out.push(a);
            },
            None => {},
        }
        i += 1;
    }
    assert(all.take(list@.len() as int) =~= all);
    out
}

fn collect_reachable(ifaces: &Vec<Json>) -> (r: Vec<Address>)
    ensures
        r@ == reachable(items_view(ifaces@)),
{
    let ghost all = items_view(ifaces@);
    proof {
        lemma_items(ifaces@);
    }
    let mut out: Vec<Address> = Vec::new();
    let mut i: usize = 0;
    while i < ifaces.len()
        invariant
            i <= ifaces@.len(),
            all.len() == ifaces@.len(),
            forall|j: int| 0 <= j < ifaces@.len() ==> #[trigger] all[j] == ifaces@[j]@,
            out@ == reachable(all.take(i as int)),
        decreases ifaces@.len() - i,
    {
        assert(all.take(i + 1).drop_last() =~= all.take(i as int));
        assert(all.take(i + 1).last() == ifaces@[i as int]@);
        let ghost was = out@;
        let list = match ifaces[i].get("ip-addresses") {
            Some(a) => items_of(a),
            None => {
                let none: Vec<Json> = Vec::new();
                assert(items_view(none@) =~= Seq::empty());
                none
            },
        };
        let mut more = collect_usable(&list);
        let ghost added = more@;
        out.append(&mut more);
        assert(out@ =~= was + added);
        i += 1;
    }
    assert(all.take(ifaces@.len() as int) =~= all);
    out
}

/// The first address a guest agent reports that is worth talking to.
///
/// IPv4 first: every path this project uses today is v4, and preferring a v6
/// address the tunnel cannot carry would be a confusing way to fail.
pub fn first_usable_address(data: &Json) -> (r: Option<Address>)
    ensures
        r == chosen_address(data@),
{
    let ifaces = match data.get("result") {
        Some(v) => match v.as_items() {
            Some(a) => Some(a),
            None => data.as_items(),
        },
        None => data.as_items(),
    };
    match ifaces {
        None => None,
        Some(list) => {
            let all = collect_reachable(list);
            let mut i: usize = 0;
            assert(all@.skip(0) =~= all@);
            while i < all.len()
                invariant
                    i <= all@.len(),
                    interfaces(data@) is Some,
                    all@ == reachable(interfaces(data@)->0),
                    first_v4(all@) == first_v4(all@.skip(i as int)),
                decreases all@.len() - i,
            {
                assert(all@.skip(i as int)[0] == all@[i as int]);
                if all[i].is_v4() {
                    return Some(all[i]);
                }
                assert(all@.skip(i as int).skip(1) =~= all@.skip(i + 1));
                i += 1;
            }
            if all.len() > 0 {
                Some(all[0])
            } else {
                None
            }
        },
    }
}

/// An entry of an interface holds this address, and it is worth talking to.
pub open spec fn offers(ifaces: Seq<JsonView>, i: int, j: int, a: Address) -> bool {
    &&& 0 <= i < ifaces.len()
    &&& 0 <= j < entries(ifaces[i]).len()
    &&& text_at(entries(ifaces[i])[j], "ip-address"@) matches Some(s) && reads(s) == Some(a)
    &&& !loopback(a)
    &&& !link_local(a)
}

#[verifier::spinoff_prover]
proof fn lemma_usable_among(v: Seq<JsonView>, a: Address)
    ensures
        usable_among(v).contains(a) <==> exists|j: int|
            0 <= j < v.len() && same_address(#[trigger] v[j], a),
    decreases v.len(),
{
    reveal(same_address);
    if v.len() > 0 {
        let rest = v.drop_last();
        let b = usable_among(rest);
        let all = usable_among(v);
        lemma_usable_among(rest, a);
        if all.contains(a) {
            let k = choose|k: int| 0 <= k < all.len() && all[k] == a;
            if k < b.len() {
                assert(b[k] == a);
                let j = choose|j: int| 0 <= j < rest.len() && same_address(#[trigger] rest[j], a);
                assert(same_address(v[j], a));
            } else {
                assert(same_address(v[v.len() - 1], a));
            }
        }
        if exists|j: int| 0 <= j < v.len() && same_address(#[trigger] v[j], a) {
            let j = choose|j: int| 0 <= j < v.len() && same_address(#[trigger] v[j], a);
            if j < rest.len() {
                assert(same_address(rest[j], a));
                let k = choose|k: int| 0 <= k < b.len() && b[k] == a;
                assert(all[k] == a);
            } else {
                assert(all[all.len() - 1] == a);
            }
        }
    }
}

#[verifier::opaque]
spec fn same_address(entry: JsonView, a: Address) -> bool {
    usable(entry) == Some(a)
}

spec fn holds_usable(ifaces: Seq<JsonView>, i: int, j: int, a: Address) -> bool {
    &&& 0 <= i < ifaces.len()
    &&& 0 <= j < entries(ifaces[i]).len()
    &&& same_address(entries(ifaces[i])[j], a)
}

proof fn lemma_offers(ifaces: Seq<JsonView>, i: int, j: int, a: Address)
    ensures
        offers(ifaces, i, j, a) == holds_usable(ifaces, i, j, a),
{
    reveal(same_address);
}

#[verifier::spinoff_prover]
proof fn lemma_reachable_addresses(ifaces: Seq<JsonView>, a: Address)
    ensures
        reachable(ifaces).contains(a) <==> exists|i: int, j: int| #[trigger]
            holds_usable(ifaces, i, j, a),
    decreases ifaces.len(),
{
    if ifaces.len() > 0 {
        let rest = ifaces.drop_last();
        let last = ifaces.len() - 1;
        let v = entries(ifaces[last]);
        let b = reachable(rest);
        let c = usable_among(v);
        let all = reachable(ifaces);
        assert(all == b + c);
        lemma_reachable_addresses(rest, a);
        lemma_usable_among(v, a);
        if all.contains(a) {
            let k = choose|k: int| 0 <= k < all.len() && all[k] == a;
            if k < b.len() {
                assert(b[k] == a);
                let (i, j) = choose|i: int, j: int| #[trigger] holds_usable(rest, i, j, a);
                assert(rest[i] == ifaces[i]);
                assert(holds_usable(ifaces, i, j, a));
            } else {
                assert(c[k - b.len()] == a);
                let j = choose|j: int| 0 <= j < v.len() && same_address(#[trigger] v[j], a);
                assert(holds_usable(ifaces, last, j, a));
            }
        }
        if exists|i: int, j: int| #[trigger] holds_usable(ifaces, i, j, a) {
            let (i, j) = choose|i: int, j: int| #[trigger] holds_usable(ifaces, i, j, a);
            if i < last {
                assert(rest[i] == ifaces[i]);
                assert(holds_usable(rest, i, j, a));
                let k = choose|k: int| 0 <= k < b.len() && b[k] == a;
                assert(all[k] == a);
            } else {
                let k = choose|k: int| 0 <= k < c.len() && c[k] == a;
                assert(all[b.len() + k] == a);
            }
        }
    }
}

proof fn lemma_first_v4(a: Seq<Address>)
    ensures
        match first_v4(a) {
            Some(x) => a.contains(x) && x is V4,
            None => forall|k: int| 0 <= k < a.len() ==> !((#[trigger] a[k]) is V4),
        },
    decreases a.len(),
{
    if a.len() > 0 && !(a[0] is V4) {
        let rest = a.skip(1);
        lemma_first_v4(rest);
        match first_v4(rest) {
            Some(x) => {
                let k = choose|k: int| 0 <= k < rest.len() && rest[k] == x;
                assert(a[k + 1] == x);
            },
            None => {
                assert forall|k: int| 0 <= k < a.len() implies !((#[trigger] a[k]) is V4) by {
                    if k > 0 {
                        assert(rest[k - 1] == a[k]);
                    }
                }
            },
        }
    }
}

/// The address that is chosen is one that some interface offers, and is neither a
/// loopback nor a link-local one; it is an IPv6 one only where no IPv4 one is on
/// offer, and there is none only where nothing is.
pub proof fn law_the_chosen_address_is_worth_talking_to(data: JsonView, b: Address, i: int, j: int)
    ensures
        match interfaces(data) {
            None => chosen_address(data) is None,
            Some(ifaces) => match chosen_address(data) {
                None => !offers(ifaces, i, j, b),
                Some(a) => {
                    &&& exists|k: int, l: int| #[trigger] offers(ifaces, k, l, a)
                    &&& offers(ifaces, i, j, b) && b is V4 ==> a is V4
                },
            },
        },
{
    match interfaces(data) {
        None => {},
        Some(ifaces) => {
            let all = reachable(ifaces);
            lemma_first_v4(all);
            lemma_reachable_addresses(ifaces, b);
            lemma_offers(ifaces, i, j, b);
            if chosen_address(data) is Some {
                let a = chosen_address(data)->0;
                if !(first_v4(all) is Some) {
                    assert(all[0] == a);
                }
                assert(all.contains(a));
                lemma_reachable_addresses(ifaces, a);
                let (k, l) = choose|k: int, l: int| #[trigger] holds_usable(ifaces, k, l, a);
                lemma_offers(ifaces, k, l, a);
                assert(offers(ifaces, k, l, a));
            }
            if holds_usable(ifaces, i, j, b) {
                assert(all.contains(b));
                let k = choose|k: int| 0 <= k < all.len() && all[k] == b;
                assert(all[k] == b);
            }
        },
    }
}

}
