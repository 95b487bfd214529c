//! Session bookkeeping.
//!
//! A session is the pairing of a project with a machine. This store is what
//! lets `list` show sessions rather than raw machines, and what lets `down`
//! find the heartbeat it has to stop.
//!
//! It is a cache of things the provider also knows, not a source of truth. If
//! it is lost, sessions become hard to find; they do not become immortal. That
//! is the whole reason the expiry lives on the machine itself, where a sweeper
//! can read it without this file existing at all.
//!
//! Nothing here touches a file. Each operation takes what the store's file
//! holds, and one that changes the store gives back what the file is to hold.
use vstd::prelude::*;
use vstd::string::*;

use crate::address::{address_text, reads, Address};
use crate::decode::{
    check_table, distinct, lemma_field, seen, spell_at, spell_out, spelled_at, spelled_out,
    table_problem, wrong, wrong_type, Field, Kind,
};
use crate::dict::{
    ascending, distinct_names, find, lemma_ascending_distinct, lemma_find_distinct, lemma_mapped_find, lemma_mapped_place, lemma_mapped_without,
    lemma_place_ascending, lemma_place_find, mapped, place, without, Dict,
};
use crate::json::{
    fit, json_reads, lemma_members, lemma_plain_fit, member, members_in, members_view, plain,
    pretty_writes, read_json, text_at, uint_at, write_pretty, Json, JsonView,
    READ_DEPTH,
};
use crate::paths::{join, joined, maybe, parent, parent_of, state_file, state_path, with_ext,
    with_extension, Environment};
use crate::provider::MachineRef;
use crate::text::{dec, decimal};
use crate::time::{Duration, SystemTime};

verus! {

#[derive(Debug)]
pub enum StoreError<S = String> {
    Io { path: S, source: S },
    Corrupt { path: S, message: S },
    /// Another *live* process holds the lock and did not let go in time.
    Locked { path: S, waited: Duration },
}

pub type StoreErrorView = StoreError<Seq<char>>;

pub open spec fn store_error_text(e: StoreErrorView) -> Seq<char> {
    match e {
        StoreError::Io { path, source } => path + ": "@ + source,
        StoreError::Corrupt { path, message } => path + ": unreadable session store: "@ + message,
        StoreError::Locked { path, waited } => path
            + ": another reaper is holding the session lock and did not let go within "@ + dec(
            (waited@ / 1_000_000_000) as nat,
        )
            + "s. It is a live process, not a leftover file -- the lock is released by the kernel when its holder exits, so there is nothing here to clear by hand. Wait for the other command, or find it with `ps`"@,
    }
}

impl StoreError<String> {
    pub open spec fn view(&self) -> StoreErrorView {
        match self {
            StoreError::Io { path, source } => StoreError::Io { path: path@, source: source@ },
            StoreError::Corrupt { path, message } => StoreError::Corrupt {
                path: path@,
                message: message@,
            },
            StoreError::Locked { path, waited } => StoreError::Locked {
                path: path@,
                waited: *waited,
            },
        }
    }

    pub fn message(&self) -> (r: String)
        ensures
            r@ == store_error_text(self@),
    {
        match self {
            StoreError::Io { path, source } => path.clone().concat(": ").concat(source.as_str()),
            StoreError::Corrupt { path, message } => path.clone().concat(
                ": unreadable session store: ",
            ).concat(message.as_str()),
            StoreError::Locked { path, waited } => path.clone().concat(
                ": another reaper is holding the session lock and did not let go within ",
            ).concat(decimal(waited.as_secs()).as_str()).concat(
                "s. It is a live process, not a leftover file -- the lock is released by the kernel when its holder exits, so there is nothing here to clear by hand. Wait for the other command, or find it with `ps`",
            ),
        }
    }
}

pub struct Session {
    pub name: String,
    pub project: String,
    pub guest: String,
    pub template: String,
    pub machine: MachineRef,
    pub address: Option<Address>,
    pub created_at: SystemTime,
    /// When the machine first reported an address. `None` means it never has,
    /// and the session is still living on its creation grace.
    pub ready_at: Option<SystemTime>,
    pub expires_at: SystemTime,
    pub ttl: Duration,
    /// The heartbeat renewing this session's expiry, if one was started.
    pub heartbeat_pid: Option<u32>,
    /// When a working tree was last pushed into this session. `None` means one
    /// never has been, which is how `down` knows there is nothing to collect on
    /// the way past.
    pub synced_at: Option<SystemTime>,
}

/// A session, with its times in nanoseconds since the epoch.
#[verifier::ext_equal]
pub struct SessionView {
    pub name: Seq<char>,
    pub project: Seq<char>,
    pub guest: Seq<char>,
    pub template: Seq<char>,
    pub machine: Seq<char>,
    pub address: Option<Address>,
    pub created_at: int,
    pub ready_at: Option<int>,
    pub expires_at: int,
    pub ttl: int,
    pub heartbeat_pid: Option<u32>,
    pub synced_at: Option<int>,
}

pub open spec fn moment(t: Option<SystemTime>) -> Option<int> {
    match t {
        Some(x) => Some(x@),
        None => None,
    }
}

impl Session {
    pub open spec fn view(&self) -> SessionView {
        SessionView {
            name: self.name@,
            project: self.project@,
            guest: self.guest@,
            template: self.template@,
            machine: self.machine.0@,
            address: self.address,
            created_at: self.created_at@,
            ready_at: moment(self.ready_at),
            expires_at: self.expires_at@,
            ttl: self.ttl@,
            heartbeat_pid: self.heartbeat_pid,
            synced_at: moment(self.synced_at),
        }
    }

    pub fn copy(&self) -> (r: Session)
        ensures
            r == *self,
    {
        Session {
            name: self.name.clone(),
            project: self.project.clone(),
            guest: self.guest.clone(),
            template: self.template.clone(),
            machine: MachineRef(self.machine.0.clone()),
            address: self.address,
            created_at: self.created_at,
            ready_at: self.ready_at,
            expires_at: self.expires_at,
            ttl: self.ttl,
            heartbeat_pid: self.heartbeat_pid,
            synced_at: self.synced_at,
        }
    }

    /// Time left before a sweeper may collect the machine, or `None` if that
    /// moment has passed.
    pub fn remaining(&self, now: SystemTime) -> (r: Option<Duration>)
        ensures
            match r {
                Some(d) => d@ == self@.expires_at - now@,
                None => self@.expires_at < now@,
            },
    {
        self.expires_at.duration_since(&now)
    }

    pub fn age(&self, now: SystemTime) -> (r: Duration)
        ensures
            r@ == (if now@ < self@.created_at {
                0
            } else {
                now@ - self@.created_at
            }),
    {
        match now.duration_since(&self.created_at) {
            Some(d) => {
                d.bounds();
                d
            },
            None => Duration::from_secs(0),
        }
    }
}

// ---------------------------------------------------------------------------
// A session as a tree
// ---------------------------------------------------------------------------

/// The last second that a `SystemTime` can stand for.
pub const LAST_SECOND: u64 = 0x7fff_ffff_ffff_ffff;

/// Times are stored as whole seconds since the epoch. Not because precision is
/// unwelcome, but because this file is read by people during incidents, and a
/// number they can paste into `date` is worth more than nanoseconds.
pub open spec fn seconds(t: int) -> int {
    if t < 0 {
        0
    } else {
        t / 1_000_000_000
    }
}

pub open spec fn time_json(t: Option<int>) -> JsonView {
    match t {
        Some(x) => JsonView::Int(seconds(x) as i128),
        None => JsonView::Null,
    }
}

/// What a session is written as, member by member. The order is that in which a
/// reader of the file looks for things.
pub open spec fn session_pairs(s: SessionView) -> Seq<(Seq<char>, JsonView)> {
    seq![
        ("name"@, JsonView::Str(s.name)),
        ("project"@, JsonView::Str(s.project)),
        ("guest"@, JsonView::Str(s.guest)),
        ("template"@, JsonView::Str(s.template)),
        ("machine"@, JsonView::Str(s.machine)),
        (
            "address"@,
            match s.address {
                Some(a) => JsonView::Str(address_text(a)),
                None => JsonView::Null,
            },
        ),
        ("created_at"@, time_json(Some(s.created_at))),
        ("ready_at"@, time_json(s.ready_at)),
        ("expires_at"@, time_json(Some(s.expires_at))),
        ("ttl"@, JsonView::Int((s.ttl / 1_000_000_000) as i128)),
        (
            "heartbeat_pid"@,
            match s.heartbeat_pid {
                Some(p) => JsonView::Int(p as i128),
                None => JsonView::Null,
            },
        ),
        ("synced_at"@, time_json(s.synced_at)),
    ]
}

/// The pairs, in the order of their names.
pub open spec fn sorted<V>(pairs: Seq<(Seq<char>, V)>) -> Seq<(Seq<char>, V)>
    decreases pairs.len(),
{
    if pairs.len() == 0 {
        Seq::empty()
    } else {
        place(sorted(pairs.drop_last()), pairs.last().0, pairs.last().1)
    }
}

pub open spec fn session_json(s: SessionView) -> JsonView {
    JsonView::Object(session_pairs(s))
}

pub open spec fn session_fields() -> Seq<Field> {
    seq![
        Field { name: "name", kind: Kind::Text, required: true, nullable: false },
        Field { name: "project", kind: Kind::Text, required: true, nullable: false },
        Field { name: "guest", kind: Kind::Text, required: true, nullable: false },
        Field { name: "template", kind: Kind::Text, required: true, nullable: false },
        Field { name: "machine", kind: Kind::Text, required: true, nullable: false },
        Field { name: "address", kind: Kind::Text, required: false, nullable: true },
        Field { name: "created_at", kind: Kind::U64, required: true, nullable: false },
        Field { name: "ready_at", kind: Kind::U64, required: false, nullable: true },
        Field { name: "expires_at", kind: Kind::U64, required: true, nullable: false },
        Field { name: "ttl", kind: Kind::U64, required: true, nullable: false },
        Field { name: "heartbeat_pid", kind: Kind::U32, required: false, nullable: true },
        Field { name: "synced_at", kind: Kind::U64, required: false, nullable: true },
    ]
}

fn session_field_list() -> (r: Vec<Field>)
    ensures
        r@ == session_fields(),
{
    let v = vec![
        Field { name: "name", kind: Kind::Text, required: true, nullable: false },
        Field { name: "project", kind: Kind::Text, required: true, nullable: false },
        Field { name: "guest", kind: Kind::Text, required: true, nullable: false },
        Field { name: "template", kind: Kind::Text, required: true, nullable: false },
        Field { name: "machine", kind: Kind::Text, required: true, nullable: false },
        Field { name: "address", kind: Kind::Text, required: false, nullable: true },
        Field { name: "created_at", kind: Kind::U64, required: true, nullable: false },
        Field { name: "ready_at", kind: Kind::U64, required: false, nullable: true },
        Field { name: "expires_at", kind: Kind::U64, required: true, nullable: false },
        Field { name: "ttl", kind: Kind::U64, required: true, nullable: false },
        Field { name: "heartbeat_pid", kind: Kind::U32, required: false, nullable: true },
        Field { name: "synced_at", kind: Kind::U64, required: false, nullable: true },
    ];
    assert(v@ =~= session_fields());
    v
}

/// A number of seconds that no moment stands for.
pub open spec fn too_late(j: JsonView, key: Seq<char>) -> bool {
    uint_at(j, key) is Some && uint_at(j, key)->0 > LAST_SECOND
}

/// What is wrong with a tree that should be a session, if anything is.
pub open spec fn session_problem(j: JsonView) -> Option<Seq<char>> {
    match members_in(j) {
        None => Some(wrong_type(j, "struct Session"@)),
        Some(m) => if table_problem(m, session_fields(), true) is Some {
            table_problem(m, session_fields(), true)
        } else if text_at(j, "address"@) is Some && reads(text_at(j, "address"@)->0) is None {
            Some("invalid IP address syntax"@)
        } else if too_late(j, "created_at"@) || too_late(j, "ready_at"@) || too_late(
            j,
            "expires_at"@,
        ) || too_late(j, "synced_at"@) {
            Some("epoch seconds overflow SystemTime"@)
        } else {
            None
        },
    }
}

pub open spec fn time_at(j: JsonView, key: Seq<char>) -> Option<int> {
    match uint_at(j, key) {
        Some(n) => Some(n * 1_000_000_000),
        None => None,
    }
}

/// The session that a tree without problems holds.
pub open spec fn session_of(j: JsonView) -> SessionView {
    SessionView {
        name: text_at(j, "name"@)->0,
        project: text_at(j, "project"@)->0,
        guest: text_at(j, "guest"@)->0,
        template: text_at(j, "template"@)->0,
        machine: text_at(j, "machine"@)->0,
        address: match text_at(j, "address"@) {
            Some(a) => reads(a),
            None => None,
        },
        created_at: time_at(j, "created_at"@)->0,
        ready_at: time_at(j, "ready_at"@),
        expires_at: time_at(j, "expires_at"@)->0,
        ttl: time_at(j, "ttl"@)->0,
        heartbeat_pid: match uint_at(j, "heartbeat_pid"@) {
            Some(p) => Some(p as u32),
            None => None,
        },
        synced_at: time_at(j, "synced_at"@),
    }
}

/// A time cut off to whole seconds, and none before the epoch.
pub open spec fn cut(t: int) -> int {
    seconds(t) * 1_000_000_000
}

pub open spec fn cut_maybe(t: Option<int>) -> Option<int> {
    match t {
        Some(x) => Some(cut(x)),
        None => None,
    }
}

/// A session as the store keeps it.
pub open spec fn kept(s: SessionView) -> SessionView {
    SessionView {
        created_at: cut(s.created_at),
        ready_at: cut_maybe(s.ready_at),
        expires_at: cut(s.expires_at),
        ttl: (s.ttl / 1_000_000_000) * 1_000_000_000,
        synced_at: cut_maybe(s.synced_at),
        ..s
    }
}

// ---------------------------------------------------------------------------
// What is written reads back
// ---------------------------------------------------------------------------

proof fn lemma_sorted<V>(pairs: Seq<(Seq<char>, V)>)
    ensures
        ascending(sorted(pairs)),
    decreases pairs.len(),
{
    if pairs.len() > 0 {
        lemma_sorted(pairs.drop_last());
        lemma_place_ascending(sorted(pairs.drop_last()), pairs.last().0, pairs.last().1);
    }
}

/// Every one of the sorted pairs is one of the pairs.
proof fn lemma_sorted_all<V>(pairs: Seq<(Seq<char>, V)>, p: spec_fn((Seq<char>, V)) -> bool)
    requires
        forall|i: int| 0 <= i < pairs.len() ==> p(#[trigger] pairs[i]),
    ensures
        forall|i: int| 0 <= i < sorted(pairs).len() ==> p(#[trigger] sorted(pairs)[i]),
    decreases pairs.len(),
{
    if pairs.len() > 0 {
        let rest = pairs.drop_last();
        assert forall|i: int| 0 <= i < rest.len() implies p(#[trigger] rest[i]) by {
            assert(rest[i] == pairs[i]);
        }
        lemma_sorted_all(rest, p);
        assert(p(pairs[pairs.len() - 1]));
        lemma_place_all(sorted(rest), pairs.last().0, pairs.last().1, p);
    }
}

proof fn lemma_place_all<V>(
    pairs: Seq<(Seq<char>, V)>,
    key: Seq<char>,
    value: V,
    p: spec_fn((Seq<char>, V)) -> bool,
)
    requires
        forall|i: int| 0 <= i < pairs.len() ==> p(#[trigger] pairs[i]),
        p((key, value)),
    ensures
        forall|i: int|
            0 <= i < place(pairs, key, value).len() ==> p(#[trigger] place(pairs, key, value)[i]),
    decreases pairs.len(),
{
    let q = place(pairs, key, value);
    if pairs.len() > 0 {
        let rest = pairs.skip(1);
        assert forall|i: int| 0 <= i < rest.len() implies p(#[trigger] rest[i]) by {
            assert(rest[i] == pairs[i + 1]);
        }
        lemma_place_all(rest, key, value, p);
        assert forall|i: int| 0 <= i < q.len() implies p(#[trigger] q[i]) by {
            if pairs[0].0 == key {
                if i > 0 {
                    assert(q[i] == pairs[i]);
                }
            } else if crate::scan::before(key, pairs[0].0) {
                if i > 0 {
                    assert(q[i] == pairs[i - 1]);
                }
            } else if i == 0 {
                assert(q[i] == pairs[0]);
            } else {
                assert(q[i] == place(rest, key, value)[i - 1]);
            }
        }
    }
}

/// Pairs that are in order already stay as they are.
proof fn lemma_sorted_same<V>(pairs: Seq<(Seq<char>, V)>)
    requires
        ascending(pairs),
    ensures
        sorted(pairs) == pairs,
    decreases pairs.len(),
{
    if pairs.len() > 0 {
        let rest = pairs.drop_last();
        assert forall|i: int, j: int| 0 <= i < j < rest.len() implies crate::scan::before(
            #[trigger] rest[i].0,
            #[trigger] rest[j].0,
        ) by {
            assert(rest[i] == pairs[i] && rest[j] == pairs[j]);
        }
        lemma_sorted_same(rest);
        lemma_place_last(rest, pairs.last());
        assert(rest.push(pairs.last()) =~= pairs);
    } else {
        assert(pairs =~= Seq::empty());
    }
}

proof fn lemma_place_last<V>(pairs: Seq<(Seq<char>, V)>, last: (Seq<char>, V))
    requires
        ascending(pairs.push(last)),
    ensures
        place(pairs, last.0, last.1) == pairs.push(last),
    decreases pairs.len(),
{
    let all = pairs.push(last);
    if pairs.len() == 0 {
        assert(place(pairs, last.0, last.1) =~= all);
    } else {
        let rest = pairs.skip(1);
        assert(crate::scan::before(all[0].0, all[all.len() - 1].0));
        crate::scan::lemma_before_strict(pairs[0].0, last.0);
        assert forall|i: int, j: int| 0 <= i < j < rest.push(last).len() implies crate::scan::before(
            #[trigger] rest.push(last)[i].0,
            #[trigger] rest.push(last)[j].0,
        ) by {
            assert(rest.push(last)[i] == all[i + 1] && rest.push(last)[j] == all[j + 1]);
        }
        lemma_place_last(rest, last);
        assert(place(pairs, last.0, last.1) =~= all);
    }
}

proof fn lemma_names()
    ensures
        distinct(session_fields()),
        forall|s: SessionView| distinct_names(#[trigger] session_pairs(s)),
{
    reveal_strlit("name");
    reveal_strlit("project");
    reveal_strlit("guest");
    reveal_strlit("template");
    reveal_strlit("machine");
    reveal_strlit("address");
    reveal_strlit("created_at");
    reveal_strlit("ready_at");
    reveal_strlit("expires_at");
    reveal_strlit("ttl");
    reveal_strlit("heartbeat_pid");
    reveal_strlit("synced_at");
    assert("name"@.len() == 4 && "project"@.len() == 7 && "guest"@.len() == 5);
    assert("template"@.len() == 8 && "machine"@.len() == 7 && "address"@.len() == 7);
    assert("created_at"@.len() == 10 && "ready_at"@.len() == 8 && "expires_at"@.len() == 10);
    assert("ttl"@.len() == 3 && "heartbeat_pid"@.len() == 13 && "synced_at"@.len() == 9);
    assert("project"@[0] == 'p' && "machine"@[0] == 'm' && "address"@[0] == 'a');
    assert("created_at"@[0] == 'c' && "expires_at"@[0] == 'e');
    assert("template"@[0] == 't' && "ready_at"@[0] == 'r');
}

/// The times of a session are ones that a `SystemTime` stands for, and its
/// span one that a `Duration` does.
pub open spec fn timely(s: SessionView) -> bool {
    &&& s.created_at <= crate::time::last_moment()
    &&& s.ready_at is Some ==> s.ready_at->0 <= crate::time::last_moment()
    &&& s.expires_at <= crate::time::last_moment()
    &&& 0 <= s.ttl <= crate::time::longest()
    &&& s.synced_at is Some ==> s.synced_at->0 <= crate::time::last_moment()
}

/// A session that is written reads back as the store keeps it: whole but for
/// the parts of a second.
pub proof fn law_a_session_reads_back(s: SessionView)
    requires
        timely(s),
    ensures
        session_problem(session_json(s)) is None,
        session_of(session_json(s)) == kept(s),
        plain(session_json(s), 1),
{
    let m = session_pairs(s);
    let j = session_json(s);
    let f = session_fields();
    lemma_names();
    assert(distinct_names(m));
    lemma_find_distinct(m, 0);
    lemma_find_distinct(m, 1);
    lemma_find_distinct(m, 2);
    lemma_find_distinct(m, 3);
    lemma_find_distinct(m, 4);
    lemma_find_distinct(m, 5);
    lemma_find_distinct(m, 6);
    lemma_find_distinct(m, 7);
    lemma_find_distinct(m, 8);
    lemma_find_distinct(m, 9);
    lemma_find_distinct(m, 10);
    lemma_find_distinct(m, 11);
    assert(plain(j, 1)) by {
        assert forall|i: int| 0 <= i < m.len() implies plain((#[trigger] m[i]).1, 0) by {}
    }
    assert(table_problem(m, f, true) is None) by {
        assert forall|i: int| 0 <= i < m.len() implies crate::decode::field_named(
            f,
            (#[trigger] m[i]).0,
        ) is Some && crate::decode::field_problem(
            m[i].1,
            crate::decode::field_named(f, m[i].0)->0,
        ) is None by {
            crate::decode::lemma_named(f, i);
            assert(f[i].name@ == m[i].0);
        }
        assert forall|i: int| 0 <= i < f.len() && (#[trigger] f[i]).required implies find(
            m,
            f[i].name@,
        ) is Some by {
            lemma_find_distinct(m, i);
            assert(f[i].name@ == m[i].0);
        }
        crate::decode::lemma_no_problem(m, f, true);
    }
    if s.address is Some {
        crate::address::law_addresses_read_back(s.address->0);
    }
    assert(session_of(j) =~= kept(s));
}

/// Cutting a time off never moves it forward, and what was cut off once stays.
pub proof fn law_times_never_round_forward(s: SessionView)
    requires
        0 <= s.created_at,
        0 <= s.expires_at,
    ensures
        kept(s).created_at <= s.created_at < kept(s).created_at + 1_000_000_000,
        kept(s).expires_at <= s.expires_at < kept(s).expires_at + 1_000_000_000,
        kept(kept(s)) == kept(s),
{
    assert(kept(kept(s)) =~= kept(s));
}

// ---------------------------------------------------------------------------
// The store as a tree
// ---------------------------------------------------------------------------

/// The version of the store's format. Versioned from the start, because the
/// alternative is guessing later what an unversioned file meant.
pub const VERSION: u32 = 1;

/// Sessions under their names, in the order of the names.
pub type Sessions = Seq<(Seq<char>, SessionView)>;

pub open spec fn document_pairs(d: Sessions) -> Seq<(Seq<char>, JsonView)> {
    seq![
        ("version"@, JsonView::Int(VERSION as i128)),
        ("sessions"@, JsonView::Object(mapped(d, |s: SessionView| session_json(s)))),
    ]
}

pub open spec fn document_json(d: Sessions) -> JsonView {
    JsonView::Object(document_pairs(d))
}

pub open spec fn document_fields() -> Seq<Field> {
    seq![
        Field { name: "version", kind: Kind::U32, required: true, nullable: false },
        Field { name: "sessions", kind: Kind::Table, required: true, nullable: false },
    ]
}

fn document_field_list() -> (r: Vec<Field>)
    ensures
        r@ == document_fields(),
{
    let v = vec![
        Field { name: "version", kind: Kind::U32, required: true, nullable: false },
        Field { name: "sessions", kind: Kind::Table, required: true, nullable: false },
    ];
    assert(v@ =~= document_fields());
    v
}

pub open spec fn first_session_problem(m: Seq<(Seq<char>, JsonView)>) -> Option<Seq<char>>
    decreases m.len(),
{
    if m.len() == 0 {
        None
    } else {
        match session_problem(m[0].1) {
            Some(p) => Some(p),
            None => first_session_problem(m.skip(1)),
        }
    }
}

/// The members of the table that holds the sessions.
pub open spec fn session_members(j: JsonView) -> Seq<(Seq<char>, JsonView)> {
    members_in(member(j, "sessions"@)->0)->0
}

/// Why a tree is no store that this version wrote, if it is none.
pub open spec fn document_problem(j: JsonView) -> Option<Seq<char>> {
    match members_in(j) {
        None => Some(wrong_type(j, "struct Document"@)),
        Some(m) => if table_problem(m, document_fields(), true) is Some {
            table_problem(m, document_fields(), true)
        } else if first_session_problem(session_members(j)) is Some {
            first_session_problem(session_members(j))
        } else if uint_at(j, "version"@)->0 != VERSION {
            Some(
                "written by a different version of reaper (file says "@ + dec(
                    uint_at(j, "version"@)->0 as nat,
                ) + ", this is "@ + dec(VERSION as nat) + ")"@,
            )
        } else {
            None
        },
    }
}

pub open spec fn sessions_of(m: Seq<(Seq<char>, JsonView)>) -> Sessions {
    sorted(mapped(m, |j: JsonView| session_of(j)))
}

/// The fields of the store in the order in which a list gives them.
pub open spec fn document_order() -> Seq<&'static str> {
    seq!["version", "sessions"]
}

pub open spec fn session_order() -> Seq<&'static str> {
    seq![
        "name",
        "project",
        "guest",
        "template",
        "machine",
        "address",
        "created_at",
        "ready_at",
        "expires_at",
        "ttl",
        "heartbeat_pid",
        "synced_at",
    ]
}

/// The store with its records as tables. A record may be written as a list, too;
/// of a session's the last two, which need not be there, may be missing.
pub open spec fn tabled(j: JsonView) -> JsonView {
    spelled_at(
        spelled_out(j, document_order(), 2, false),
        "sessions"@,
        true,
        session_order(),
        10,
        false,
    )
}

fn make_tables(j: &Json) -> (r: Json)
    ensures
        r@ == tabled(j@),
{
    let outer: [&'static str; 2] = ["version", "sessions"];
    let inner: [&'static str; 12] = [
        "name",
        "project",
        "guest",
        "template",
        "machine",
        "address",
        "created_at",
        "ready_at",
        "expires_at",
        "ttl",
        "heartbeat_pid",
        "synced_at",
    ];
    assert(outer@ =~= document_order());
    assert(inner@ =~= session_order());
    let root = spell_out(j, &outer, 2, false);
    spell_at(&root, "sessions", true, &inner, 10, false)
}

/// What a store holds, given what its file holds. A store that has never been
/// written is an empty store, not an error.
pub open spec fn held(text: Option<Seq<char>>) -> Result<Sessions, Seq<char>> {
    match text {
        None => Ok(Seq::empty()),
        Some(t) => match json_reads(t) {
            Err(m) => Err(m),
            Ok(j) => match document_problem(tabled(j)) {
                Some(p) => Err(p),
                None => Ok(sessions_of(session_members(tabled(j)))),
            },
        },
    }
}

/// The text holds these sessions.
pub open spec fn holds(text: Seq<char>, d: Sessions) -> bool {
    &&& pretty_writes(document_json(d)) == Ok::<Seq<char>, Seq<char>>(text)
    &&& json_reads(text) == Ok::<JsonView, Seq<char>>(document_json(d))
}

pub open spec fn all_timely(d: Sessions) -> bool {
    forall|i: int| 0 <= i < d.len() ==> timely((#[trigger] d[i]).1)
}

pub open spec fn all_kept(d: Sessions) -> Sessions {
    mapped(d, |s: SessionView| kept(s))
}

proof fn lemma_document_names()
    ensures
        distinct(document_fields()),
        forall|d: Sessions| distinct_names(#[trigger] document_pairs(d)),
{
    reveal_strlit("version");
    reveal_strlit("sessions");
    assert("version"@.len() == 7 && "sessions"@.len() == 8);
}

proof fn lemma_no_session_problem(m: Seq<(Seq<char>, JsonView)>)
    requires
        forall|i: int| 0 <= i < m.len() ==> session_problem((#[trigger] m[i]).1) is None,
    ensures
        first_session_problem(m) is None,
    decreases m.len(),
{
    if m.len() > 0 {
        let rest = m.skip(1);
        assert(forall|i: int| 0 <= i < rest.len() ==> #[trigger] rest[i] == m[i + 1]);
        lemma_no_session_problem(rest);
        assert(session_problem(m[0].1) is None);
    }
}

proof fn lemma_plain_document(d: Sessions)
    requires
        ascending(d),
        all_timely(d),
    ensures
        plain(document_json(d), READ_DEPTH as nat),
        fit(document_json(d)),
{
    let f = |s: SessionView| session_json(s);
    let m = mapped(d, f);
    let p = document_pairs(d);
    assert(plain(JsonView::Object(m), 99)) by {
        lemma_ascending_distinct(d);
        assert forall|i: int, j: int| 0 <= i < j < m.len() implies (#[trigger] m[i]).0 != (
        #[trigger] m[j]).0 by {
            assert(m[i].0 == d[i].0 && m[j].0 == d[j].0);
        }
        assert forall|i: int| 0 <= i < m.len() implies plain((#[trigger] m[i]).1, 98) by {
            assert(m[i].1 == session_json(d[i].1));
            law_a_session_reads_back(d[i].1);
            lemma_deeper(m[i].1, 1, 98);
        }
    }
    lemma_document_names();
    assert forall|i: int| 0 <= i < p.len() implies plain((#[trigger] p[i]).1, 99) by {}
    lemma_plain_fit(document_json(d), 100);
}

proof fn lemma_deeper(j: JsonView, a: nat, b: nat)
    requires
        plain(j, a),
        a <= b,
    ensures
        plain(j, b),
    decreases a,
{
    match j {
        JsonView::Array(v) => {
            assert forall|i: int| 0 <= i < v.len() implies plain(
                #[trigger] v[i],
                (b - 1) as nat,
            ) by {
                lemma_deeper(v[i], (a - 1) as nat, (b - 1) as nat);
            }
        },
        JsonView::Object(m) => {
            assert forall|i: int| 0 <= i < m.len() implies plain(
                (#[trigger] m[i]).1,
                (b - 1) as nat,
            ) by {
                lemma_deeper(m[i].1, (a - 1) as nat, (b - 1) as nat);
            }
        },
        _ => {},
    }
}

/// A store that is written reads back: the same sessions under the same names,
/// whole but for the parts of a second.
pub proof fn law_the_store_reads_back(text: Seq<char>, d: Sessions)
    requires
        ascending(d),
        all_timely(d),
        holds(text, d),
    ensures
        held(Some(text)) == Ok::<Sessions, Seq<char>>(all_kept(d)),
{
    let j = document_json(d);
    let f = document_fields();
    let m = document_pairs(d);
    let write = |s: SessionView| session_json(s);
    let read = |j: JsonView| session_of(j);
    let inner = mapped(d, write);
    lemma_document_names();
    lemma_find_distinct(m, 0);
    lemma_find_distinct(m, 1);
    assert(table_problem(m, f, true) is None) by {
        assert forall|i: int| 0 <= i < m.len() implies crate::decode::field_named(
            f,
            (#[trigger] m[i]).0,
        ) is Some && crate::decode::field_problem(
            m[i].1,
            crate::decode::field_named(f, m[i].0)->0,
        ) is None by {
            crate::decode::lemma_named(f, i);
            assert(f[i].name@ == m[i].0);
        }
        assert forall|i: int| 0 <= i < f.len() && (#[trigger] f[i]).required implies find(
            m,
            f[i].name@,
        ) is Some by {
            lemma_find_distinct(m, i);
            assert(f[i].name@ == m[i].0);
        }
        crate::decode::lemma_no_problem(m, f, true);
    }
    assert(session_members(j) == inner);
    assert(tabled(j) == j) by {
        let whole = mapped(inner, |v: JsonView| spelled_out(v, session_order(), 10, false));
        assert(whole =~= inner);
        reveal_strlit("version");
        reveal_strlit("sessions");
        assert("version"@.len() == 7 && "sessions"@.len() == 8);
        assert(tabled(j)->Object_0 =~= m);
    }
    assert forall|i: int| 0 <= i < inner.len() implies session_problem(
        (#[trigger] inner[i]).1,
    ) is None && session_of(inner[i].1) == kept(d[i].1) by {
        assert(timely(d[i].1));
        law_a_session_reads_back(d[i].1);
    }
    lemma_no_session_problem(inner);
    let back = mapped(inner, read);
    assert(back =~= all_kept(d)) by {
        assert forall|i: int| 0 <= i < back.len() implies back[i] == all_kept(d)[i] by {
            assert(session_of(inner[i].1) == kept(d[i].1));
        }
    }
    assert forall|i: int, k: int| 0 <= i < k < back.len() implies crate::scan::before(
        #[trigger] back[i].0,
        #[trigger] back[k].0,
    ) by {
        assert(back[i].0 == d[i].0 && back[k].0 == d[k].0);
    }
    lemma_sorted_same(back);
}

/// What a store holds is as the store keeps it, in the order of the names.
pub proof fn law_what_is_held_is_kept(text: Option<Seq<char>>)
    requires
        held(text) is Ok,
    ensures
        ascending(held(text)->Ok_0),
        all_timely(held(text)->Ok_0),
        all_kept(held(text)->Ok_0) == held(text)->Ok_0,
{
    let d = held(text)->Ok_0;
    if text is Some {
        let j = tabled(json_reads(text->0)->Ok_0);
        let m = session_members(j);
        let p = mapped(m, |j: JsonView| session_of(j));
        lemma_sorted(p);
        let ok = |x: (Seq<char>, SessionView)| timely(x.1) && kept(x.1) == x.1;
        assert forall|i: int| 0 <= i < p.len() implies ok(#[trigger] p[i]) by {
            lemma_problem_free(m, i);
            lemma_read_session(m[i].1);
            assert(p[i].1 == session_of(m[i].1));
        }
        lemma_sorted_all(p, ok);
        assert forall|i: int| 0 <= i < d.len() implies timely((#[trigger] d[i]).1) by {
            assert(ok(d[i]));
        }
        assert(all_kept(d) =~= d) by {
            assert forall|i: int| 0 <= i < d.len() implies all_kept(d)[i] == d[i] by {
                assert(ok(d[i]));
            }
        }
    } else {
        assert(all_kept(d) =~= d);
    }
}

proof fn lemma_problem_free(m: Seq<(Seq<char>, JsonView)>, i: int)
    requires
        first_session_problem(m) is None,
        0 <= i < m.len(),
    ensures
        session_problem(m[i].1) is None,
    decreases m.len(),
{
    if i > 0 {
        assert(m.skip(1)[i - 1] == m[i]);
        lemma_problem_free(m.skip(1), i - 1);
    }
}

proof fn lemma_read_session(j: JsonView)
    requires
        session_problem(j) is None,
    ensures
        timely(session_of(j)),
        kept(session_of(j)) == session_of(j),
{
    assert(uint_at(j, "created_at"@) is Some && uint_at(j, "expires_at"@) is Some && uint_at(
        j,
        "ttl"@,
    ) is Some) by {
        lemma_names();
        let m = members_in(j)->0;
        let f = session_fields();
        lemma_field(m, f, true, 6);
        lemma_field(m, f, true, 8);
        lemma_field(m, f, true, 9);
        assert(f[6].name@ == "created_at"@);
        assert(f[8].name@ == "expires_at"@);
        assert(f[9].name@ == "ttl"@);
    }
    let s = session_of(j);
    lemma_whole(uint_at(j, "created_at"@)->0);
    lemma_whole(uint_at(j, "expires_at"@)->0);
    lemma_whole(uint_at(j, "ttl"@)->0);
    if uint_at(j, "ready_at"@) is Some {
        lemma_whole(uint_at(j, "ready_at"@)->0);
    }
    if uint_at(j, "synced_at"@) is Some {
        lemma_whole(uint_at(j, "synced_at"@)->0);
    }
    assert(kept(s) =~= s);
}

proof fn lemma_whole(n: u64)
    ensures
        cut(n * 1_000_000_000) == n * 1_000_000_000,
        ((n * 1_000_000_000) / 1_000_000_000) * 1_000_000_000 == n * 1_000_000_000,
        0 <= n * 1_000_000_000 <= crate::time::longest(),
        n <= LAST_SECOND ==> n * 1_000_000_000 <= crate::time::last_moment(),
{
}

/// A session that is put is got back under its name, and every other session
/// stands as it stood.
pub proof fn law_put_changes_one_session(
    before: Option<Seq<char>>,
    after: Seq<char>,
    s: SessionView,
    other: Seq<char>,
)
    requires
        held(before) is Ok,
        timely(s),
        holds(after, place(held(before)->Ok_0, s.name, s)),
    ensures
        held(Some(after)) is Ok,
        find(held(Some(after))->Ok_0, s.name) == Some(kept(s)),
        other != s.name ==> find(held(Some(after))->Ok_0, other) == find(
            held(before)->Ok_0,
            other,
        ),
{
    let d = held(before)->Ok_0;
    let e = place(d, s.name, s);
    let k = |x: SessionView| kept(x);
    law_what_is_held_is_kept(before);
    lemma_place_ascending(d, s.name, s);
    let ok = |x: (Seq<char>, SessionView)| timely(x.1);
    assert forall|i: int| 0 <= i < d.len() implies ok(#[trigger] d[i]) by {}
    lemma_place_all(d, s.name, s, ok);
    assert forall|i: int| 0 <= i < e.len() implies timely((#[trigger] e[i]).1) by {
        assert(ok(e[i]));
    }
    law_the_store_reads_back(after, e);
    lemma_mapped_find(e, k, s.name);
    lemma_mapped_find(e, k, other);
    lemma_mapped_find(d, k, other);
    lemma_place_find(d, s.name, s, s.name);
    lemma_place_find(d, s.name, s, other);
}

/// A session that is removed is not there any more, and every other session
/// stands as it stood.
pub proof fn law_remove_forgets_one_session(
    before: Option<Seq<char>>,
    after: Seq<char>,
    name: Seq<char>,
    other: Seq<char>,
)
    requires
        held(before) is Ok,
        holds(after, without(held(before)->Ok_0, name)),
    ensures
        held(Some(after)) is Ok,
        find(held(Some(after))->Ok_0, name) is None,
        other != name ==> find(held(Some(after))->Ok_0, other) == find(held(before)->Ok_0, other),
{
    let d = held(before)->Ok_0;
    let e = without(d, name);
    let k = |x: SessionView| kept(x);
    law_what_is_held_is_kept(before);
    lemma_without_all(d, name);
    crate::dict::lemma_without(d, name, name);
    crate::dict::lemma_without(d, name, other);
    law_the_store_reads_back(after, e);
    lemma_mapped_find(e, k, name);
    lemma_mapped_find(e, k, other);
    lemma_mapped_find(d, k, other);
}

proof fn lemma_without_all(d: Sessions, name: Seq<char>)
    requires
        ascending(d),
        all_timely(d),
    ensures
        ascending(without(d, name)),
        all_timely(without(d, name)),
{
    let r = lemma_without_one(d, name);
    let e = without(d, name);
    assert forall|i: int, k: int| 0 <= i < k < e.len() implies crate::scan::before(
        #[trigger] e[i].0,
        #[trigger] e[k].0,
    ) by {
        let a = if r < 0 || i < r {
            i
        } else {
            i + 1
        };
        let b = if r < 0 || k < r {
            k
        } else {
            k + 1
        };
        assert(e[i] == d[a] && e[k] == d[b]);
    }
    assert forall|i: int| 0 <= i < e.len() implies timely((#[trigger] e[i]).1) by {
        let a = if r < 0 || i < r {
            i
        } else {
            i + 1
        };
        assert(e[i] == d[a]);
    }
}

/// Which session goes, if one does.
proof fn lemma_without_one(d: Sessions, name: Seq<char>) -> (r: int)
    ensures
        r < d.len(),
        r < 0 ==> without(d, name) == d,
        r >= 0 ==> without(d, name) == d.remove(r),
    decreases d.len(),
{
    if d.len() == 0 {
        -1
    } else if d[0].0 == name {
        assert(d.skip(1) =~= d.remove(0));
        0
    } else {
        let r = lemma_without_one(d.skip(1), name);
        if r < 0 {
            assert(seq![d[0]] + d.skip(1) =~= d);
            -1
        } else {
            assert(seq![d[0]] + d.skip(1).remove(r) =~= d.remove(r + 1));
            r + 1
        }
    }
}

// ---------------------------------------------------------------------------
// The store
// ---------------------------------------------------------------------------

pub struct Store {
    pub path: String,
    pub lock_timeout: Duration,
}

/// What is changed of a session in place.
pub enum Change {
    /// The expiry moves.
    Expiry(SystemTime),
    /// The expiry moves, and so does how long a renewal lasts.
    Renewal(SystemTime, Duration),
    Heartbeat(Option<u32>),
    Synced(SystemTime),
}

pub open spec fn changed(s: SessionView, c: Change) -> SessionView {
    match c {
        Change::Expiry(t) => SessionView { expires_at: t@, ..s },
        Change::Renewal(t, d) => SessionView { expires_at: t@, ttl: d@, ..s },
        Change::Heartbeat(p) => SessionView { heartbeat_pid: p, ..s },
        Change::Synced(t) => SessionView { synced_at: Some(t@), ..s },
    }
}

/// What the store is to hold once a session in it was changed: nothing else if
/// the session is not there.
pub open spec fn updated(d: Sessions, name: Seq<char>, change: Change) -> Sessions {
    match find(d, name) {
        Some(s) => place(d, name, changed(s, change)),
        None => d,
    }
}

/// A session that is changed in place reads back as changed, and every other
/// session stands as it stood. Where there is no such session, all of them do.
pub proof fn law_update_changes_one_session(
    before: Option<Seq<char>>,
    after: Seq<char>,
    name: Seq<char>,
    change: Change,
    other: Seq<char>,
)
    requires
        held(before) is Ok,
        find(held(before)->Ok_0, name) is Some ==> timely(
            changed(find(held(before)->Ok_0, name)->0, change),
        ),
        holds(after, updated(held(before)->Ok_0, name, change)),
    ensures
        held(Some(after)) is Ok,
        find(held(Some(after))->Ok_0, name) == (match find(held(before)->Ok_0, name) {
            Some(old) => Some(kept(changed(old, change))),
            None => None,
        }),
        other != name ==> find(held(Some(after))->Ok_0, other) == find(held(before)->Ok_0, other),
{
    let d = held(before)->Ok_0;
    let e = updated(d, name, change);
    let k = |x: SessionView| kept(x);
    law_what_is_held_is_kept(before);
    if find(d, name) is Some {
        let s = changed(find(d, name)->0, change);
        lemma_place_ascending(d, name, s);
        let ok = |x: (Seq<char>, SessionView)| timely(x.1);
        assert forall|i: int| 0 <= i < d.len() implies ok(#[trigger] d[i]) by {}
        lemma_place_all(d, name, s, ok);
        assert forall|i: int| 0 <= i < e.len() implies timely((#[trigger] e[i]).1) by {
            assert(ok(e[i]));
        }
        lemma_place_find(d, name, s, name);
        lemma_place_find(d, name, s, other);
    }
    law_the_store_reads_back(after, e);
    lemma_mapped_find(e, k, name);
    lemma_mapped_find(e, k, other);
    lemma_mapped_find(d, k, name);
    lemma_mapped_find(d, k, other);
}

pub open spec fn corrupt(path: Seq<char>, message: Seq<char>) -> StoreErrorView {
    StoreError::Corrupt { path, message }
}

pub open spec fn session_views(v: Seq<Session>) -> Seq<SessionView> {
    v.map_values(|s: Session| s@)
}

pub open spec fn views(d: Seq<(Seq<char>, Session)>) -> Sessions {
    mapped(d, |s: Session| s@)
}

pub open spec fn values(d: Sessions) -> Seq<SessionView> {
    d.map_values(|p: (Seq<char>, SessionView)| p.1)
}

/// What trying to lock the store's lock file came to.
pub enum Attempt {
    Got,
    /// Somebody live has it.
    Busy,
    /// The lock could not be attempted at all.
    Fault(String),
}

pub enum LockStep {
    Hold,
    /// Wait a moment and try again.
    Wait,
    GiveUp(StoreError),
}

/// What to open to learn whether the store could be written.
pub enum Probe {
    /// The store's own file, for writing.
    Open(String),
    /// A file in the directory that the store would stand in, which is made if
    /// it is not there. It is removed again.
    Create { dir: String, file: String },
}

impl Store {
    pub fn at(path: String) -> (r: Store)
        ensures
            r.path == path,
            r.lock_timeout@ == 10 * 1_000_000_000,
    {
        Store { path, lock_timeout: Duration::from_secs(10) }
    }

    pub fn with_timeouts(path: String, lock_timeout: Duration) -> (r: Store)
        ensures
            r.path == path,
            r.lock_timeout == lock_timeout,
    {
        Store { path, lock_timeout }
    }

    /// The store at the conventional location.
    pub fn open(env: &Environment) -> (r: Store)
        ensures
            r.path@ == state_path(*env),
            r.lock_timeout@ == 10 * 1_000_000_000,
    {
        Store::at(state_file(env))
    }

    pub fn path(&self) -> (r: &str)
        ensures
            r@ == self.path@,
    {
        self.path.as_str()
    }

    /// The file whose lock holds the store against every other process. The
    /// lock is an advisory lock **on** a file, not the existence of one: the
    /// kernel releases it when its holder exits, so the file is never removed.
    pub fn lock_path(&self) -> (r: String)
        ensures
            r@ == with_ext(self.path@, "lock"@),
    {
        with_extension(self.path.as_str(), "lock")
    }

    /// The file that a write goes to before it takes the store's place. Written
    /// by replacement, never in place: a crash midway would leave truncated
    /// JSON, and the next run would refuse to read it.
    pub fn temporary_path(&self, pid: u32) -> (r: String)
        ensures
            r@ == with_ext(self.path@, "tmp."@ + dec(pid as nat)),
    {
        with_extension(
            self.path.as_str(),
            "tmp.".to_string().concat(decimal(pid as u64).as_str()).as_str(),
        )
    }

    /// How to learn whether this store could be written. The probe never
    /// creates the store file itself: an empty one would read as corrupt, so an
    /// absent file is probed through its parent directory.
    pub fn probe_writable(&self, exists: bool, pid: u32) -> (r: Probe)
        ensures
            match r {
                Probe::Open(p) => exists && p@ == self.path@,
                Probe::Create { dir, file } => !exists && dir@ == (match parent(self.path@) {
                    Some(d) => d,
                    None => "."@,
                }) && file@ == joined(dir@, ".reaper-probe."@ + dec(pid as nat)),
            },
    {
        if exists {
            return Probe::Open(self.path.clone());
        }
        let dir = match parent_of(self.path.as_str()) {
            Some(d) => d,
            None => ".".to_string(),
        };
        let name = ".reaper-probe.".to_string().concat(decimal(pid as u64).as_str());
        let file = join(dir.as_str(), name.as_str());
        Probe::Create { dir, file }
    }

    /// What an attempt at the lock comes to, after so much waiting.
    pub fn lock(&self, attempt: &Attempt, waited: &Duration) -> (r: LockStep)
        ensures
            match *attempt {
                Attempt::Got => r is Hold,
                Attempt::Fault(e) => r matches LockStep::GiveUp(x) && x@ == (StoreErrorView::Io {
                    path: with_ext(self.path@, "lock"@),
                    source: e@,
                }),
                Attempt::Busy => if waited@ < self.lock_timeout@ {
                    r is Wait
                } else {
                    r matches LockStep::GiveUp(x) && x@ == (StoreErrorView::Locked {
                        path: with_ext(self.path@, "lock"@),
                        waited: self.lock_timeout,
                    })
                },
            },
    {
        match attempt {
            Attempt::Got => LockStep::Hold,
            Attempt::Fault(e) => LockStep::GiveUp(
                StoreError::Io { path: self.lock_path(), source: e.clone() },
            ),
            Attempt::Busy => {
                if waited.shorter_than(&self.lock_timeout) {
                    LockStep::Wait
                } else {
                    LockStep::GiveUp(
                        StoreError::Locked { path: self.lock_path(), waited: self.lock_timeout },
                    )
                }
            },
        }
    }

    fn corrupted(&self, message: String) -> (r: StoreError)
        ensures
            r@ == corrupt(self.path@, message@),
    {
        StoreError::Corrupt { path: self.path.clone(), message }
    }

    fn read(&self, text: &Option<String>) -> (r: Result<Dict<Session>, StoreError>)
        ensures
            match r {
                Ok(d) => held(maybe(*text)) == Ok::<Sessions, Seq<char>>(views(d@)),
                Err(e) => held(maybe(*text)) is Err && e@ == corrupt(
                    self.path@,
                    held(maybe(*text))->Err_0,
                ),
            },
    {
        let t = match text {
            None => {
                let d: Dict<Session> = Dict::new();
                assert(views(d@) =~= Seq::empty());
                return Ok(d);
            },
            Some(t) => t,
        };
        let j = match read_json(t.as_str()) {
            Ok(j) => j,
            Err(m) => {
                return Err(self.corrupted(m));
            },
        };
        match read_document(&make_tables(&j)) {
            Ok(d) => Ok(d),
            Err(m) => Err(self.corrupted(m)),
        }
    }

    fn write(&self, d: &Dict<Session>) -> (r: Result<String, StoreError>)
        ensures
            r is Ok,
            holds(r->Ok_0@, views(d@)),
    {
        let j = write_document(d);
        match write_pretty(&j) {
            Ok(t) => Ok(t),
            Err(m) => Err(self.corrupted(m)),
        }
    }

    /// The sessions, in the order of their names.
    pub fn list(&self, text: &Option<String>) -> (r: Result<Vec<Session>, StoreError>)
        ensures
            match r {
                Ok(v) => held(maybe(*text)) is Ok && session_views(v@) == values(
                    held(maybe(*text))->Ok_0,
                ),
                Err(e) => held(maybe(*text)) is Err && e@ == corrupt(
                    self.path@,
                    held(maybe(*text))->Err_0,
                ),
            },
    {
        let d = match self.read(text) {
            Ok(d) => d,
            Err(e) => {
                return Err(e);
            },
        };
        let mut out: Vec<Session> = Vec::new();
        let mut i: usize = 0;
        while i < d.len()
            invariant
                i <= d@.len(),
                out@.len() == i,
                forall|k: int| 0 <= k < i ==> (#[trigger] out@[k])@ == d@[k].1@,
            decreases d@.len() - i,
        {
            out.push(d.value(i).copy());
            i += 1;
        }
        assert(session_views(out@) =~= values(views(d@)));
        Ok(out)
    }

    pub fn get(&self, text: &Option<String>, name: &str) -> (r: Result<Option<Session>, StoreError>)
        ensures
            match r {
                Ok(s) => held(maybe(*text)) is Ok && found_view(s) == find(
                    held(maybe(*text))->Ok_0,
                    name@,
                ),
                Err(e) => held(maybe(*text)) is Err && e@ == corrupt(
                    self.path@,
                    held(maybe(*text))->Err_0,
                ),
            },
    {
        match self.read(text) {
            Ok(d) => {
                proof {
                    lemma_mapped_find(d@, |s: Session| s@, name@);
                }
                match d.get(name) {
                    Some(s) => Ok(Some(s.copy())),
                    None => Ok(None),
                }
            },
            Err(e) => Err(e),
        }
    }

    /// Insert or replace a session: what the file is to hold.
    pub fn put(&self, text: &Option<String>, session: Session) -> (r: Result<String, StoreError>)
        ensures
            match r {
                Ok(t) => held(maybe(*text)) is Ok && holds(
                    t@,
                    place(held(maybe(*text))->Ok_0, session.name@, session@),
                ),
                Err(e) => held(maybe(*text)) is Err && e@ == corrupt(
                    self.path@,
                    held(maybe(*text))->Err_0,
                ),
            },
    {
        match self.read(text) {
            Ok(d) => {
                let mut e = d;
                proof {
                    lemma_mapped_place(d@, |s: Session| s@, session.name@, session);
                }
                e.insert(session.name.clone(), session);
                self.write(&e)
            },
            Err(e) => Err(e),
        }
    }

    /// Forget a session: what the file is to hold, and the session if it was
    /// there.
    pub fn remove(&self, text: &Option<String>, name: &str) -> (r: Result<
        (String, Option<Session>),
        StoreError,
    >)
        ensures
            match r {
                Ok((t, s)) => held(maybe(*text)) is Ok && found_view(s) == find(
                    held(maybe(*text))->Ok_0,
                    name@,
                ) && holds(t@, without(held(maybe(*text))->Ok_0, name@)),
                Err(e) => held(maybe(*text)) is Err && e@ == corrupt(
                    self.path@,
                    held(maybe(*text))->Err_0,
                ),
            },
    {
        match self.read(text) {
            Ok(d) => {
                let mut e = d;
                proof {
                    lemma_mapped_find(d@, |s: Session| s@, name@);
                    lemma_mapped_without(d@, |s: Session| s@, name@);
                }
                let taken = match e.get(name) {
                    Some(s) => Some(s.copy()),
                    None => None,
                };
                e.remove(name);
                match self.write(&e) {
                    Ok(t) => Ok((t, taken)),
                    Err(x) => Err(x),
                }
            },
            Err(e) => Err(e),
        }
    }

    /// Change one session in place: what the file is to hold, and whether the
    /// session was there.
    ///
    /// The heartbeat's whole job is this: move an expiry without disturbing
    /// anything else in the store.
    pub fn update(&self, text: &Option<String>, name: &str, change: Change) -> (r: Result<
        (String, bool),
        StoreError,
    >)
        ensures
            match r {
                Ok((t, there)) => held(maybe(*text)) is Ok && there == (find(
                    held(maybe(*text))->Ok_0,
                    name@,
                ) is Some) && holds(
                    t@,
                    updated(held(maybe(*text))->Ok_0, name@, change),
                ),
                Err(e) => held(maybe(*text)) is Err && e@ == corrupt(
                    self.path@,
                    held(maybe(*text))->Err_0,
                ),
            },
    {
        match self.read(text) {
            Ok(d) => {
                let mut e = d;
                proof {
                    lemma_mapped_find(d@, |s: Session| s@, name@);
                }
                let there = match e.get(name) {
                    Some(s) => Some(alter(s.copy(), change)),
                    None => None,
                };
                match there {
                    Some(s) => {
                        proof {
                            lemma_mapped_place(d@, |s: Session| s@, name@, s);
                        }
                        e.insert(name.to_string(), s);
                        match self.write(&e) {
                            Ok(t) => Ok((t, true)),
                            Err(x) => Err(x),
                        }
                    },
                    None => match self.write(&e) {
                        Ok(t) => Ok((t, false)),
                        Err(x) => Err(x),
                    },
                }
            },
            Err(e) => Err(e),
        }
    }
}

pub open spec fn found_view(s: Option<Session>) -> Option<SessionView> {
    match s {
        Some(x) => Some(x@),
        None => None,
    }
}

fn alter(s: Session, change: Change) -> (r: Session)
    ensures
        r@ == changed(s@, change),
{
    let mut out = s;
    match change {
        Change::Expiry(t) => {
            out.expires_at = t;
        },
        Change::Renewal(t, d) => {
            out.expires_at = t;
            out.ttl = d;
        },
        Change::Heartbeat(p) => {
            out.heartbeat_pid = p;
        },
        Change::Synced(t) => {
            out.synced_at = Some(t);
        },
    }
    assert(out@ =~= changed(s@, change));
    out
}

fn check_session(j: &Json) -> (r: Option<String>)
    ensures
        seen(r) == session_problem(j@),
{
    let m = match j.as_members() {
        None => {
            return Some(wrong(j, "struct Session"));
        },
        Some(m) => m,
    };
    match check_table(m, &session_field_list(), true) {
        Some(p) => {
            return Some(p);
        },
        None => {},
    }
    match j.get_text("address") {
        Some(a) => {
            if Address::parse(a.as_str()).is_none() {
                return Some("invalid IP address syntax".to_string());
            }
        },
        None => {},
    }
    if is_too_late(j, "created_at") || is_too_late(j, "ready_at") || is_too_late(j, "expires_at")
        || is_too_late(j, "synced_at") {
        return Some("epoch seconds overflow SystemTime".to_string());
    }
    None
}

fn is_too_late(j: &Json, key: &str) -> (r: bool)
    ensures
        r == too_late(j@, key@),
{
    match j.get_uint(key) {
        Some(n) => n > LAST_SECOND,
        None => false,
    }
}

fn read_time(j: &Json, key: &str) -> (r: Option<SystemTime>)
    requires
        !too_late(j@, key@),
    ensures
        moment(r) == time_at(j@, key@),
{
    match j.get_uint(key) {
        Some(n) => SystemTime::from_secs(n),
        None => None,
    }
}

fn read_text(j: &Json, key: &str) -> (r: String)
    requires
        text_at(j@, key@) is Some,
    ensures
        r@ == text_at(j@, key@)->0,
{
    match j.get_text(key) {
        Some(s) => s.clone(),
        None => String::new(),
    }
}

fn read_session(j: &Json) -> (r: Session)
    requires
        session_problem(j@) is None,
    ensures
        r@ == session_of(j@),
{
    proof {
        lemma_names();
        let m = members_in(j@)->0;
        let f = session_fields();
        lemma_field(m, f, true, 0);
        lemma_field(m, f, true, 1);
        lemma_field(m, f, true, 2);
        lemma_field(m, f, true, 3);
        lemma_field(m, f, true, 4);
        lemma_field(m, f, true, 6);
        lemma_field(m, f, true, 8);
        lemma_field(m, f, true, 9);
        lemma_field(m, f, true, 10);
    }
    let created_at = match read_time(j, "created_at") {
        Some(t) => t,
        None => SystemTime::epoch(),
    };
    let expires_at = match read_time(j, "expires_at") {
        Some(t) => t,
        None => SystemTime::epoch(),
    };
    let ttl = match j.get_uint("ttl") {
        Some(n) => Duration::from_secs(n),
        None => Duration::from_secs(0),
    };
    let address = match j.get_text("address") {
        Some(a) => Address::parse(a.as_str()),
        None => None,
    };
    let heartbeat_pid = match j.get_uint("heartbeat_pid") {
        Some(p) => Some(p as u32),
        None => None,
    };
    let s = Session {
        name: read_text(j, "name"),
        project: read_text(j, "project"),
        guest: read_text(j, "guest"),
        template: read_text(j, "template"),
        machine: MachineRef(read_text(j, "machine")),
        address,
        created_at,
        ready_at: read_time(j, "ready_at"),
        expires_at,
        ttl,
        heartbeat_pid,
        synced_at: read_time(j, "synced_at"),
    };
    assert(s@ =~= session_of(j@));
    s
}

fn read_document(j: &Json) -> (r: Result<Dict<Session>, String>)
    ensures
        match r {
            Ok(d) => document_problem(j@) is None && views(d@) == sessions_of(session_members(j@)),
            Err(m) => document_problem(j@) == Some(m@),
        },
{
    let root = match j.as_members() {
        None => {
            return Err(wrong(j, "struct Document"));
        },
        Some(m) => m,
    };
    match check_table(root, &document_field_list(), true) {
        Some(p) => {
            return Err(p);
        },
        None => {},
    }
    proof {
        lemma_document_names();
        lemma_field(members_in(j@)->0, document_fields(), true, 0);
        lemma_field(members_in(j@)->0, document_fields(), true, 1);
    }
    let none: Vec<(String, Json)> = Vec::new();
    let m = match j.get("sessions") {
        Some(s) => match s.as_members() {
            Some(m) => m,
            None => {
                assert(false);
                &none
            },
        },
        None => {
            assert(false);
            &none
        },
    };
    let ghost all = members_view(m@);
    let ghost of = |j: JsonView| session_of(j);
    proof {
        lemma_members(m@);
        assert(all == session_members(j@));
        assert(all.skip(0) =~= all);
    }
    let mut d: Dict<Session> = Dict::new();
    let mut i: usize = 0;
    assert(views(d@) =~= sorted(mapped(all.take(0), of))) by {
        assert(mapped(all.take(0), of) =~= Seq::empty());
    }
    while i < m.len()
        invariant
            i <= m@.len(),
            all == members_view(m@),
            all == session_members(j@),
            all.len() == m@.len(),
            of == (|j: JsonView| session_of(j)),
            members_in(j@) is Some,
            table_problem(members_in(j@)->0, document_fields(), true) is None,
            forall|k: int| 0 <= k < m@.len() ==> #[trigger] all[k] == (m@[k].0@, m@[k].1@),
            first_session_problem(all) == first_session_problem(all.skip(i as int)),
            views(d@) == sorted(mapped(all.take(i as int), of)),
        decreases m@.len() - i,
    {
        assert(all.skip(i as int)[0] == all[i as int]);
        match check_session(&m[i].1) {
            Some(p) => {
                return Err(p);
            },
            None => {},
        }
        let s = read_session(&m[i].1);
        proof {
            let upto = mapped(all.take(i + 1), of);
            assert(upto.drop_last() =~= mapped(all.take(i as int), of));
            assert(upto.last() == (m@[i as int].0@, s@));
            lemma_mapped_place(d@, |s: Session| s@, m@[i as int].0@, s);
            assert(all.skip(i as int).skip(1) =~= all.skip(i + 1));
        }
        d.insert(m[i].0.clone(), s);
        i += 1;
    }
    assert(all.take(m@.len() as int) =~= all);
    let version: u64 = match j.get_uint("version") {
        Some(v) => v,
        None => 0,
    };
    if version != VERSION as u64 {
        return Err(
            "written by a different version of reaper (file says ".to_string().concat(
                decimal(version).as_str(),
            ).concat(", this is ").concat(decimal(VERSION as u64).as_str()).concat(")"),
        );
    }
    Ok(d)
}

fn time_value(t: &Option<SystemTime>) -> (r: Json)
    ensures
        r@ == time_json(moment(*t)),
{
    match t {
        Some(x) => {
            x.bounds();
            Json::Int(x.epoch_secs() as i128)
        },
        None => Json::Null,
    }
}

fn write_session(s: &Session) -> (r: Json)
    ensures
        r@ == session_json(s@),
        timely(s@),
{
    s.created_at.bounds();
    s.expires_at.bounds();
    s.ttl.bounds();
    match &s.ready_at {
        Some(t) => t.bounds(),
        None => {},
    }
    match &s.synced_at {
        Some(t) => t.bounds(),
        None => {},
    }
    let address = match &s.address {
        Some(a) => Json::Str(a.text()),
        None => Json::Null,
    };
    let pid = match s.heartbeat_pid {
        Some(p) => Json::Int(p as i128),
        None => Json::Null,
    };
    let m: Vec<(String, Json)> = vec![
        ("name".to_string(), Json::Str(s.name.clone())),
        ("project".to_string(), Json::Str(s.project.clone())),
        ("guest".to_string(), Json::Str(s.guest.clone())),
        ("template".to_string(), Json::Str(s.template.clone())),
        ("machine".to_string(), Json::Str(s.machine.0.clone())),
        ("address".to_string(), address),
        ("created_at".to_string(), time_value(&Some(s.created_at))),
        ("ready_at".to_string(), time_value(&s.ready_at)),
        ("expires_at".to_string(), time_value(&Some(s.expires_at))),
        ("ttl".to_string(), Json::Int(s.ttl.as_secs() as i128)),
        ("heartbeat_pid".to_string(), pid),
        ("synced_at".to_string(), time_value(&s.synced_at)),
    ];
    proof {
        lemma_members(m@);
        assert(members_view(m@) =~= session_pairs(s@));
    }
    Json::Object(m)
}

fn write_document(d: &Dict<Session>) -> (r: Json)
    ensures
        r@ == document_json(views(d@)),
        plain(r@, READ_DEPTH as nat),
        fit(r@),
{
    let mut inner: Vec<(String, Json)> = Vec::new();
    let ghost all = views(d@);
    let ghost write = |s: SessionView| session_json(s);
    let mut i: usize = 0;
    while i < d.len()
        invariant
            i <= d@.len(),
            all == views(d@),
            inner@.len() == i,
            forall|k: int|
                0 <= k < i ==> (#[trigger] inner@[k]).0@ == all[k].0 && inner@[k].1@
                    == session_json(all[k].1),
            forall|k: int| 0 <= k < i ==> timely((#[trigger] all[k]).1),
        decreases d@.len() - i,
    {
        assert(all[i as int] == (d@[i as int].0, d@[i as int].1@));
        let j = write_session(d.value(i));
        inner.push((d.key(i).clone(), j));
        i += 1;
    }
    d.ordered();
    proof {
        lemma_members(inner@);
        assert(members_view(inner@) =~= mapped(all, write));
        assert forall|a: int, b: int| 0 <= a < b < all.len() implies crate::scan::before(
            #[trigger] all[a].0,
            #[trigger] all[b].0,
        ) by {
            assert(all[a].0 == d@[a].0 && all[b].0 == d@[b].0);
        }
        lemma_plain_document(all);
    }
    let m: Vec<(String, Json)> = vec![
        ("version".to_string(), Json::Int(VERSION as i128)),
        ("sessions".to_string(), Json::Object(inner)),
    ];
    proof {
        lemma_members(m@);
        assert(members_view(m@) =~= document_pairs(all));
    }
    Json::Object(m)
}

}
