//! Site configuration: what the sysadmin owns.
//!
//! Three things live here, and keeping them apart is the point. Which guests
//! *exist* is the sysadmin's decision, recorded in the registry below. Which
//! guests a project *wants* is the developer's, recorded in a manifest. What a
//! provider needs in order to talk to a hypervisor is the provider's own
//! business, and the core deliberately does not know what those keys are -- it
//! carries the table through uninterpreted.
use vstd::prelude::*;
use vstd::string::*;

use crate::decode::{
    check_table, distinct, lemma_field, spell_at, spelled_at, table_problem, text_or, text_under, wrong, wrong_type,
    Field, Kind,
};
use crate::dict::{
    find, lemma_mapped_find, lemma_mapped_place, mapped, names, names_of, place, Dict,
};
use crate::duration::{complaint, exact, parse as parse_duration, reading};
use crate::json::{
    lemma_members, member, members_in, members_view, read_toml, text_at, toml_reads, uint_at, Json,
    JsonView,
};
use crate::paths::{expand_tilde, maybe, tilde_expanded};
use crate::scan::{is_all_blank, trim};
use crate::text::{debug_text, dec, decimal, quoted, same, texts};
use crate::time::Duration;

verus! {

#[derive(Debug)]
pub enum ConfigError<S = String, L = Vec<String>> {
    /// No configuration file was found. The candidate paths are listed,
    /// because "not found" without saying where you looked is not a report.
    NotFound(L),
    Read { path: S, source: S },
    Parse { path: S, message: S },
    /// Parsed, but says something that cannot be acted on.
    Invalid { path: S, message: S },
}

pub type ConfigErrorView = ConfigError<Seq<char>, Seq<Seq<char>>>;

/// Each on a line of its own, indented.
pub open spec fn indented(lines: Seq<Seq<char>>) -> Seq<char>
    decreases lines.len(),
{
    if lines.len() == 0 {
        Seq::empty()
    } else {
        indented(lines.drop_last()) + "\n  "@ + lines.last()
    }
}

pub fn indent(lines: &Vec<String>) -> (r: String)
    ensures
        r@ == indented(texts(lines@)),
{
    let mut out = String::new();
    let ghost all = texts(lines@);
    let mut i: usize = 0;
    assert(out@ =~= Seq::empty());
    while i < lines.len()
        invariant
            i <= lines@.len(),
            all == texts(lines@),
            out@ == indented(all.take(i as int)),
        decreases lines@.len() - i,
    {
        assert(all.take(i + 1).drop_last() =~= all.take(i as int));
        assert(all.take(i + 1).last() == lines@[i as int]@);
        out = out.concat("\n  ").concat(lines[i].as_str());
        i += 1;
    }
    assert(all.take(lines@.len() as int) =~= all);
    out
}

/// What a failure to configure says.
pub open spec fn config_error_text(e: ConfigErrorView) -> Seq<char> {
    match e {
        ConfigError::NotFound(tried) => "no configuration file; looked in"@ + indented(tried),
        ConfigError::Read { path, source } => path + ": cannot read: "@ + source,
        ConfigError::Parse { path, message } => path + ": cannot parse: "@ + message,
        ConfigError::Invalid { path, message } => path + ": "@ + message,
    }
}

impl ConfigError<String, Vec<String>> {
    pub open spec fn view(&self) -> ConfigErrorView {
        match self {
            ConfigError::NotFound(l) => ConfigError::NotFound(texts(l@)),
            ConfigError::Read { path, source } => ConfigError::Read {
                path: path@,
                source: source@,
            },
            ConfigError::Parse { path, message } => ConfigError::Parse {
                path: path@,
                message: message@,
            },
            ConfigError::Invalid { path, message } => ConfigError::Invalid {
                path: path@,
                message: message@,
            },
        }
    }

    pub fn message(&self) -> (r: String)
        ensures
            r@ == config_error_text(self@),
    {
        match self {
            ConfigError::NotFound(tried) => "no configuration file; looked in".to_string().concat(
                indent(tried).as_str(),
            ),
            ConfigError::Read { path, source } => path.clone().concat(": cannot read: ").concat(
                source.as_str(),
            ),
            ConfigError::Parse { path, message } => path.clone().concat(": cannot parse: ").concat(
                message.as_str(),
            ),
            ConfigError::Invalid { path, message } => path.clone().concat(": ").concat(
                message.as_str(),
            ),
        }
    }
}

/// One registered guest: a name a tenant can ask for, and whatever the provider
/// needs in order to produce it.
#[derive(Debug)]
pub struct GuestEntry {
    /// Opaque to the core.
    pub template: String,
}

#[derive(Debug)]
pub struct SessionConfig {
    pub default_ttl: Duration,
    pub heartbeat_interval: Duration,
    /// How long a machine's first expiry lasts, covering the gap between
    /// creation and readiness. Full-copy clones are slow, and a TTL that
    /// started at the create request would collect machines that were never
    /// used.
    pub ready_grace: Duration,
    pub max_concurrent: usize,
    /// Size of the blank disk attached to each session, in gibibytes, unless a
    /// tenant asks for something else.
    pub default_disk_gb: u32,
    pub ssh_user: String,
    pub ssh_command: String,
    pub ssh_connect_timeout: Duration,
    /// The key to offer. `None` leaves the choice to ssh.
    pub ssh_key: Option<String>,
    pub rsync_command: String,
    /// How often results are brought back while a command runs.
    pub results_interval: Duration,
    /// How long anything on the transport may go without progress.
    pub io_timeout: Duration,
}

pub struct Config {
    pub path: String,
    pub provider: String,
    pub session: SessionConfig,
    pub guests: Dict<GuestEntry>,
    /// The selected provider's own table, uninterpreted.
    pub provider_table: Json,
}

/// The registered guests and their templates.
pub open spec fn registry(guests: Seq<(Seq<char>, GuestEntry)>) -> Seq<(Seq<char>, Seq<char>)> {
    mapped(guests, |g: GuestEntry| g.template@)
}

impl Config {
    /// The provider's configuration, for the provider to read into whatever
    /// shape it needs. The core never looks inside.
    pub fn provider_table(&self) -> (r: &Json)
        ensures
            *r == self.provider_table,
    {
        &self.provider_table
    }

    /// The template registered for a guest name, or `None` if the sysadmin has
    /// not registered one. Callers must resolve before touching a provider:
    /// an unknown guest is a typo, and a typo should not cost an API round
    /// trip to discover.
    pub fn template_for(&self, guest: &str) -> (r: Option<&str>)
        ensures
            match r {
                Some(t) => find(registry(self.guests@), guest@) == Some(t@),
                None => find(registry(self.guests@), guest@) is None,
            },
    {
        proof {
            lemma_mapped_find(self.guests@, |g: GuestEntry| g.template@, guest@);
        }
        match self.guests.get(guest) {
            Some(g) => Some(g.template.as_str()),
            None => None,
        }
    }

    pub fn guest_names(&self) -> (r: Vec<String>)
        ensures
            texts(r@) == names(self.guests@),
    {
        names_of(&self.guests)
    }
}

// ---------------------------------------------------------------------------
// What a configuration file may say
// ---------------------------------------------------------------------------

pub open spec fn root_fields() -> Seq<Field> {
    seq![
        Field { name: "provider", kind: Kind::Text, required: true, nullable: false },
        Field { name: "session", kind: Kind::Table, required: false, nullable: false },
        Field { name: "guests", kind: Kind::Table, required: false, nullable: false },
    ]
}

pub open spec fn guest_fields() -> Seq<Field> {
    seq![Field { name: "template", kind: Kind::Text, required: true, nullable: false }]
}

pub open spec fn session_fields() -> Seq<Field> {
    seq![
        Field { name: "default_ttl", kind: Kind::Text, required: false, nullable: false },
        Field { name: "heartbeat_interval", kind: Kind::Text, required: false, nullable: false },
        Field { name: "ready_grace", kind: Kind::Text, required: false, nullable: false },
        Field { name: "max_concurrent", kind: Kind::Usize, required: false, nullable: false },
        Field { name: "default_disk_gb", kind: Kind::U32, required: false, nullable: false },
        Field { name: "ssh_user", kind: Kind::Text, required: false, nullable: false },
        Field { name: "ssh_command", kind: Kind::Text, required: false, nullable: false },
        Field { name: "ssh_connect_timeout", kind: Kind::Text, required: false, nullable: false },
        Field { name: "ssh_key", kind: Kind::Text, required: false, nullable: false },
        Field { name: "rsync_command", kind: Kind::Text, required: false, nullable: false },
        Field { name: "results_interval", kind: Kind::Text, required: false, nullable: false },
        Field { name: "io_timeout", kind: Kind::Text, required: false, nullable: false },
    ]
}

fn root_field_list() -> (r: Vec<Field>)
    ensures
        r@ == root_fields(),
{
    let v = vec![
        Field { name: "provider", kind: Kind::Text, required: true, nullable: false },
        Field { name: "session", kind: Kind::Table, required: false, nullable: false },
        Field { name: "guests", kind: Kind::Table, required: false, nullable: false },
    ];
    assert(v@ =~= root_fields());
    v
}

fn guest_field_list() -> (r: Vec<Field>)
    ensures
        r@ == guest_fields(),
{
    let v = vec![Field { name: "template", kind: Kind::Text, required: true, nullable: false }];
    assert(v@ =~= guest_fields());
    v
}

fn session_field_list() -> (r: Vec<Field>)
    ensures
        r@ == session_fields(),
{
    let v = vec![
        Field { name: "default_ttl", kind: Kind::Text, required: false, nullable: false },
        Field { name: "heartbeat_interval", kind: Kind::Text, required: false, nullable: false },
        Field { name: "ready_grace", kind: Kind::Text, required: false, nullable: false },
        Field { name: "max_concurrent", kind: Kind::Usize, required: false, nullable: false },
        Field { name: "default_disk_gb", kind: Kind::U32, required: false, nullable: false },
        Field { name: "ssh_user", kind: Kind::Text, required: false, nullable: false },
        Field { name: "ssh_command", kind: Kind::Text, required: false, nullable: false },
        Field { name: "ssh_connect_timeout", kind: Kind::Text, required: false, nullable: false },
        Field { name: "ssh_key", kind: Kind::Text, required: false, nullable: false },
        Field { name: "rsync_command", kind: Kind::Text, required: false, nullable: false },
        Field { name: "results_interval", kind: Kind::Text, required: false, nullable: false },
        Field { name: "io_timeout", kind: Kind::Text, required: false, nullable: false },
    ];
    assert(v@ =~= session_fields());
    v
}

/// The session section; one that is not there says nothing.
pub open spec fn session_of(tree: JsonView) -> JsonView {
    match member(tree, "session"@) {
        Some(s) => s,
        None => JsonView::Object(Seq::empty()),
    }
}

/// The entries of the guest registry.
pub open spec fn guest_entries(tree: JsonView) -> Seq<(Seq<char>, JsonView)> {
    match member(tree, "guests"@) {
        Some(g) => match members_in(g) {
            Some(m) => m,
            None => Seq::empty(),
        },
        None => Seq::empty(),
    }
}

/// What is wrong with one entry of the registry, as far as its shape goes.
pub open spec fn entry_problem(entry: JsonView) -> Option<Seq<char>> {
    match members_in(entry) {
        None => Some(wrong_type(entry, "struct GuestEntry"@)),
        Some(m) => table_problem(m, guest_fields(), false),
    }
}

pub open spec fn entries_problem(entries: Seq<(Seq<char>, JsonView)>) -> Option<Seq<char>>
    decreases entries.len(),
{
    if entries.len() == 0 {
        None
    } else {
        match entry_problem(entries[0].1) {
            Some(p) => Some(p),
            None => entries_problem(entries.skip(1)),
        }
    }
}

/// What is wrong with the shape of a configuration, if anything is.
pub open spec fn shape_problem(tree: JsonView) -> Option<Seq<char>> {
    match members_in(tree) {
        None => Some(wrong_type(tree, "struct RawConfig"@)),
        Some(m) => match table_problem(m, root_fields(), true) {
            Some(p) => Some(p),
            None => match table_problem(members_in(session_of(tree))->0, session_fields(), false) {
                Some(p) => Some(p),
                None => entries_problem(guest_entries(tree)),
            },
        },
    }
}

/// The guests with their templates, in the order of their names.
pub open spec fn guests_of(entries: Seq<(Seq<char>, JsonView)>) -> Seq<(Seq<char>, Seq<char>)>
    decreases entries.len(),
{
    if entries.len() == 0 {
        Seq::empty()
    } else {
        place(
            guests_of(entries.drop_last()),
            entries.last().0,
            text_at(entries.last().1, "template"@)->0,
        )
    }
}

/// The first guest whose template is blank.
pub open spec fn blank_guest(guests: Seq<(Seq<char>, Seq<char>)>) -> Option<Seq<char>>
    decreases guests.len(),
{
    if guests.len() == 0 {
        None
    } else if trim(guests[0].1).len() == 0 {
        Some(guests[0].0)
    } else {
        blank_guest(guests.skip(1))
    }
}

/// The provider's own section. The sections that the core reads are none.
pub open spec fn provider_section(tree: JsonView, name: Seq<char>) -> Option<JsonView> {
    if name == "provider"@ || name == "session"@ || name == "guests"@ {
        None
    } else {
        member(tree, name)
    }
}

/// What is wrong with a duration in the session section.
pub open spec fn span_problem(
    session: JsonView,
    name: Seq<char>,
    default: Seq<char>,
) -> Option<Seq<char>> {
    let text = text_or(session, name, default);
    match reading(text) {
        Ok(_) => None,
        Err(reason) => Some("session."@ + name + ": "@ + complaint(text, reason)),
    }
}

/// The seconds that a duration in the session section stands for.
pub open spec fn span_secs(session: JsonView, name: Seq<char>, default: Seq<char>) -> nat {
    reading(text_or(session, name, default))->Ok_0
}

pub open spec fn concurrency(session: JsonView) -> u64 {
    match uint_at(session, "max_concurrent"@) {
        Some(n) => n,
        None => 2,
    }
}

pub open spec fn disk_size(session: JsonView) -> u64 {
    match uint_at(session, "default_disk_gb"@) {
        Some(n) => n,
        None => 64,
    }
}

/// What is wrong with what the session section says.
pub open spec fn session_problem(session: JsonView) -> Option<Seq<char>> {
    let ttl = span_secs(session, "default_ttl"@, "2h"@);
    let beat = span_secs(session, "heartbeat_interval"@, "5m"@);
    if span_problem(session, "default_ttl"@, "2h"@) is Some {
        span_problem(session, "default_ttl"@, "2h"@)
    } else if span_problem(session, "heartbeat_interval"@, "5m"@) is Some {
        span_problem(session, "heartbeat_interval"@, "5m"@)
    } else if span_problem(session, "ready_grace"@, "30m"@) is Some {
        span_problem(session, "ready_grace"@, "30m"@)
    } else if beat * 3 > ttl {
        Some(
            "session.heartbeat_interval is "@ + exact(beat) + " but session.default_ttl is only "@
                + exact(ttl)
                + ": a heartbeat must fit at least three times into the TTL, or a single missed renewal loses the machine"@,
        )
    } else if concurrency(session) == 0 {
        Some("session.max_concurrent is 0, which forbids every session"@)
    } else if !(1 <= disk_size(session) <= 4096) {
        Some(
            "session.default_disk_gb is "@ + dec(disk_size(session) as nat)
                + "; expected between 1 and 4096"@,
        )
    } else if span_problem(session, "ssh_connect_timeout"@, "15s"@) is Some {
        span_problem(session, "ssh_connect_timeout"@, "15s"@)
    } else if span_problem(session, "results_interval"@, "5s"@) is Some {
        span_problem(session, "results_interval"@, "5s"@)
    } else {
        span_problem(session, "io_timeout"@, "2m"@)
    }
}

/// What is wrong with what a configuration of the right shape says.
pub open spec fn content_problem(tree: JsonView) -> Option<Seq<char>> {
    let provider = text_at(tree, "provider"@)->0;
    let guests = guests_of(guest_entries(tree));
    if trim(provider).len() == 0 {
        Some("provider is empty"@)
    } else if provider_section(tree, provider) is None {
        Some(
            "provider is "@ + debug_text(provider) + " but there is no ["@ + provider
                + "] section to configure it"@,
        )
    } else if guests.len() == 0 {
        Some("no guests are registered, so no tenant can run anything here"@)
    } else if blank_guest(guests) is Some {
        Some("guest "@ + debug_text(blank_guest(guests)->0) + " has an empty template"@)
    } else {
        session_problem(session_of(tree))
    }
}

/// The session section's first fields, in the order in which a list gives them.
pub open spec fn session_order() -> Seq<&'static str> {
    seq![
        "default_ttl",
        "heartbeat_interval",
        "ready_grace",
        "max_concurrent",
        "default_disk_gb",
    ]
}

pub open spec fn guest_order() -> Seq<&'static str> {
    seq!["template"]
}

/// The configuration with its records as tables. A record may be written as a
/// list, too; what a list has beyond its fields is passed over.
pub open spec fn tabled(tree: JsonView) -> JsonView {
    spelled_at(
        spelled_at(tree, "session"@, false, session_order(), 5, true),
        "guests"@,
        true,
        guest_order(),
        1,
        true,
    )
}

fn make_tables(tree: &Json) -> (r: Json)
    ensures
        r@ == tabled(tree@),
{
    let session: [&'static str; 5] = [
        "default_ttl",
        "heartbeat_interval",
        "ready_grace",
        "max_concurrent",
        "default_disk_gb",
    ];
    let guest: [&'static str; 1] = ["template"];
    assert(session@ =~= session_order());
    assert(guest@ =~= guest_order());
    let half = spell_at(tree, "session", false, &session, 5, true);
    spell_at(&half, "guests", true, &guest, 1, true)
}

/// Why a text is no configuration, if it is none.
pub open spec fn refusal(text: Seq<char>, path: Seq<char>) -> Option<ConfigErrorView> {
    match toml_reads(text) {
        Err(message) => Some(ConfigError::Parse { path, message }),
        Ok(tree) => tree_refusal(tabled(tree), path),
    }
}

/// Why a tree is no configuration, if it is none.
pub open spec fn tree_refusal(tree: JsonView, path: Seq<char>) -> Option<ConfigErrorView> {
    match shape_problem(tree) {
        Some(message) => Some(ConfigError::Parse { path, message }),
        None => match content_problem(tree) {
            Some(message) => Some(ConfigError::Invalid { path, message }),
            None => None,
        },
    }
}

/// The session settings say what the section says.
pub open spec fn session_says(s: SessionConfig, session: JsonView, home: Option<Seq<char>>) -> bool {
    &&& s.default_ttl@ == span_secs(session, "default_ttl"@, "2h"@) * 1_000_000_000
    &&& s.heartbeat_interval@ == span_secs(session, "heartbeat_interval"@, "5m"@) * 1_000_000_000
    &&& s.ready_grace@ == span_secs(session, "ready_grace"@, "30m"@) * 1_000_000_000
    &&& s.max_concurrent == concurrency(session)
    &&& s.default_disk_gb == disk_size(session)
    &&& s.ssh_user@ == text_or(session, "ssh_user"@, "root"@)
    &&& s.ssh_command@ == text_or(session, "ssh_command"@, "ssh"@)
    &&& s.ssh_connect_timeout@ == span_secs(session, "ssh_connect_timeout"@, "15s"@)
        * 1_000_000_000
    &&& maybe(s.ssh_key) == (match text_at(session, "ssh_key"@) {
        Some(k) => Some(tilde_expanded(k, home)),
        None => None,
    })
    &&& s.rsync_command@ == text_or(session, "rsync_command"@, "rsync"@)
    &&& s.results_interval@ == span_secs(session, "results_interval"@, "5s"@) * 1_000_000_000
    &&& s.io_timeout@ == span_secs(session, "io_timeout"@, "2m"@) * 1_000_000_000
}

/// The configuration says what the tree says.
pub open spec fn says(c: Config, tree: JsonView, path: Seq<char>, home: Option<Seq<char>>) -> bool {
    &&& c.path@ == path
    &&& c.provider@ == text_at(tree, "provider"@)->0
    &&& session_says(c.session, session_of(tree), home)
    &&& registry(c.guests@) == guests_of(guest_entries(tree))
    &&& c.provider_table@ == provider_section(tree, c.provider@)->0
}

// ---------------------------------------------------------------------------
// Reading
// ---------------------------------------------------------------------------

proof fn lemma_distinct_fields()
    ensures
        distinct(root_fields()),
        distinct(session_fields()),
        distinct(guest_fields()),
{
    reveal_strlit("provider");
    reveal_strlit("session");
    reveal_strlit("guests");
    reveal_strlit("default_ttl");
    reveal_strlit("heartbeat_interval");
    reveal_strlit("ready_grace");
    reveal_strlit("max_concurrent");
    reveal_strlit("default_disk_gb");
    reveal_strlit("ssh_user");
    reveal_strlit("ssh_command");
    reveal_strlit("ssh_connect_timeout");
    reveal_strlit("ssh_key");
    reveal_strlit("rsync_command");
    reveal_strlit("results_interval");
    reveal_strlit("io_timeout");
    assert("default_ttl"@.len() == 11 && "heartbeat_interval"@.len() == 18);
    assert("ready_grace"@.len() == 11 && "max_concurrent"@.len() == 14);
    assert("default_disk_gb"@.len() == 15 && "ssh_user"@.len() == 8 && "ssh_command"@.len() == 11);
    assert("ssh_connect_timeout"@.len() == 19 && "ssh_key"@.len() == 7);
    assert("rsync_command"@.len() == 13 && "results_interval"@.len() == 16);
    assert("io_timeout"@.len() == 10);
    assert("default_ttl"@[0] == 'd' && "ready_grace"@[0] == 'r' && "ssh_command"@[0] == 's');
    assert("provider"@.len() == 8 && "session"@.len() == 7 && "guests"@.len() == 6);
}

fn read_span(session: &Json, name: &str, default: &str) -> (r: Result<Duration, String>)
    ensures
        match r {
            Ok(d) => span_problem(session@, name@, default@) is None && d@ == span_secs(
                session@,
                name@,
                default@,
            ) * 1_000_000_000,
            Err(m) => span_problem(session@, name@, default@) == Some(m@),
        },
{
    let text = text_under(session, name, default);
    match parse_duration(text.as_str()) {
        Ok(d) => Ok(d),
        Err(e) => Err(
            "session.".to_string().concat(name).concat(": ").concat(e.message().as_str()),
        ),
    }
}

fn read_session(session: &Json, home: &Option<String>) -> (r: Result<SessionConfig, String>)
    requires
        members_in(session@) is Some,
        table_problem(members_in(session@)->0, session_fields(), false) is None,
    ensures
        match r {
            Ok(s) => session_problem(session@) is None && session_says(s, session@, maybe(*home)),
            Err(m) => session_problem(session@) == Some(m@),
        },
{
    proof {
        lemma_distinct_fields();
        lemma_field(members_in(session@)->0, session_fields(), false, 3);
        lemma_field(members_in(session@)->0, session_fields(), false, 4);
    }
    let default_ttl = match read_span(session, "default_ttl", "2h") {
        Ok(d) => d,
        Err(m) => {
            return Err(m);
        },
    };
    let heartbeat_interval = match read_span(session, "heartbeat_interval", "5m") {
        Ok(d) => d,
        Err(m) => {
            return Err(m);
        },
    };
    let ready_grace = match read_span(session, "ready_grace", "30m") {
        Ok(d) => d,
        Err(m) => {
            return Err(m);
        },
    };
    // The heartbeat is a dead-man's switch, so the margin between "we missed a
    // renewal" and "the sweeper takes the machine" has to be wide enough to
    // absorb a slow API call or a laptop lid. A third of the TTL means at least
    // two renewals can fail before anything is lost; at exactly the TTL, one
    // slow call costs a session.
    let ttl: u64 = default_ttl.as_secs();
    let beat: u64 = heartbeat_interval.as_secs();
    proof {
        crate::duration::law_durations_are_bounded(
            text_or(session@, "heartbeat_interval"@, "5m"@),
        );
    }
    if beat * 3 > ttl {
        return Err(
            "session.heartbeat_interval is ".to_string().concat(
                crate::duration::format(heartbeat_interval).as_str(),
            ).concat(" but session.default_ttl is only ").concat(
                crate::duration::format(default_ttl).as_str(),
            ).concat(
                ": a heartbeat must fit at least three times into the TTL, or a single missed renewal loses the machine",
            ),
        );
    }
    let max_concurrent: u64 = match session.get_uint("max_concurrent") {
        Some(n) => n,
        None => 2,
    };
    if max_concurrent == 0 {
        return Err("session.max_concurrent is 0, which forbids every session".to_string());
    }
    // An upper bound as well as a lower one. A typo that asks for sixty-four
    // thousand gibibytes should be refused here rather than by a storage
    // backend, halfway through creating a session.
    let disk: u64 = match session.get_uint("default_disk_gb") {
        Some(n) => n,
        None => 64,
    };
    if !(1 <= disk && disk <= 4096) {
        return Err(
            "session.default_disk_gb is ".to_string().concat(decimal(disk).as_str()).concat(
                "; expected between 1 and 4096",
            ),
        );
    }
    let ssh_connect_timeout = match read_span(session, "ssh_connect_timeout", "15s") {
        Ok(d) => d,
        Err(m) => {
            return Err(m);
        },
    };
    let results_interval = match read_span(session, "results_interval", "5s") {
        Ok(d) => d,
        Err(m) => {
            return Err(m);
        },
    };
    let io_timeout = match read_span(session, "io_timeout", "2m") {
        Ok(d) => d,
        Err(m) => {
            return Err(m);
        },
    };
    let ssh_key = match session.get_text("ssh_key") {
        Some(k) => Some(expand_tilde(k.as_str(), home)),
        None => None,
    };
    Ok(
        SessionConfig {
            default_ttl,
            heartbeat_interval,
            ready_grace,
            max_concurrent: max_concurrent as usize,
            default_disk_gb: disk as u32,
            ssh_user: text_under(session, "ssh_user", "root"),
            ssh_command: text_under(session, "ssh_command", "ssh"),
            ssh_connect_timeout,
            ssh_key,
            rsync_command: text_under(session, "rsync_command", "rsync"),
            results_interval,
            io_timeout,
        },
    )
}

fn check_entry(entry: &Json) -> (r: Option<String>)
    ensures
        crate::decode::seen(r) == entry_problem(entry@),
{
    match entry.as_members() {
        None => Some(wrong(entry, "struct GuestEntry")),
        Some(m) => check_table(m, &guest_field_list(), false),
    }
}

fn check_entries(entries: &Vec<(String, Json)>) -> (r: Option<String>)
    ensures
        crate::decode::seen(r) == entries_problem(members_view(entries@)),
        entries_problem(members_view(entries@)) is None ==> forall|i: int|
            0 <= i < entries@.len() ==> entry_problem((#[trigger] entries@[i]).1@) is None,
{
    let ghost all = members_view(entries@);
    proof {
        lemma_members(entries@);
        assert(all.skip(0) =~= all);
    }
    let mut i: usize = 0;
    while i < entries.len()
        invariant
            i <= entries@.len(),
            all == members_view(entries@),
            all.len() == entries@.len(),
            forall|j: int|
                0 <= j < entries@.len() ==> #[trigger] all[j] == (entries@[j].0@, entries@[j].1@),
            entries_problem(all) == entries_problem(all.skip(i as int)),
            forall|j: int| 0 <= j < i ==> entry_problem((#[trigger] entries@[j]).1@) is None,
        decreases entries@.len() - i,
    {
        assert(all.skip(i as int)[0] == all[i as int]);
        match check_entry(&entries[i].1) {
            Some(m) => {
                return Some(m);
            },
            None => {},
        }
        assert(all.skip(i as int).skip(1) =~= all.skip(i + 1));
        i += 1;
    }
    None
}

fn read_guests(entries: &Vec<(String, Json)>) -> (r: Dict<GuestEntry>)
    requires
        forall|i: int|
            0 <= i < entries@.len() ==> entry_problem((#[trigger] entries@[i]).1@) is None,
    ensures
        registry(r@) == guests_of(members_view(entries@)),
{
    let ghost all = members_view(entries@);
    proof {
        lemma_members(entries@);
        lemma_distinct_fields();
    }
    let mut d: Dict<GuestEntry> = Dict::new();
    assert(registry(d@) =~= Seq::empty());
    let mut i: usize = 0;
    while i < entries.len()
        invariant
            i <= entries@.len(),
            distinct(guest_fields()),
            all.len() == entries@.len(),
            forall|j: int|
                0 <= j < entries@.len() ==> #[trigger] all[j] == (entries@[j].0@, entries@[j].1@),
            forall|j: int|
                0 <= j < entries@.len() ==> entry_problem((#[trigger] entries@[j]).1@) is None,
            registry(d@) == guests_of(all.take(i as int)),
        decreases entries@.len() - i,
    {
        assert(all.take(i + 1).drop_last() =~= all.take(i as int));
        assert(all.take(i + 1).last() == all[i as int]);
        proof {
            lemma_field(members_in(entries@[i as int].1@)->0, guest_fields(), false, 0);
        }
        let g = GuestEntry { template: text_under(&entries[i].1, "template", "") };
        proof {
            lemma_mapped_place(d@, |g: GuestEntry| g.template@, entries@[i as int].0@, g);
        }
        d.insert(entries[i].0.clone(), g);
        i += 1;
    }
    assert(all.take(entries@.len() as int) =~= all);
    d
}

fn find_blank(guests: &Dict<GuestEntry>) -> (r: Option<String>)
    ensures
        crate::decode::seen(r) == blank_guest(registry(guests@)),
{
    let ghost all = registry(guests@);
    let mut i: usize = 0;
    assert(all.skip(0) =~= all);
    while i < guests.len()
        invariant
            i <= guests@.len(),
            all == registry(guests@),
            blank_guest(all) == blank_guest(all.skip(i as int)),
        decreases guests@.len() - i,
    {
        assert(all.skip(i as int)[0] == all[i as int]);
        assert(all[i as int] == (guests@[i as int].0, guests@[i as int].1.template@));
        if is_all_blank(guests.value(i).template.as_str()) {
            return Some(guests.key(i).clone());
        }
        assert(all.skip(i as int).skip(1) =~= all.skip(i + 1));
        i += 1;
    }
    None
}

fn invalid(path: &str, message: String) -> (r: ConfigError)
    ensures
        r@ == (ConfigErrorView::Invalid { path: path@, message: message@ }),
{
    ConfigError::Invalid { path: path.to_string(), message }
}

fn unparsed(path: &str, message: String) -> (r: ConfigError)
    ensures
        r@ == (ConfigErrorView::Parse { path: path@, message: message@ }),
{
    ConfigError::Parse { path: path.to_string(), message }
}

/// The configuration that a tree of tables holds.
pub fn from_tree(tree: &Json, path: &str, home: &Option<String>) -> (r: Result<Config, ConfigError>)
    ensures
        match r {
            Ok(c) => tree_refusal(tree@, path@) is None && says(c, tree@, path@, maybe(*home)),
            Err(e) => tree_refusal(tree@, path@) == Some(e@),
        },
{
    let root = match tree.as_members() {
        Some(m) => m,
        None => {
            return Err(unparsed(path, wrong(tree, "struct RawConfig")));
        },
    };
    match check_table(root, &root_field_list(), true) {
        Some(m) => {
            return Err(unparsed(path, m));
        },
        None => {},
    }
    proof {
        lemma_distinct_fields();
        lemma_field(members_in(tree@)->0, root_fields(), true, 0);
        lemma_field(members_in(tree@)->0, root_fields(), true, 1);
        lemma_field(members_in(tree@)->0, root_fields(), true, 2);
    }
    let none: Vec<(String, Json)> = Vec::new();
    let empty = Json::Object(none);
    assert(empty@ == JsonView::Object(Seq::empty())) by {
        assert(members_view(none@) =~= Seq::empty());
    }
    let session = match tree.get("session") {
        Some(s) => s,
        None => &empty,
    };
    assert(session@ == session_of(tree@));
    match session.as_members() {
        None => {
            assert(false);
        },
        Some(m) => match check_table(m, &session_field_list(), false) {
            Some(p) => {
                return Err(unparsed(path, p));
            },
            None => {},
        },
    }
    let no_entries: Vec<(String, Json)> = Vec::new();
    assert(members_view(no_entries@) =~= Seq::empty());
    let entries = match tree.get("guests") {
        Some(g) => match g.as_members() {
            Some(m) => m,
            None => &no_entries,
        },
        None => &no_entries,
    };
    assert(members_view(entries@) == guest_entries(tree@));
    match check_entries(entries) {
        Some(p) => {
            return Err(unparsed(path, p));
        },
        None => {},
    }
    let provider = text_under(tree, "provider", "");
    if is_all_blank(provider.as_str()) {
        return Err(invalid(path, "provider is empty".to_string()));
    }
    let section = if same(provider.as_str(), "provider") || same(provider.as_str(), "session")
        || same(provider.as_str(), "guests") {
        None
    } else {
        tree.get(provider.as_str())
    };
    let provider_table = match section {
        Some(t) => t.copy(),
        None => {
            return Err(
                invalid(
                    path,
                    "provider is ".to_string().concat(quoted(provider.as_str()).as_str()).concat(
                        " but there is no [",
                    ).concat(provider.as_str()).concat("] section to configure it"),
                ),
            );
        },
    };
    let guests = read_guests(entries);
    assert(registry(guests@).len() == guests@.len());
    if guests.len() == 0 {
        return Err(
            invalid(
                path,
                "no guests are registered, so no tenant can run anything here".to_string(),
            ),
        );
    }
    match find_blank(&guests) {
        Some(name) => {
            return Err(
                invalid(
                    path,
                    "guest ".to_string().concat(quoted(name.as_str()).as_str()).concat(
                        " has an empty template",
                    ),
                ),
            );
        },
        None => {},
    }
    match read_session(session, home) {
        Err(m) => Err(invalid(path, m)),
        Ok(session) => Ok(
            Config { path: path.to_string(), provider, session, guests, provider_table },
        ),
    }
}

/// The configuration that a text holds. `path` names it in errors, and `home`
/// is what `~` stands for.
pub fn parse(text: &str, path: &str, home: &Option<String>) -> (r: Result<Config, ConfigError>)
    ensures
        match r {
            Ok(c) => refusal(text@, path@) is None && toml_reads(text@) is Ok && says(
                c,
                tabled(toml_reads(text@)->Ok_0),
                path@,
                maybe(*home),
            ),
            Err(e) => refusal(text@, path@) == Some(e@),
        },
{
    match read_toml(text) {
        Err(m) => Err(unparsed(path, m)),
        Ok(tree) => from_tree(&make_tables(&tree), path, home),
    }
}

/// The first candidate that is there.
pub open spec fn first_present(candidates: Seq<String>, present: Seq<bool>) -> Option<String>
    decreases candidates.len(),
{
    if candidates.len() == 0 || present.len() == 0 {
        None
    } else if present[0] {
        Some(candidates[0])
    } else {
        first_present(candidates.skip(1), present.skip(1))
    }
}

/// The configuration file to load: the first candidate that is there.
pub fn select(candidates: Vec<String>, present: &Vec<bool>) -> (r: Result<String, ConfigError>)
    requires
        candidates@.len() == present@.len(),
    ensures
        match r {
            Ok(p) => first_present(candidates@, present@) == Some(p),
            Err(e) => first_present(candidates@, present@) is None && e@ == ConfigError::<
                Seq<char>,
                Seq<Seq<char>>,
            >::NotFound(texts(candidates@)),
        },
{
    let mut i: usize = 0;
    assert(candidates@.skip(0) =~= candidates@);
    assert(present@.skip(0) =~= present@);
    while i < candidates.len()
        invariant
            i <= candidates@.len(),
            candidates@.len() == present@.len(),
            first_present(candidates@, present@) == first_present(
                candidates@.skip(i as int),
                present@.skip(i as int),
            ),
        decreases candidates@.len() - i,
    {
        assert(candidates@.skip(i as int)[0] == candidates@[i as int]);
        assert(present@.skip(i as int)[0] == present@[i as int]);
        if present[i] {
            return Ok(candidates[i].clone());
        }
        assert(candidates@.skip(i as int).skip(1) =~= candidates@.skip(i + 1));
        assert(present@.skip(i as int).skip(1) =~= present@.skip(i + 1));
        i += 1;
    }
    Err(ConfigError::NotFound(candidates))
}

// ---------------------------------------------------------------------------
// What an accepted configuration promises
// ---------------------------------------------------------------------------

/// In every configuration that is accepted at least two renewals can fail
/// before a machine is lost, some session is allowed, the default disk has a
/// sensible size, and some guest is registered, each with a template.
pub proof fn law_an_accepted_configuration_is_workable(
    c: Config,
    tree: JsonView,
    path: Seq<char>,
    home: Option<Seq<char>>,
)
    requires
        tree_refusal(tree, path) is None,
        says(c, tree, path, home),
    ensures
        3 * c.session.heartbeat_interval@ <= c.session.default_ttl@,
        c.session.max_concurrent >= 1,
        1 <= c.session.default_disk_gb <= 4096,
        trim(c.provider@).len() > 0,
        c.guests@.len() >= 1,
        forall|i: int|
            0 <= i < c.guests@.len() ==> trim((#[trigger] c.guests@[i]).1.template@).len() > 0,
{
    let guests = registry(c.guests@);
    assert(guests.len() == c.guests@.len());
    lemma_none_blank(guests);
    assert forall|i: int| 0 <= i < c.guests@.len() implies trim(
        (#[trigger] c.guests@[i]).1.template@,
    ).len() > 0 by {
        assert(guests[i].1 == c.guests@[i].1.template@);
    }
}

proof fn lemma_none_blank(guests: Seq<(Seq<char>, Seq<char>)>)
    requires
        blank_guest(guests) is None,
    ensures
        forall|i: int| 0 <= i < guests.len() ==> trim((#[trigger] guests[i]).1).len() > 0,
    decreases guests.len(),
{
    if guests.len() > 0 {
        let rest = guests.skip(1);
        lemma_none_blank(rest);
        assert forall|i: int| 0 <= i < guests.len() implies trim((#[trigger] guests[i]).1).len()
            > 0 by {
            if i > 0 {
                assert(rest[i - 1] == guests[i]);
            }
        }
    }
}

/// Each setting is what stands under its own name in the session section, a
/// duration read as one; and its own default only where nothing stands there.
pub proof fn law_each_setting_has_its_own_name(
    c: Config,
    tree: JsonView,
    path: Seq<char>,
    home: Option<Seq<char>>,
    section: JsonView,
)
    requires
        says(c, tree, path, home),
        session_of(tree) == section,
    ensures
        duration_is(section, "default_ttl"@, "2h"@, c.session.default_ttl@),
        duration_is(section, "heartbeat_interval"@, "5m"@, c.session.heartbeat_interval@),
        duration_is(section, "ready_grace"@, "30m"@, c.session.ready_grace@),
        duration_is(section, "ssh_connect_timeout"@, "15s"@, c.session.ssh_connect_timeout@),
        duration_is(section, "results_interval"@, "5s"@, c.session.results_interval@),
        duration_is(section, "io_timeout"@, "2m"@, c.session.io_timeout@),
        uint_at(section, "max_concurrent"@) matches Some(n) ==> c.session.max_concurrent == n,
        uint_at(section, "max_concurrent"@) is None ==> c.session.max_concurrent == 2,
        uint_at(section, "default_disk_gb"@) matches Some(n) ==> c.session.default_disk_gb == n,
        uint_at(section, "default_disk_gb"@) is None ==> c.session.default_disk_gb == 64,
        text_at(section, "ssh_user"@) matches Some(s) ==> c.session.ssh_user@ == s,
        text_at(section, "ssh_user"@) is None ==> c.session.ssh_user@ == "root"@,
        text_at(section, "ssh_command"@) matches Some(s) ==> c.session.ssh_command@ == s,
        text_at(section, "ssh_command"@) is None ==> c.session.ssh_command@ == "ssh"@,
        text_at(section, "rsync_command"@) matches Some(s) ==> c.session.rsync_command@ == s,
        text_at(section, "rsync_command"@) is None ==> c.session.rsync_command@ == "rsync"@,
        text_at(section, "ssh_key"@) is None <==> c.session.ssh_key is None,
{
}

/// A span is the duration that stands under a name, or the one that a text in its
/// place stands for.
pub open spec fn duration_is(
    section: JsonView,
    name: Seq<char>,
    default: Seq<char>,
    span: int,
) -> bool {
    let text = if text_at(section, name) is Some {
        text_at(section, name)->0
    } else {
        default
    };
    reading(text) matches Ok(secs) ==> span == secs * 1_000_000_000
}

}
