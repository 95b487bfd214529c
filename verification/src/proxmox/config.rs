//! This provider's slice of site configuration.
//!
//! The core hands over the `[proxmox]` table uninterpreted; everything Proxmox
//! needs to be told is read here and nowhere else.
use vstd::prelude::*;
use vstd::string::*;

use crate::address::{loopback, reads, Address};
use crate::decode::{
    check_table, lemma_field, spell_out, spelled_out, table_problem, text_or, text_under, wrong_type, Field, Kind,
};
use crate::duration::{complaint, parse as parse_duration, reading};
use crate::json::{
    items_in, items_view, member, members_in, text_at, uint_at, uint_in, Json, JsonView,
};
use crate::paths::{expand_tilde, maybe, tilde_expanded};
use crate::proxmox::ids::IdRange;
use crate::scan::{
    cut, has_blank, has_char, holds_blank, is_all_blank, lowered, same_ignoring_case, split_once,
    trim, trimmed, up_to,
};
use crate::text::{chars_of, debug_text, dec, part, quoted, same, split, text_of};
use crate::time::Duration;

verus! {

/// How the server's certificate is checked.
#[derive(Debug, PartialEq, Eq)]
pub enum Tls<S = String> {
    /// The system's ordinary public trust roots.
    Webpki,
    /// A specific certificate authority -- the right answer for a node whose
    /// certificate is issued by an internal CA, which is most of them.
    CaFile(S),
    /// No verification at all. Honest, loud, and never a default.
    Insecure,
}

impl Tls<String> {
    pub open spec fn view(&self) -> Tls<Seq<char>> {
        match self {
            Tls::Webpki => Tls::Webpki,
            Tls::CaFile(p) => Tls::CaFile(p@),
            Tls::Insecure => Tls::Insecure,
        }
    }
}

#[derive(Debug)]
pub struct Config {
    pub api: String,
    pub node: String,
    pub pool: String,
    pub ids: IdRange,
    pub token_file: String,
    /// Storage for the blank disk attached to each session. `None` means this
    /// provider cannot attach one, which is only workable if the templates
    /// carry their own.
    pub data_storage: Option<String>,
    /// Where that disk hangs. The templates boot from `virtio0`, so the data
    /// disk goes on the next VirtIO slot unless a site says otherwise.
    pub data_bus: String,
    /// Room to leave on a storage after a session takes its share, in
    /// gibibytes.
    pub min_free_gb: u32,
    pub tls: Tls,
    /// How long something may stay expired before the sweeper counts as
    /// absent.
    pub sweep_within: Duration,
    /// How long to wait for an asynchronous operation before giving up on
    /// knowing its outcome. Generous by default: a full-copy clone on storage
    /// without snapshots takes minutes.
    pub task_timeout: Duration,
    pub request_timeout: Duration,
}

#[derive(Debug)]
pub struct ConfigError(pub String);

impl ConfigError {
    pub open spec fn view(&self) -> Seq<char> {
        self.0@
    }

    pub fn message(&self) -> (r: String)
        ensures
            r@ == self@,
    {
        self.0.clone()
    }
}

pub open spec fn fields_spec() -> Seq<Field> {
    seq![
        Field { name: "api", kind: Kind::Text, required: true, nullable: false },
        Field { name: "node", kind: Kind::Text, required: true, nullable: false },
        Field { name: "pool", kind: Kind::Text, required: true, nullable: false },
        Field { name: "id_range", kind: Kind::IdPair, required: true, nullable: false },
        Field { name: "token_file", kind: Kind::Text, required: true, nullable: false },
        Field { name: "data_storage", kind: Kind::Text, required: false, nullable: false },
        Field { name: "data_bus", kind: Kind::Text, required: false, nullable: false },
        Field { name: "min_free_gb", kind: Kind::U32, required: false, nullable: false },
        Field { name: "tls", kind: Kind::Text, required: true, nullable: false },
        Field { name: "ca_file", kind: Kind::Text, required: false, nullable: false },
        Field { name: "sweep_within", kind: Kind::Text, required: false, nullable: false },
        Field { name: "task_timeout", kind: Kind::Text, required: false, nullable: false },
        Field { name: "request_timeout", kind: Kind::Text, required: false, nullable: false },
    ]
}

fn fields() -> (r: Vec<Field>)
    ensures
        r@ == fields_spec(),
{
    let v = vec![
        Field { name: "api", kind: Kind::Text, required: true, nullable: false },
        Field { name: "node", kind: Kind::Text, required: true, nullable: false },
        Field { name: "pool", kind: Kind::Text, required: true, nullable: false },
        Field { name: "id_range", kind: Kind::IdPair, required: true, nullable: false },
        Field { name: "token_file", kind: Kind::Text, required: true, nullable: false },
        Field { name: "data_storage", kind: Kind::Text, required: false, nullable: false },
        Field { name: "data_bus", kind: Kind::Text, required: false, nullable: false },
        Field { name: "min_free_gb", kind: Kind::U32, required: false, nullable: false },
        Field { name: "tls", kind: Kind::Text, required: true, nullable: false },
        Field { name: "ca_file", kind: Kind::Text, required: false, nullable: false },
        Field { name: "sweep_within", kind: Kind::Text, required: false, nullable: false },
        Field { name: "task_timeout", kind: Kind::Text, required: false, nullable: false },
        Field { name: "request_timeout", kind: Kind::Text, required: false, nullable: false },
    ];
    assert(v@ =~= fields_spec());
    v
}

// ---------------------------------------------------------------------------
// The endpoint
// ---------------------------------------------------------------------------

/// The text without the slashes it ends with.
pub open spec fn unslashed_end(s: Seq<char>) -> Seq<char>
    decreases s.len(),
{
    if s.len() > 0 && s.last() == '/' {
        unslashed_end(s.drop_last())
    } else {
        s
    }
}

/// The host in an authority, IPv6 literals among them.
pub open spec fn host_in(rest: Seq<char>) -> Seq<char> {
    let authority = split(rest, seq!['/'])[0];
    if authority.len() > 0 && authority[0] == '[' {
        split(authority.skip(1), seq![']'])[0]
    } else {
        split(authority, seq![':'])[0]
    }
}

/// The host is this machine.
pub open spec fn loopback_host(host: Seq<char>) -> bool {
    lowered(host) == lowered("localhost"@) || (reads(host) is Some && loopback(reads(host)->0))
}

/// What is wrong with an endpoint: it has to be HTTPS, or plain HTTP to this
/// machine.
pub open spec fn endpoint_problem(api: Seq<char>) -> Option<Seq<char>> {
    match cut(api, "://"@) {
        None => Some("[proxmox].api "@ + debug_text(api) + " has no scheme"@),
        Some((scheme, rest)) => if scheme == "https"@ {
            None
        } else if scheme == "http"@ {
            if loopback_host(host_in(rest)) {
                None
            } else {
                Some(
                    "[proxmox].api "@ + debug_text(api) + " is plain HTTP to "@ + debug_text(
                        host_in(rest),
                    ) + "; the API token would travel in clear text. Use https, or loopback for testing"@,
                )
            }
        } else {
            Some("[proxmox].api has scheme "@ + debug_text(scheme) + "; expected http or https"@)
        },
    }
}

/// The host out of an authority, IPv6 literals included.
///
/// Splitting on the first colon is the obvious approach and it is wrong: the
/// colons inside `[::1]` are part of the address, not a port separator.
pub fn host_of(rest: &str) -> (r: String)
    ensures
        r@ == host_in(rest@),
{
    let authority = up_to(rest, '/');
    let v = chars_of(authority.as_str());
    if v.len() > 0 && v[0] == '[' {
        assert(v@.subrange(1, v@.len() as int) =~= v@.skip(1));
        up_to(text_of(&part(&v, 1, v.len())).as_str(), ']')
    } else {
        up_to(authority.as_str(), ':')
    }
}

pub fn is_loopback(host: &str) -> (r: bool)
    ensures
        r == loopback_host(host@),
{
    if same_ignoring_case(host, "localhost") {
        return true;
    }
    match Address::parse(host) {
        Some(a) => a.is_loopback(),
        None => false,
    }
}

/// Plain HTTP is refused unless the host is loopback.
///
/// A credential travelling in a header over a plaintext link to another machine
/// is a credential you have given away. Loopback is exempt because nothing
/// leaves the machine.
pub fn check_endpoint(api: &str) -> (r: Result<(), String>)
    ensures
        match r {
            Ok(_) => endpoint_problem(api@) is None,
            Err(m) => endpoint_problem(api@) == Some(m@),
        },
{
    match split_once(api, "://") {
        None => Err(
            "[proxmox].api ".to_string().concat(quoted(api).as_str()).concat(" has no scheme"),
        ),
        Some((scheme, rest)) => {
            if same(scheme.as_str(), "https") {
                Ok(())
            } else if same(scheme.as_str(), "http") {
                let host = host_of(rest.as_str());
                if is_loopback(host.as_str()) {
                    Ok(())
                } else {
                    Err(
                        "[proxmox].api ".to_string().concat(quoted(api).as_str()).concat(
                            " is plain HTTP to ",
                        ).concat(quoted(host.as_str()).as_str()).concat(
                            "; the API token would travel in clear text. Use https, or loopback for testing",
                        ),
                    )
                }
            } else {
                Err(
                    "[proxmox].api has scheme ".to_string().concat(
                        quoted(scheme.as_str()).as_str(),
                    ).concat("; expected http or https"),
                )
            }
        },
    }
}

/// The API as it is used: without slashes at its end.
pub fn trim_api(api: &str) -> (r: String)
    ensures
        r@ == unslashed_end(api@),
{
    let v = chars_of(api);
    let mut n: usize = v.len();
    assert(v@.take(n as int) =~= v@);
    while n > 0 && v[n - 1] == '/'
        invariant
            v@ == api@,
            n <= v@.len(),
            unslashed_end(v@) == unslashed_end(v@.take(n as int)),
        decreases n,
    {
        assert(v@.take(n as int).drop_last() =~= v@.take(n - 1));
        n -= 1;
    }
    assert(v@.take(n as int) =~= v@.subrange(0, n as int));
    text_of(&part(&v, 0, n))
}

// ---------------------------------------------------------------------------
// The table
// ---------------------------------------------------------------------------

/// What is wrong with a duration in the table.
pub open spec fn duration_problem(
    table: JsonView,
    name: Seq<char>,
    default: Seq<char>,
) -> Option<Seq<char>> {
    let text = text_or(table, name, default);
    match reading(text) {
        Ok(_) => None,
        Err(reason) => Some("[proxmox]."@ + name + ": "@ + complaint(text, reason)),
    }
}

/// The two ends of the identifier range.
pub open spec fn range_of(table: JsonView) -> (u32, u32) {
    let a = items_in(member(table, "id_range"@)->0)->0;
    (uint_in(a[0])->0 as u32, uint_in(a[1])->0 as u32)
}

pub open spec fn range_problem(low: u32, high: u32) -> Option<Seq<char>> {
    if low < 100 {
        Some(
            "[proxmox].id_range: "@ + (dec(low as nat)
                + " is below the lowest identifier Proxmox allows (100)"@),
        )
    } else if low > high {
        Some(
            "[proxmox].id_range: "@ + ("range "@ + dec(low as nat) + "-"@ + dec(high as nat)
                + " is inverted"@),
        )
    } else {
        None
    }
}

/// The fields in the order in which a list gives them.
pub open spec fn order() -> Seq<&'static str> {
    seq![
        "api",
        "node",
        "pool",
        "id_range",
        "token_file",
        "data_storage",
        "data_bus",
        "tls",
        "ca_file",
        "task_timeout",
        "request_timeout",
    ]
}

/// The provider's configuration as a table. It may be written as a list, too.
pub open spec fn tabled(table: JsonView) -> JsonView {
    spelled_out(table, order(), 11, false)
}

fn make_table(table: &Json) -> (r: Json)
    ensures
        r@ == tabled(table@),
{
    let names: [&'static str; 11] = [
        "api",
        "node",
        "pool",
        "id_range",
        "token_file",
        "data_storage",
        "data_bus",
        "tls",
        "ca_file",
        "task_timeout",
        "request_timeout",
    ];
    assert(names@ =~= order());
    spell_out(table, &names, 11, false)
}

/// The path of the certificate authority that the table names, if its TLS mode
/// uses one.
pub open spec fn ca_path(table: JsonView, home: Option<Seq<char>>) -> Option<Seq<char>> {
    let table = tabled(table);
    if text_at(table, "tls"@) == Some("ca-file"@) {
        match text_at(table, "ca_file"@) {
            Some(p) => Some(tilde_expanded(p, home)),
            None => None,
        }
    } else {
        None
    }
}

/// What is wrong with how certificates are to be checked.
pub open spec fn tls_problem(
    table: JsonView,
    home: Option<Seq<char>>,
    ca_present: bool,
) -> Option<Seq<char>> {
    let tls = text_at(table, "tls"@)->0;
    let ca = text_at(table, "ca_file"@);
    if tls == "ca-file"@ {
        match ca {
            None => Some("[proxmox].tls is \"ca-file\" but no [proxmox].ca_file is set"@),
            Some(p) => if ca_present {
                None
            } else {
                Some("[proxmox].ca_file "@ + tilde_expanded(p, home) + " does not exist"@)
            },
        }
    } else if tls == "webpki"@ || tls == "insecure"@ {
        if ca is Some {
            Some(
                "[proxmox].ca_file is set but [proxmox].tls does not use it; one of the two is not what you meant"@,
            )
        } else {
            None
        }
    } else {
        Some(
            "[proxmox].tls is "@ + debug_text(tls)
                + "; expected \"webpki\", \"ca-file\" or \"insecure\""@,
        )
    }
}

/// What is wrong with the provider's table, if anything is: the first of its
/// problems in the order in which the table is read.
pub open spec fn problem(
    table: JsonView,
    home: Option<Seq<char>>,
    ca_present: bool,
) -> Option<Seq<char>> {
    let table = tabled(table);
    match members_in(table) {
        None => Some("[proxmox]: "@ + wrong_type(table, "struct Raw"@)),
        Some(m) => match table_problem(m, fields_spec(), false) {
            Some(p) => Some("[proxmox]: "@ + p),
            None => content_problem(table, home, ca_present),
        },
    }
}

/// What is wrong with a table that has the right shape.
pub open spec fn content_problem(
    table: JsonView,
    home: Option<Seq<char>>,
    ca_present: bool,
) -> Option<Seq<char>> {
    if endpoint_problem(unslashed_end(text_at(table, "api"@)->0)) is Some {
        endpoint_problem(unslashed_end(text_at(table, "api"@)->0))
    } else if trim(text_at(table, "node"@)->0).len() == 0 {
        Some("[proxmox].node is empty"@)
    } else if trim(text_at(table, "pool"@)->0).len() == 0 {
        Some(
            "[proxmox].pool is empty; every machine reaper creates must be placed in a pool, and the credential is unlikely to be allowed to allocate outside one"@,
        )
    } else if range_problem(range_of(table).0, range_of(table).1) is Some {
        range_problem(range_of(table).0, range_of(table).1)
    } else if tls_problem(table, home, ca_present) is Some {
        tls_problem(table, home, ca_present)
    } else if duration_problem(table, "task_timeout"@, "10m"@) is Some {
        duration_problem(table, "task_timeout"@, "10m"@)
    } else if duration_problem(table, "request_timeout"@, "30s"@) is Some {
        duration_problem(table, "request_timeout"@, "30s"@)
    } else {
        duration_problem(table, "sweep_within"@, "15m"@)
    }
}

/// The span that a duration in the table stands for, in nanoseconds.
pub open spec fn span(table: JsonView, name: Seq<char>, default: Seq<char>) -> int {
    reading(text_or(table, name, default))->Ok_0 as int * 1_000_000_000
}

/// The configuration says what the table says.
pub open spec fn configured(c: Config, table: JsonView, home: Option<Seq<char>>) -> bool {
    let table = tabled(table);
    &&& c.api@ == unslashed_end(text_at(table, "api"@)->0)
    &&& c.node@ == text_at(table, "node"@)->0
    &&& c.pool@ == text_at(table, "pool"@)->0
    &&& c.ids@ == range_of(table)
    &&& c.token_file@ == tilde_expanded(text_at(table, "token_file"@)->0, home)
    &&& maybe(c.data_storage) == text_at(table, "data_storage"@)
    &&& c.data_bus@ == text_or(table, "data_bus"@, "virtio1"@)
    &&& c.min_free_gb == (match uint_at(table, "min_free_gb"@) {
        Some(n) => n as u32,
        None => 10,
    })
    &&& c.tls@ == (if text_at(table, "tls"@)->0 == "webpki"@ {
        Tls::Webpki
    } else if text_at(table, "tls"@)->0 == "ca-file"@ {
        Tls::CaFile(ca_path(table, home)->0)
    } else {
        Tls::Insecure
    })
    &&& c.task_timeout@ == span(table, "task_timeout"@, "10m"@)
    &&& c.request_timeout@ == span(table, "request_timeout"@, "30s"@)
    &&& c.sweep_within@ == span(table, "sweep_within"@, "15m"@)
}

/// The names in the table are different ones.
proof fn lemma_distinct()
    ensures
        crate::decode::distinct(fields_spec()),
{
    reveal_strlit("api");
    reveal_strlit("node");
    reveal_strlit("pool");
    reveal_strlit("id_range");
    reveal_strlit("token_file");
    reveal_strlit("data_storage");
    reveal_strlit("data_bus");
    reveal_strlit("min_free_gb");
    reveal_strlit("tls");
    reveal_strlit("ca_file");
    reveal_strlit("sweep_within");
    reveal_strlit("task_timeout");
    reveal_strlit("request_timeout");
    let f = fields_spec();
    assert(f[1].name@[0] == 'n' && f[2].name@[0] == 'p' && f[3].name@[0] == 'i');
    assert(f[4].name@[1] == 'o' && f[5].name@[5] == 's' && f[6].name@[5] == 'b');
    assert(f[4].name@.len() == 10 && f[8].name@.len() == 3 && f[11].name@.len() == 12);
    assert(f[5].name@.len() == 12 && f[10].name@.len() == 12);
    assert(f[0].name@[0] == 'a' && f[8].name@[0] == 't' && f[9].name@[0] == 'c');
    assert(f[10].name@[0] == 's' && f[11].name@[0] == 't' && f[12].name@[0] == 'r');
    assert(f[7].name@[0] == 'm' && f[5].name@[0] == 'd' && f[6].name@[0] == 'd' && f[4].name@[0]
        == 't');
}

fn duration_under(table: &Json, name: &str, default: &str) -> (r: Result<Duration, ConfigError>)
    ensures
        match r {
            Ok(d) => duration_problem(table@, name@, default@) is None && d@ == span(
                table@,
                name@,
                default@,
            ),
            Err(e) => duration_problem(table@, name@, default@) == Some(e@),
        },
{
    let text = text_under(table, name, default);
    match parse_duration(text.as_str()) {
        Ok(d) => Ok(d),
        Err(e) => Err(
            ConfigError(
                "[proxmox].".to_string().concat(name).concat(": ").concat(e.message().as_str()),
            ),
        ),
    }
}

/// The certificate authority's path, which whoever reads the table has to look
/// for.
pub fn ca_file(table: &Json, home: &Option<String>) -> (r: Option<String>)
    ensures
        maybe(r) == ca_path(table@, maybe(*home)),
{
    let spread = make_table(table);
    let table = &spread;
    match table.get_text("tls") {
        Some(t) => if same(t.as_str(), "ca-file") {
            match table.get_text("ca_file") {
                Some(p) => Some(expand_tilde(p.as_str(), home)),
                None => None,
            }
        } else {
            None
        },
        None => None,
    }
}

fn read_tls(table: &Json, home: &Option<String>, ca_present: bool) -> (r: Result<Tls, ConfigError>)
    requires
        text_at(table@, "tls"@) is Some,
    ensures
        match r {
            Ok(t) => tls_problem(table@, maybe(*home), ca_present) is None && t@ == (if text_at(
                table@,
                "tls"@,
            )->0 == "webpki"@ {
                Tls::Webpki
            } else if text_at(table@, "tls"@)->0 == "ca-file"@ {
                Tls::CaFile(ca_path(table@, maybe(*home))->0)
            } else {
                Tls::Insecure
            }),
            Err(e) => tls_problem(table@, maybe(*home), ca_present) == Some(e@),
        },
{
    proof {
        reveal_strlit("ca-file");
        reveal_strlit("webpki");
        reveal_strlit("insecure");
        assert("ca-file"@[0] != "webpki"@[0] && "webpki"@[0] != "insecure"@[0] && "ca-file"@[0]
            != "insecure"@[0]);
    }
    let tls = text_under(table, "tls", "");
    let ca = table.get_text("ca_file");
    if same(tls.as_str(), "ca-file") {
        match ca {
            None => Err(
                ConfigError(
                    "[proxmox].tls is \"ca-file\" but no [proxmox].ca_file is set".to_string(),
                ),
            ),
            Some(p) => {
                let path = expand_tilde(p.as_str(), home);
                if ca_present {
                    Ok(Tls::CaFile(path))
                } else {
                    Err(
                        ConfigError(
                            "[proxmox].ca_file ".to_string().concat(path.as_str()).concat(
                                " does not exist",
                            ),
                        ),
                    )
                }
            },
        }
    } else if same(tls.as_str(), "webpki") || same(tls.as_str(), "insecure") {
        if ca.is_some() {
            Err(
                ConfigError(
                    "[proxmox].ca_file is set but [proxmox].tls does not use it; one of the two is not what you meant".to_string(),
                ),
            )
        } else if same(tls.as_str(), "webpki") {
            Ok(Tls::Webpki)
        } else {
            Ok(Tls::Insecure)
        }
    } else {
        Err(
            ConfigError(
                "[proxmox].tls is ".to_string().concat(quoted(tls.as_str()).as_str()).concat(
                    "; expected \"webpki\", \"ca-file\" or \"insecure\"",
                ),
            ),
        )
    }
}

/// The configuration that the provider's table holds. `ca_present` says
/// whether the file at `ca_file` is there.
pub fn from_table(table: &Json, home: &Option<String>, ca_present: bool) -> (r: Result<
    Config,
    ConfigError,
>)
    ensures
        match r {
            Ok(c) => problem(table@, maybe(*home), ca_present) is None && configured(
                c,
                table@,
                maybe(*home),
            ),
            Err(e) => problem(table@, maybe(*home), ca_present) == Some(e@),
        },
{
    let spread = make_table(table);
    let table = &spread;
    let members = match table.as_members() {
        Some(m) => m,
        None => {
            return Err(
                ConfigError(
                    "[proxmox]: ".to_string().concat(
                        crate::decode::wrong(table, "struct Raw").as_str(),
                    ),
                ),
            );
        },
    };
    match check_table(members, &fields(), false) {
        Some(p) => {
            return Err(ConfigError("[proxmox]: ".to_string().concat(p.as_str())));
        },
        None => {},
    }
    proof {
        lemma_distinct();
        lemma_field(members_in(table@)->0, fields_spec(), false, 0);
        lemma_field(members_in(table@)->0, fields_spec(), false, 1);
        lemma_field(members_in(table@)->0, fields_spec(), false, 2);
        lemma_field(members_in(table@)->0, fields_spec(), false, 3);
        lemma_field(members_in(table@)->0, fields_spec(), false, 4);
        lemma_field(members_in(table@)->0, fields_spec(), false, 7);
        lemma_field(members_in(table@)->0, fields_spec(), false, 8);
    }
    let api = trim_api(text_under(table, "api", "").as_str());
    match check_endpoint(api.as_str()) {
        Err(m) => {
            return Err(ConfigError(m));
        },
        Ok(_) => {},
    }
    let node = text_under(table, "node", "");
    if is_all_blank(node.as_str()) {
        return Err(ConfigError("[proxmox].node is empty".to_string()));
    }
    // The token can allocate nowhere but this pool, so a create without it
    // fails with a permission error that reads like a bug in reaper. Refusing
    // here turns that into a sentence someone can act on.
    let pool = text_under(table, "pool", "");
    if is_all_blank(pool.as_str()) {
        return Err(
            ConfigError(
                "[proxmox].pool is empty; every machine reaper creates must be placed in a pool, and the credential is unlikely to be allowed to allocate outside one".to_string(),
            ),
        );
    }
    let (low, high) = read_range(table);
    let ids = match IdRange::new(low, high) {
        Ok(ids) => ids,
        Err(m) => {
            return Err(
                ConfigError("[proxmox].id_range: ".to_string().concat(m.as_str())),
            );
        },
    };
    let tls = match read_tls(table, home, ca_present) {
        Ok(t) => t,
        Err(e) => {
            return Err(e);
        },
    };
    let task_timeout = match duration_under(table, "task_timeout", "10m") {
        Ok(d) => d,
        Err(e) => {
            return Err(e);
        },
    };
    let request_timeout = match duration_under(table, "request_timeout", "30s") {
        Ok(d) => d,
        Err(e) => {
            return Err(e);
        },
    };
    let sweep_within = match duration_under(table, "sweep_within", "15m") {
        Ok(d) => d,
        Err(e) => {
            return Err(e);
        },
    };
    let min_free_gb: u32 = match table.get_uint("min_free_gb") {
        Some(n) => n as u32,
        None => 10,
    };
    let data_storage = match table.get_text("data_storage") {
        Some(s) => Some(s.clone()),
        None => None,
    };
    Ok(
        Config {
            api,
            node,
            pool,
            ids,
            token_file: expand_tilde(text_under(table, "token_file", "").as_str(), home),
            data_storage,
            data_bus: text_under(table, "data_bus", "virtio1"),
            min_free_gb,
            tls,
            sweep_within,
            task_timeout,
            request_timeout,
        },
    )
}

fn read_range(table: &Json) -> (r: (u32, u32))
    requires
        member(table@, "id_range"@) is Some,
        crate::decode::problem(member(table@, "id_range"@)->0, Kind::IdPair) is None,
    ensures
        r == range_of(table@),
{
    match table.get("id_range") {
        Some(v) => match v.as_items() {
            Some(a) => {
                proof {
                    crate::json::lemma_items(a@);
                    assert(items_view(a@)[0] == a@[0]@ && items_view(a@)[1] == a@[1]@);
                }
                let low = a[0].as_uint();
                let high = a[1].as_uint();
                match (low, high) {
                    (Some(l), Some(h)) => (l as u32, h as u32),
                    _ => (0, 0),
                }
            },
            None => (0, 0),
        },
        None => (0, 0),
    }
}

// ---------------------------------------------------------------------------
// The token
// ---------------------------------------------------------------------------

/// A file mode in octal, in at least three places.
pub open spec fn octal3(mode: nat) -> Seq<char> {
    seq![
        crate::text::digit((mode / 64) % 8),
        crate::text::digit((mode / 8) % 8),
        crate::text::digit(mode % 8),
    ]
}

/// What is wrong with who may read a credential.
pub open spec fn mode_problem(mode: u32, path: Seq<char>) -> Option<Seq<char>> {
    if mode % 64 != 0 {
        Some(
            "token file "@ + path + " is mode "@ + octal3((mode % 512) as nat)
                + "; it is readable by others. chmod 600 it rather than letting reaper use it"@,
        )
    } else {
        None
    }
}

/// What is wrong with a credential.
pub open spec fn token_problem(text: Seq<char>, path: Seq<char>) -> Option<Seq<char>> {
    let token = trim(text);
    if token.len() == 0 {
        Some("token file "@ + path + " is empty"@)
    } else if !token.contains('!') || !token.contains('=') {
        Some("token file "@ + path + " does not look like `user@realm!name=secret`"@)
    } else if has_blank(token) {
        Some("token file "@ + path + " contains whitespace inside the credential"@)
    } else {
        None
    }
}

fn octal_digit(d: u32) -> (c: char)
    requires
        d < 8,
    ensures
        c == crate::text::digit(d as nat),
{
    match d {
        0 => '0',
        1 => '1',
        2 => '2',
        3 => '3',
        4 => '4',
        5 => '5',
        6 => '6',
        _ => '7',
    }
}

/// The same rule ssh applies to a private key, for the same reason: a
/// credential others can read is a credential others have. `mode` holds the
/// permission bits of the file.
pub fn check_permissions(mode: u32, path: &str) -> (r: Result<(), ConfigError>)
    ensures
        match r {
            Ok(_) => mode_problem(mode, path@) is None,
            Err(e) => mode_problem(mode, path@) == Some(e@),
        },
{
    if mode % 64 != 0 {
        let m: u32 = mode % 512;
        let mut octal = String::new();
        octal.push(octal_digit((m / 64) % 8));
        octal.push(octal_digit((m / 8) % 8));
        octal.push(octal_digit(m % 8));
        assert(octal@ =~= octal3(m as nat));
        Err(
            ConfigError(
                "token file ".to_string().concat(path).concat(" is mode ").concat(
                    octal.as_str(),
                ).concat(
                    "; it is readable by others. chmod 600 it rather than letting reaper use it",
                ),
            ),
        )
    } else {
        Ok(())
    }
}

/// Read the API token out of its file's text.
///
/// The file holds the whole credential -- `user@realm!name=secret` -- so that
/// there is exactly one secret in exactly one place, rather than an identifier
/// in configuration that must be kept in step with a secret beside it. A shape
/// check only: whether the credential is *accepted* is the server's business.
pub fn read_token(text: &str, path: &str) -> (r: Result<String, ConfigError>)
    ensures
        match r {
            Ok(t) => token_problem(text@, path@) is None && t@ == trim(text@),
            Err(e) => token_problem(text@, path@) == Some(e@),
        },
{
    let token = trimmed(text);
    if token.as_str().is_empty() {
        return Err(ConfigError("token file ".to_string().concat(path).concat(" is empty")));
    }
    if !has_char(token.as_str(), '!') || !has_char(token.as_str(), '=') {
        return Err(
            ConfigError(
                "token file ".to_string().concat(path).concat(
                    " does not look like `user@realm!name=secret`",
                ),
            ),
        );
    }
    if holds_blank(token.as_str()) {
        return Err(
            ConfigError(
                "token file ".to_string().concat(path).concat(
                    " contains whitespace inside the credential",
                ),
            ),
        );
    }
    Ok(token)
}

}
