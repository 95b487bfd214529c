//! From a document to the typed model.
use vstd::prelude::*;
use vstd::string::*;

use crate::decode::{
    check_table, distinct, lemma_field, seen, table_problem, wrong, wrong_type, Field, Kind,
};
use crate::dict::{lemma_mapped_place, place, text_pairs, Dict};
use crate::json::{
    items_in, items_view, lemma_items, lemma_members, lemma_tidied, member, members_in,
    members_view, read_toml, read_yaml, text_at, text_in, tidied, tidy, toml_reads, uint_at,
    yaml_reads, Json, JsonView,
};
use crate::manifest::resolve::{all_resolved, resolve_guests, strings, strings_of};
use crate::manifest::{
    guest_views, holds_toml, is_toml, problems, problems_view, profile_views, validate, Build, BuildView, Env,
    Error, ErrorView, Exec, Guest, GuestView, Manifest, Profile, ProfileView, Resources, Run,
    RunView,
};
use crate::paths::maybe;
use crate::text::{dec, decimal, same, texts};

verus! {

pub open spec fn build_fields() -> Seq<Field> {
    seq![
        Field { name: "exec", kind: Kind::Mode, required: true, nullable: false },
        Field { name: "image", kind: Kind::Text, required: false, nullable: true },
        Field { name: "cmd", kind: Kind::Text, required: true, nullable: false },
        Field { name: "cache", kind: Kind::Texts, required: false, nullable: false },
        Field { name: "env", kind: Kind::TextTable, required: false, nullable: false },
    ]
}

fn build_field_list() -> (r: Vec<Field>)
    ensures
        r@ == build_fields(),
{
    let v = vec![
        Field { name: "exec", kind: Kind::Mode, required: true, nullable: false },
        Field { name: "image", kind: Kind::Text, required: false, nullable: true },
        Field { name: "cmd", kind: Kind::Text, required: true, nullable: false },
        Field { name: "cache", kind: Kind::Texts, required: false, nullable: false },
        Field { name: "env", kind: Kind::TextTable, required: false, nullable: false },
    ];
    assert(v@ =~= build_fields());
    v
}

pub open spec fn run_fields() -> Seq<Field> {
    seq![
        Field { name: "exec", kind: Kind::Mode, required: true, nullable: false },
        Field { name: "image", kind: Kind::Text, required: false, nullable: true },
        Field { name: "cmd", kind: Kind::Text, required: true, nullable: false },
        Field { name: "images", kind: Kind::Texts, required: false, nullable: false },
        Field { name: "env", kind: Kind::TextTable, required: false, nullable: false },
    ]
}

fn run_field_list() -> (r: Vec<Field>)
    ensures
        r@ == run_fields(),
{
    let v = vec![
        Field { name: "exec", kind: Kind::Mode, required: true, nullable: false },
        Field { name: "image", kind: Kind::Text, required: false, nullable: true },
        Field { name: "cmd", kind: Kind::Text, required: true, nullable: false },
        Field { name: "images", kind: Kind::Texts, required: false, nullable: false },
        Field { name: "env", kind: Kind::TextTable, required: false, nullable: false },
    ];
    assert(v@ =~= run_fields());
    v
}

pub open spec fn resource_fields() -> Seq<Field> {
    seq![
        Field { name: "cores", kind: Kind::U16, required: false, nullable: true },
        Field { name: "ram_gb", kind: Kind::U16, required: false, nullable: true },
        Field { name: "disk_gb", kind: Kind::U32, required: false, nullable: true },
    ]
}

fn resource_field_list() -> (r: Vec<Field>)
    ensures
        r@ == resource_fields(),
{
    let v = vec![
        Field { name: "cores", kind: Kind::U16, required: false, nullable: true },
        Field { name: "ram_gb", kind: Kind::U16, required: false, nullable: true },
        Field { name: "disk_gb", kind: Kind::U32, required: false, nullable: true },
    ];
    assert(v@ =~= resource_fields());
    v
}

pub open spec fn guest_fields() -> Seq<Field> {
    seq![
        Field { name: "name", kind: Kind::Text, required: true, nullable: false },
        Field { name: "exec", kind: Kind::Mode, required: false, nullable: true },
        Field { name: "build", kind: Kind::Table, required: false, nullable: true },
        Field { name: "run", kind: Kind::Table, required: true, nullable: false },
        Field { name: "resources", kind: Kind::Table, required: false, nullable: false },
    ]
}

fn guest_field_list() -> (r: Vec<Field>)
    ensures
        r@ == guest_fields(),
{
    let v = vec![
        Field { name: "name", kind: Kind::Text, required: true, nullable: false },
        Field { name: "exec", kind: Kind::Mode, required: false, nullable: true },
        Field { name: "build", kind: Kind::Table, required: false, nullable: true },
        Field { name: "run", kind: Kind::Table, required: true, nullable: false },
        Field { name: "resources", kind: Kind::Table, required: false, nullable: false },
    ];
    assert(v@ =~= guest_fields());
    v
}

pub open spec fn profile_fields() -> Seq<Field> {
    seq![
        Field { name: "ttl", kind: Kind::Text, required: false, nullable: true },
        Field { name: "warm_cache", kind: Kind::Flag, required: false, nullable: true },
        Field { name: "env", kind: Kind::TextTable, required: false, nullable: false },
    ]
}

fn profile_field_list() -> (r: Vec<Field>)
    ensures
        r@ == profile_fields(),
{
    let v = vec![
        Field { name: "ttl", kind: Kind::Text, required: false, nullable: true },
        Field { name: "warm_cache", kind: Kind::Flag, required: false, nullable: true },
        Field { name: "env", kind: Kind::TextTable, required: false, nullable: false },
    ];
    assert(v@ =~= profile_fields());
    v
}

proof fn lemma_distinct_fields()
    ensures
        distinct(build_fields()),
        distinct(run_fields()),
        distinct(resource_fields()),
        distinct(guest_fields()),
        distinct(profile_fields()),
{
    reveal_strlit("exec");
    reveal_strlit("image");
    reveal_strlit("images");
    reveal_strlit("cmd");
    reveal_strlit("cache");
    reveal_strlit("env");
    reveal_strlit("cores");
    reveal_strlit("ram_gb");
    reveal_strlit("disk_gb");
    reveal_strlit("name");
    reveal_strlit("build");
    reveal_strlit("run");
    reveal_strlit("resources");
    reveal_strlit("ttl");
    reveal_strlit("warm_cache");
    assert("exec"@.len() == 4 && "image"@.len() == 5 && "images"@.len() == 6);
    assert("cmd"@.len() == 3 && "cache"@.len() == 5 && "env"@.len() == 3);
    assert("image"@[0] == 'i' && "cache"@[0] == 'c' && "cmd"@[0] == 'c' && "env"@[0] == 'e');
    assert("cores"@.len() == 5 && "ram_gb"@.len() == 6 && "disk_gb"@.len() == 7);
    assert("name"@.len() == 4 && "name"@[0] == 'n' && "exec"@[0] == 'e');
    assert("build"@.len() == 5 && "run"@.len() == 3 && "resources"@.len() == 9);
    assert("ttl"@.len() == 3 && "ttl"@[0] == 't' && "warm_cache"@.len() == 10);
}

// ---------------------------------------------------------------------------
// What a document holds
// ---------------------------------------------------------------------------

pub open spec fn mode_in(j: JsonView) -> Option<Exec> {
    match text_in(j) {
        Some(s) => if s == "container"@ {
            Some(Exec::Container)
        } else {
            Some(Exec::Host)
        },
        None => None,
    }
}

pub open spec fn mode_at(j: JsonView) -> Option<Exec> {
    match member(j, "exec"@) {
        Some(m) => mode_in(m),
        None => None,
    }
}

pub open spec fn strings_at(j: JsonView, key: Seq<char>) -> Seq<Seq<char>> {
    match member(j, key) {
        Some(v) => match items_in(v) {
            Some(items) => strings(items),
            None => Seq::empty(),
        },
        None => Seq::empty(),
    }
}

/// The texts under names in a table.
pub open spec fn env_of(m: Seq<(Seq<char>, JsonView)>) -> Env
    decreases m.len(),
{
    if m.len() == 0 {
        Seq::empty()
    } else {
        match text_in(m.last().1) {
            Some(s) => place(env_of(m.drop_last()), m.last().0, s),
            None => env_of(m.drop_last()),
        }
    }
}

pub open spec fn env_at(j: JsonView) -> Env {
    match member(j, "env"@) {
        Some(v) => match members_in(v) {
            Some(m) => env_of(m),
            None => Seq::empty(),
        },
        None => Seq::empty(),
    }
}

pub open spec fn build_of(j: JsonView) -> BuildView {
    Build {
        mode: mode_at(j)->0,
        image: text_at(j, "image"@),
        cmd: text_at(j, "cmd"@)->0,
        cache: strings_at(j, "cache"@),
        env: env_at(j),
    }
}

pub open spec fn run_of(j: JsonView) -> RunView {
    Run {
        mode: mode_at(j)->0,
        image: text_at(j, "image"@),
        cmd: text_at(j, "cmd"@)->0,
        images: strings_at(j, "images"@),
        env: env_at(j),
    }
}

pub open spec fn small(n: Option<u64>) -> Option<u16> {
    match n {
        Some(x) => Some(x as u16),
        None => None,
    }
}

pub open spec fn medium(n: Option<u64>) -> Option<u32> {
    match n {
        Some(x) => Some(x as u32),
        None => None,
    }
}

pub open spec fn resources_of(j: JsonView) -> Resources {
    Resources {
        cores: small(uint_at(j, "cores"@)),
        ram_gb: small(uint_at(j, "ram_gb"@)),
        disk_gb: medium(uint_at(j, "disk_gb"@)),
    }
}

/// The part of a guest under a name; nothing where it is null.
pub open spec fn part_of(j: JsonView, key: Seq<char>) -> Option<JsonView> {
    match member(j, key) {
        Some(JsonView::Object(m)) => Some(JsonView::Object(m)),
        _ => None,
    }
}

pub open spec fn guest_of(j: JsonView) -> GuestView {
    Guest {
        name: text_at(j, "name"@)->0,
        mode: mode_at(j),
        build: match part_of(j, "build"@) {
            Some(b) => Some(build_of(b)),
            None => None,
        },
        run: run_of(part_of(j, "run"@)->0),
        resources: match part_of(j, "resources"@) {
            Some(r) => resources_of(r),
            None => Resources { cores: None, ram_gb: None, disk_gb: None },
        },
    }
}

pub open spec fn guests_of(j: Seq<JsonView>) -> Seq<GuestView> {
    j.map_values(|g: JsonView| guest_of(g))
}

pub open spec fn profile_of(j: JsonView) -> ProfileView {
    Profile {
        ttl: text_at(j, "ttl"@),
        warm_cache: match member(j, "warm_cache"@) {
            Some(JsonView::Bool(b)) => Some(b),
            _ => None,
        },
        env: env_at(j),
    }
}

pub open spec fn profiles_of(m: Seq<(Seq<char>, JsonView)>) -> Seq<(Seq<char>, ProfileView)>
    decreases m.len(),
{
    if m.len() == 0 {
        Seq::empty()
    } else {
        place(profiles_of(m.drop_last()), m.last().0, profile_of(m.last().1))
    }
}

pub open spec fn profiles_at(doc: JsonView) -> Seq<(Seq<char>, ProfileView)> {
    match member(doc, "profiles"@) {
        Some(p) => match members_in(p) {
            Some(m) => profiles_of(m),
            None => Seq::empty(),
        },
        None => Seq::empty(),
    }
}

/// The strings in the list under one name in the table under another.
pub open spec fn nested(doc: JsonView, table: Seq<char>, key: Seq<char>) -> Seq<Seq<char>> {
    match member(doc, table) {
        Some(t) => strings_at(t, key),
        None => Seq::empty(),
    }
}

// ---------------------------------------------------------------------------
// What the typed model cannot represent
// ---------------------------------------------------------------------------

pub open spec fn part_problem(j: JsonView, key: Seq<char>, fields: Seq<Field>) -> Option<Seq<char>> {
    match part_of(j, key) {
        Some(p) => table_problem(members_in(p)->0, fields, false),
        None => None,
    }
}

pub open spec fn guest_problem(j: JsonView) -> Option<Seq<char>> {
    match members_in(j) {
        None => Some(wrong_type(j, "struct Guest"@)),
        Some(m) => if table_problem(m, guest_fields(), false) is Some {
            table_problem(m, guest_fields(), false)
        } else if part_problem(j, "build"@, build_fields()) is Some {
            part_problem(j, "build"@, build_fields())
        } else if part_problem(j, "run"@, run_fields()) is Some {
            part_problem(j, "run"@, run_fields())
        } else {
            part_problem(j, "resources"@, resource_fields())
        },
    }
}

pub open spec fn first_guest_problem(g: Seq<JsonView>) -> Option<Seq<char>>
    decreases g.len(),
{
    if g.len() == 0 {
        None
    } else {
        match guest_problem(g[0]) {
            Some(p) => Some(p),
            None => first_guest_problem(g.skip(1)),
        }
    }
}

pub open spec fn profile_problem(j: JsonView) -> Option<Seq<char>> {
    match members_in(j) {
        None => Some(wrong_type(j, "struct Profile"@)),
        Some(m) => table_problem(m, profile_fields(), false),
    }
}

pub open spec fn first_profile_problem(m: Seq<(Seq<char>, JsonView)>) -> Option<Seq<char>>
    decreases m.len(),
{
    if m.len() == 0 {
        None
    } else {
        match profile_problem(m[0].1) {
            Some(p) => Some(p),
            None => first_profile_problem(m.skip(1)),
        }
    }
}

pub open spec fn profiles_problem(doc: JsonView) -> Option<Seq<char>> {
    match member(doc, "profiles"@) {
        None => None,
        Some(p) => match members_in(p) {
            None => Some(wrong_type(p, "a map"@)),
            Some(m) => first_profile_problem(m),
        },
    }
}

/// Why a document that satisfies the schema is no manifest, if it is none.
pub open spec fn model_problem(doc: JsonView, origin: Seq<char>) -> Option<ErrorView> {
    match all_resolved(doc) {
        Err(p) => Some(Error::Invalid { path: origin, problems: seq![p] }),
        Ok(guests) => match first_guest_problem(guests) {
            Some(p) => Some(Error::Internal(p)),
            None => if text_at(doc, "project"@) is None {
                Some(Error::Internal("no project after validation"@))
            } else {
                match profiles_problem(doc) {
                    Some(p) => Some(Error::Internal(p)),
                    None => None,
                }
            },
        },
    }
}

/// Why a document is no manifest, if it is none.
///
/// `words` are those in which a schema that does not compile is refused.
pub open spec fn document_problem(
    doc: JsonView,
    origin: Seq<char>,
    words: Seq<char>,
) -> Option<ErrorView> {
    match problems(doc, words) {
        Err(e) => Some(e),
        Ok(found) => if found.len() > 0 {
            Some(Error::Invalid { path: origin, problems: found })
        } else {
            model_problem(doc, origin)
        },
    }
}

/// The document that a text holds, with the names in its tables in order.
pub open spec fn document(text: Seq<char>, origin: Seq<char>) -> Result<JsonView, Seq<char>> {
    match (if is_toml(origin) {
        toml_reads(text)
    } else {
        yaml_reads(text)
    }) {
        Ok(j) => Ok(tidied(j)),
        Err(m) => Err(m),
    }
}

/// Why a text is no manifest, if it is none.
pub open spec fn refusal(
    text: Seq<char>,
    origin: Seq<char>,
    words: Seq<char>,
) -> Option<ErrorView> {
    match document(text, origin) {
        Err(message) => Some(Error::Parse { path: origin, message }),
        Ok(doc) => document_problem(doc, origin, words),
    }
}

/// The manifest says what the document says, with its guests resolved.
pub open spec fn says(m: Manifest, doc: JsonView) -> bool {
    &&& m.project@ == text_at(doc, "project"@)->0
    &&& guest_views(m.guests@) == guests_of(all_resolved(doc)->Ok_0)
    &&& texts(m.reset@) == nested(doc, "reset"@, "datasets"@)
    &&& texts(m.sync_exclude@) == nested(doc, "sync"@, "exclude"@)
    &&& profile_views(m.profiles@) == profiles_at(doc)
}

// ---------------------------------------------------------------------------
// Reading
// ---------------------------------------------------------------------------

fn opt_text(j: &Json, key: &str) -> (r: Option<String>)
    ensures
        maybe(r) == text_at(j@, key@),
{
    match j.get_text(key) {
        Some(s) => Some(s.clone()),
        None => None,
    }
}

fn read_mode(j: &Json) -> (r: Option<Exec>)
    ensures
        r == mode_at(j@),
{
    match j.get_text("exec") {
        Some(s) => if same(s.as_str(), "container") {
            Some(Exec::Container)
        } else {
            Some(Exec::Host)
        },
        None => None,
    }
}

fn read_strings(j: &Json, key: &str) -> (r: Vec<String>)
    ensures
        texts(r@) == strings_at(j@, key@),
{
    match j.get(key) {
        Some(v) => match v.as_items() {
            Some(items) => {
                return strings_of(items);
            },
            None => {},
        },
        None => {},
    }
    let none: Vec<String> = Vec::new();
    assert(texts(none@) =~= Seq::empty());
    none
}

fn read_env(j: &Json) -> (r: Dict<String>)
    ensures
        text_pairs(r@) == env_at(j@),
{
    let mut d: Dict<String> = Dict::new();
    assert(text_pairs(d@) =~= Seq::empty());
    match j.get("env") {
        Some(v) => match v.as_members() {
            Some(m) => {
                let ghost all = members_view(m@);
                proof {
                    lemma_members(m@);
                }
                let mut i: usize = 0;
                assert(all.take(0) =~= Seq::empty());
                while i < m.len()
                    invariant
                        i <= m@.len(),
                        all.len() == m@.len(),
                        forall|k: int|
                            0 <= k < m@.len() ==> #[trigger] all[k] == (m@[k].0@, m@[k].1@),
                        text_pairs(d@) == env_of(all.take(i as int)),
                    decreases m@.len() - i,
                {
                    assert(all.take(i + 1).drop_last() =~= all.take(i as int));
                    assert(all.take(i + 1).last() == all[i as int]);
                    match m[i].1.as_text() {
                        Some(s) => {
                            let t = s.clone();
                            proof {
                                lemma_mapped_place(d@, |s: String| s@, m@[i as int].0@, t);
                            }
                            d.insert(m[i].0.clone(), t);
                        },
                        None => {},
                    }
                    i += 1;
                }
                assert(all.take(m@.len() as int) =~= all);
            },
            None => {},
        },
        None => {},
    }
    d
}

fn read_part<'a>(j: &'a Json, key: &str) -> (r: Option<&'a Json>)
    ensures
        match r {
            Some(p) => part_of(j@, key@) == Some(p@),
            None => part_of(j@, key@) is None,
        },
{
    match j.get(key) {
        Some(p) => match p {
            Json::Object(_) => Some(p),
            _ => None,
        },
        None => None,
    }
}

fn check_part(j: &Json, key: &str, fields: &Vec<Field>) -> (r: Option<String>)
    ensures
        seen(r) == part_problem(j@, key@, fields@),
{
    match read_part(j, key) {
        Some(p) => match p.as_members() {
            Some(m) => check_table(m, fields, false),
            None => None,
        },
        None => None,
    }
}

fn check_guest(j: &Json) -> (r: Option<String>)
    ensures
        seen(r) == guest_problem(j@),
{
    match j.as_members() {
        None => Some(wrong(j, "struct Guest")),
        Some(m) => match check_table(m, &guest_field_list(), false) {
            Some(p) => Some(p),
            None => match check_part(j, "build", &build_field_list()) {
                Some(p) => Some(p),
                None => match check_part(j, "run", &run_field_list()) {
                    Some(p) => Some(p),
                    None => check_part(j, "resources", &resource_field_list()),
                },
            },
        },
    }
}

fn read_build(j: &Json) -> (r: Build)
    requires
        members_in(j@) is Some,
        table_problem(members_in(j@)->0, build_fields(), false) is None,
    ensures
        r@ == build_of(j@),
{
    proof {
        lemma_distinct_fields();
        lemma_field(members_in(j@)->0, build_fields(), false, 0);
        lemma_field(members_in(j@)->0, build_fields(), false, 2);
    }
    let mode = match read_mode(j) {
        Some(m) => m,
        None => Exec::Host,
    };
    let cmd = match opt_text(j, "cmd") {
        Some(c) => c,
        None => String::new(),
    };
    Build { mode, image: opt_text(j, "image"), cmd, cache: read_strings(j, "cache"), env: read_env(j) }
}

fn read_run(j: &Json) -> (r: Run)
    requires
        members_in(j@) is Some,
        table_problem(members_in(j@)->0, run_fields(), false) is None,
    ensures
        r@ == run_of(j@),
{
    proof {
        lemma_distinct_fields();
        lemma_field(members_in(j@)->0, run_fields(), false, 0);
        lemma_field(members_in(j@)->0, run_fields(), false, 2);
    }
    let mode = match read_mode(j) {
        Some(m) => m,
        None => Exec::Host,
    };
    let cmd = match opt_text(j, "cmd") {
        Some(c) => c,
        None => String::new(),
    };
    Run { mode, image: opt_text(j, "image"), cmd, images: read_strings(j, "images"), env: read_env(j) }
}

fn read_resources(j: &Json) -> (r: Resources)
    ensures
        r == resources_of(j@),
{
    Resources {
        cores: match j.get_uint("cores") {
            Some(n) => Some(n as u16),
            None => None,
        },
        ram_gb: match j.get_uint("ram_gb") {
            Some(n) => Some(n as u16),
            None => None,
        },
        disk_gb: match j.get_uint("disk_gb") {
            Some(n) => Some(n as u32),
            None => None,
        },
    }
}

fn read_guest(j: &Json) -> (r: Guest)
    requires
        guest_problem(j@) is None,
    ensures
        r@ == guest_of(j@),
{
    proof {
        lemma_distinct_fields();
        lemma_field(members_in(j@)->0, guest_fields(), false, 0);
        lemma_field(members_in(j@)->0, guest_fields(), false, 3);
    }
    let name = match opt_text(j, "name") {
        Some(n) => n,
        None => String::new(),
    };
    let build = match read_part(j, "build") {
        Some(b) => Some(read_build(b)),
        None => None,
    };
    let run = match read_part(j, "run") {
        Some(r) => read_run(r),
        None => {
            assert(false);
            Run {
                mode: Exec::Host,
                image: None,
                cmd: String::new(),
                images: Vec::new(),
                env: Dict::new(),
            }
        },
    };
    let resources = match read_part(j, "resources") {
        Some(r) => read_resources(r),
        None => Resources { cores: None, ram_gb: None, disk_gb: None },
    };
    Guest { name, mode: read_mode(j), build, run, resources }
}

fn read_guests(j: &Vec<Json>) -> (r: Result<Vec<Guest>, String>)
    ensures
        match r {
            Ok(g) => first_guest_problem(items_view(j@)) is None && guest_views(g@) == guests_of(
                items_view(j@),
            ),
            Err(m) => first_guest_problem(items_view(j@)) == Some(m@),
        },
{
    let ghost all = items_view(j@);
    proof {
        lemma_items(j@);
        assert(all.skip(0) =~= all);
    }
    let mut out: Vec<Guest> = Vec::new();
    let mut i: usize = 0;
    while i < j.len()
        invariant
            i <= j@.len(),
            out@.len() == i,
            all == items_view(j@),
            all.len() == j@.len(),
            forall|k: int| 0 <= k < j@.len() ==> #[trigger] all[k] == j@[k]@,
            first_guest_problem(all) == first_guest_problem(all.skip(i as int)),
            forall|k: int| 0 <= k < i ==> (#[trigger] out@[k])@ == guest_of(all[k]),
        decreases j@.len() - i,
    {
        assert(all.skip(i as int)[0] == all[i as int]);
        match check_guest(&j[i]) {
            Some(m) => {
                return Err(m);
            },
            None => {},
        }
        out.push(read_guest(&j[i]));
        assert(all.skip(i as int).skip(1) =~= all.skip(i + 1));
        i += 1;
    }
    assert(guest_views(out@) =~= guests_of(all));
    Ok(out)
}

fn check_profile(j: &Json) -> (r: Option<String>)
    ensures
        seen(r) == profile_problem(j@),
{
    match j.as_members() {
        None => Some(wrong(j, "struct Profile")),
        Some(m) => check_table(m, &profile_field_list(), false),
    }
}

fn read_profile(j: &Json) -> (r: Profile)
    ensures
        r@ == profile_of(j@),
{
    let warm_cache = match j.get("warm_cache") {
        Some(Json::Bool(b)) => Some(*b),
        _ => None,
    };
    Profile { ttl: opt_text(j, "ttl"), warm_cache, env: read_env(j) }
}

fn read_profiles(doc: &Json) -> (r: Result<Dict<Profile>, String>)
    ensures
        match r {
            Ok(d) => profiles_problem(doc@) is None && profile_views(d@) == profiles_at(doc@),
            Err(m) => profiles_problem(doc@) == Some(m@),
        },
{
    let mut d: Dict<Profile> = Dict::new();
    assert(profile_views(d@) =~= Seq::empty());
    let p = match doc.get("profiles") {
        None => {
            return Ok(d);
        },
        Some(p) => p,
    };
    let m = match p.as_members() {
        None => {
            return Err(wrong(p, "a map"));
        },
        Some(m) => m,
    };
    let ghost all = members_view(m@);
    proof {
        lemma_members(m@);
        assert(all.skip(0) =~= all);
        assert(all.take(0) =~= Seq::empty());
    }
    let mut i: usize = 0;
    while i < m.len()
        invariant
            i <= m@.len(),
            all == members_view(m@),
            all.len() == m@.len(),
            forall|k: int| 0 <= k < m@.len() ==> #[trigger] all[k] == (m@[k].0@, m@[k].1@),
            profiles_problem(doc@) == first_profile_problem(all),
            first_profile_problem(all) == first_profile_problem(all.skip(i as int)),
            profile_views(d@) == profiles_of(all.take(i as int)),
        decreases m@.len() - i,
    {
        assert(all.skip(i as int)[0] == all[i as int]);
        match check_profile(&m[i].1) {
            Some(e) => {
                return Err(e);
            },
            None => {},
        }
        assert(all.take(i + 1).drop_last() =~= all.take(i as int));
        assert(all.take(i + 1).last() == all[i as int]);
        let profile = read_profile(&m[i].1);
        proof {
            lemma_mapped_place(d@, |x: Profile| x@, m@[i as int].0@, profile);
        }
        d.insert(m[i].0.clone(), profile);
        assert(all.skip(i as int).skip(1) =~= all.skip(i + 1));
        i += 1;
    }
    assert(all.take(m@.len() as int) =~= all);
    Ok(d)
}

fn read_nested(doc: &Json, table: &str, key: &str) -> (r: Vec<String>)
    ensures
        texts(r@) == nested(doc@, table@, key@),
{
    match doc.get(table) {
        Some(t) => read_strings(t, key),
        None => {
            let none: Vec<String> = Vec::new();
            assert(texts(none@) =~= Seq::empty());
            none
        },
    }
}

/// The manifest that a document holds which satisfies the schema.
pub fn from_valid(doc: &Json, origin: &str) -> (r: Result<Manifest, Error>)
    ensures
        match r {
            Ok(m) => model_problem(doc@, origin@) is None && says(m, doc@),
            Err(e) => model_problem(doc@, origin@) == Some(e@),
        },
{
    let resolved = match resolve_guests(doc) {
        Ok(g) => g,
        Err(p) => {
            let ghost t = p@;
            let problems = vec![p];
            assert(texts(problems@) =~= seq![t]);
            return Err(Error::Invalid { path: origin.to_string(), problems });
        },
    };
    let guests = match read_guests(&resolved) {
        Ok(g) => g,
        Err(m) => {
            return Err(Error::Internal(m));
        },
    };
    let project = match opt_text(doc, "project") {
        Some(p) => p,
        None => {
            return Err(Error::Internal("no project after validation".to_string()));
        },
    };
    let profiles = match read_profiles(doc) {
        Ok(p) => p,
        Err(m) => {
            return Err(Error::Internal(m));
        },
    };
    Ok(
        Manifest {
            project,
            guests,
            reset: read_nested(doc, "reset", "datasets"),
            sync_exclude: read_nested(doc, "sync", "exclude"),
            profiles,
        },
    )
}

/// The manifest that a document holds.
pub fn from_document(doc: &Json, origin: &str) -> (r: Result<Manifest, Error>)
    requires
        tidy(doc@),
    ensures
        exists|words: Seq<char>|
            match r {
                Ok(m) => #[trigger] document_problem(doc@, origin@, words) is None && says(m, doc@),
                Err(e) => document_problem(doc@, origin@, words) == Some(e@),
            },
{
    let judged = validate(doc);
    let ghost words = choose|words: Seq<char>|
        problems_view(judged) == #[trigger] problems(doc@, words);
    assert(judged is Err ==> document_problem(doc@, origin@, words) is Some);
    match judged {
        Err(e) => Err(e),
        Ok(problems) => {
            if problems.len() > 0 {
                Err(Error::Invalid { path: origin.to_string(), problems })
            } else {
                from_valid(doc, origin)
            }
        },
    }
}

fn read_document(text: &str, origin: &str) -> (r: Result<Json, String>)
    ensures
        match r {
            Ok(j) => document(text@, origin@) == Ok::<_, Seq<char>>(j@) && tidy(j@),
            Err(m) => document(text@, origin@) == Err::<JsonView, _>(m@),
        },
{
    let read = if holds_toml(origin) {
        read_toml(text)
    } else {
        read_yaml(text)
    };
    match read {
        Ok(j) => {
            proof {
                lemma_tidied(j@);
            }
            Ok(j.tidy_up())
        },
        Err(m) => Err(m),
    }
}

/// Read and validate a manifest, returning it with guests resolved. `origin`
/// names it in errors; a name that ends in `.toml` makes it TOML, and any other
/// YAML.
pub fn from_str(text: &str, origin: &str) -> (r: Result<Manifest, Error>)
    ensures
        exists|words: Seq<char>|
            match r {
                Ok(m) => #[trigger] refusal(text@, origin@, words) is None && document(
                    text@,
                    origin@,
                ) is Ok && says(m, document(text@, origin@)->Ok_0),
                Err(e) => refusal(text@, origin@, words) == Some(e@),
            },
{
    match read_document(text, origin) {
        Err(message) => {
            assert(refusal(text@, origin@, Seq::empty()) is Some);
            Err(Error::Parse { path: origin.to_string(), message })
        },
        Ok(doc) => {
            let r = from_document(&doc, origin);
            proof {
                let words = choose|words: Seq<char>|
                    match r {
                        Ok(m) => #[trigger] document_problem(doc@, origin@, words) is None && says(
                            m,
                            doc@,
                        ),
                        Err(e) => document_problem(doc@, origin@, words) == Some(e@),
                    };
                assert(refusal(text@, origin@, words) == document_problem(doc@, origin@, words));
            }
            r
        },
    }
}

// ---------------------------------------------------------------------------
// Checking manifests from the command line
// ---------------------------------------------------------------------------

#[verifier::ext_equal]
pub enum Outcome<S = String, L = Vec<String>> {
    /// Valid, carrying the number of guests that were resolved and checked.
    Valid(usize),
    Invalid(L),
    Error(S),
}

pub type OutcomeView = Outcome<Seq<char>, Seq<Seq<char>>>;

impl Outcome<String, Vec<String>> {
    pub open spec fn view(&self) -> OutcomeView {
        match self {
            Outcome::Valid(n) => Outcome::Valid(*n),
            Outcome::Invalid(p) => Outcome::Invalid(texts(p@)),
            Outcome::Error(m) => Outcome::Error(m@),
        }
    }
}

pub open spec fn plural_of(n: nat) -> Seq<char> {
    if n == 1 {
        ""@
    } else {
        "s"@
    }
}

pub fn plural(n: usize) -> (r: &'static str)
    ensures
        r@ == plural_of(n as nat),
{
    if n == 1 {
        ""
    } else {
        "s"
    }
}

/// What is to be said of a manifest that holds a document.
pub open spec fn judged(doc: JsonView, words: Seq<char>) -> OutcomeView {
    match problems(doc, words) {
        Err(e) => Outcome::Error(crate::manifest::manifest_error_text(e)),
        Ok(found) => if found.len() > 0 {
            Outcome::Invalid(found)
        } else {
            match all_resolved(doc) {
                Err(p) => Outcome::Error(p),
                Ok(guests) => Outcome::Valid(guests.len() as usize),
            }
        },
    }
}

/// What is to be said of a manifest with a text, or that could not be read.
pub open spec fn verdict(
    text: Result<Seq<char>, Seq<char>>,
    path: Seq<char>,
    words: Seq<char>,
) -> OutcomeView {
    match text {
        Err(e) => Outcome::Error("cannot read: "@ + e),
        Ok(t) => match document(t, path) {
            Err(e) => Outcome::Error(
                "cannot parse as "@ + crate::manifest::written_in(path) + ": "@ + e,
            ),
            Ok(doc) => judged(doc, words),
        },
    }
}

pub open spec fn given(text: Result<String, String>) -> Result<Seq<char>, Seq<char>> {
    match text {
        Ok(t) => Ok(t@),
        Err(e) => Err(e@),
    }
}

/// Check a manifest, given what reading its file gave.
pub fn check(text: &Result<String, String>, path: &str) -> (r: Outcome)
    ensures
        exists|words: Seq<char>|
            r@ == #[trigger] verdict(given(*text), path@, words),
{
    assert((given(*text) is Err || document(given(*text)->Ok_0, path@) is Err) ==> verdict(
        given(*text),
        path@,
        Seq::empty(),
    ) is Error);
    let t = match text {
        Err(e) => {
            return Outcome::Error("cannot read: ".to_string().concat(e.as_str()));
        },
        Ok(t) => t,
    };
    let doc = match read_document(t.as_str(), path) {
        Err(e) => {
            return Outcome::Error(
                "cannot parse as ".to_string().concat(
                    if holds_toml(path) {
                        "TOML"
                    } else {
                        "YAML"
                    },
                ).concat(": ").concat(e.as_str()),
            );
        },
        Ok(d) => d,
    };
    let found = validate(&doc);
    let ghost words = choose|words: Seq<char>|
        problems_view(found) == #[trigger] problems(doc@, words);
    assert(verdict(given(*text), path@, words) == judged(doc@, words));
    match found {
        Err(e) => Outcome::Error(e.message()),
        Ok(found) => {
            if found.len() > 0 {
                return Outcome::Invalid(found);
            }
            match resolve_guests(&doc) {
                Err(p) => Outcome::Error(p),
                Ok(g) => {
                    proof {
                        lemma_items(g@);
                    }
                    Outcome::Valid(g.len())
                },
            }
        },
    }
}

/// What to print of an outcome.
pub open spec fn outcome_lines(path: Seq<char>, o: OutcomeView) -> Seq<Seq<char>> {
    match o {
        Outcome::Valid(n) => seq![
            "ok    "@ + path + "  ("@ + dec(n as nat) + " guest"@ + plural_of(n as nat) + ")"@,
        ],
        Outcome::Invalid(p) => seq!["FAIL  "@ + path] + p.map_values(
            |x: Seq<char>| "        "@ + x,
        ),
        Outcome::Error(m) => seq!["ERROR "@ + path, "        "@ + m],
    }
}

/// What to print of an outcome.
pub fn report(path: &str, o: &Outcome) -> (r: Vec<String>)
    ensures
        texts(r@) == outcome_lines(path@, o@),
{
    match o {
        Outcome::Valid(n) => {
            let line = "ok    ".to_string().concat(path).concat("  (").concat(
                decimal(*n as u64).as_str(),
            ).concat(" guest").concat(plural(*n)).concat(")");
            let ghost t = line@;
            let v = vec![line];
            assert(texts(v@) =~= seq![t]);
            v
        },
        Outcome::Invalid(p) => {
            let head = "FAIL  ".to_string().concat(path);
            let ghost h = head@;
            let mut v = vec![head];
            let ghost all = texts(p@);
            let mut i: usize = 0;
            assert(texts(v@) =~= seq![h] + all.take(0).map_values(|x: Seq<char>| "        "@ + x));
            while i < p.len()
                invariant
                    i <= p@.len(),
                    all == texts(p@),
                    texts(v@) == seq![h] + all.take(i as int).map_values(
                        |x: Seq<char>| "        "@ + x,
                    ),
                decreases p@.len() - i,
            {
                let line = "        ".to_string().concat(p[i].as_str());
                let ghost was = v@;
                v.push(line);
                proof {
                    assert(texts(v@) =~= texts(was).push(line@));
                    assert(all.take(i + 1) =~= all.take(i as int).push(all[i as int]));
                    assert(texts(v@) =~= seq![h] + all.take(i + 1).map_values(
                        |x: Seq<char>| "        "@ + x,
                    ));
                }
                i += 1;
            }
            assert(all.take(p@.len() as int) =~= all);
            v
        },
        Outcome::Error(m) => {
            let head = "ERROR ".to_string().concat(path);
            let line = "        ".to_string().concat(m.as_str());
            let ghost (a, b) = (head@, line@);
            let v = vec![head, line];
            assert(texts(v@) =~= seq![a, b]);
            v
        },
    }
}

/// How the command exits: 2 if anything could not be judged, 1 if anything is
/// invalid, and 0 otherwise.
pub open spec fn exit_of(o: Seq<OutcomeView>) -> u8 {
    if exists|i: int| 0 <= i < o.len() && (#[trigger] o[i]) is Error {
        2
    } else if exists|i: int| 0 <= i < o.len() && (#[trigger] o[i]) is Invalid {
        1
    } else {
        0
    }
}

pub open spec fn outcome_views(o: Seq<Outcome>) -> Seq<OutcomeView> {
    o.map_values(|x: Outcome| x@)
}

pub fn exit_code(outcomes: &Vec<Outcome>) -> (r: u8)
    ensures
        r == exit_of(outcome_views(outcomes@)),
{
    let ghost all = outcome_views(outcomes@);
    let mut invalid: bool = false;
    let mut errored: bool = false;
    let mut i: usize = 0;
    while i < outcomes.len()
        invariant
            i <= outcomes@.len(),
            all == outcome_views(outcomes@),
            errored == exists|k: int| 0 <= k < i && (#[trigger] all[k]) is Error,
            invalid == exists|k: int| 0 <= k < i && (#[trigger] all[k]) is Invalid,
        decreases outcomes@.len() - i,
    {
        assert(all[i as int] == outcomes@[i as int]@);
        match &outcomes[i] {
            Outcome::Error(_) => {
                errored = true;
                assert(all[i as int] is Error);
            },
            Outcome::Invalid(_) => {
                invalid = true;
                assert(all[i as int] is Invalid);
            },
            Outcome::Valid(_) => {},
        }
        i += 1;
    }
    if errored {
        2
    } else if invalid {
        1
    } else {
        0
    }
}

/// The manifest that a verb reads when none is named: the one that is there,
/// and `.reaper.toml` before `.reaper.yaml`.
pub fn default_manifest(toml_present: bool, yaml_present: bool) -> (r: &'static str)
    ensures
        r@ == (if !toml_present && yaml_present {
            ".reaper.yaml"@
        } else {
            ".reaper.toml"@
        }),
{
    if !toml_present && yaml_present {
        ".reaper.yaml"
    } else {
        ".reaper.toml"
    }
}

// ---------------------------------------------------------------------------
// What a manifest promises
// ---------------------------------------------------------------------------

/// Each part of a guest is what stands under its own name in the document, once
/// the defaults are merged in: what the run says never comes from the build, nor
/// one resource from another.
pub proof fn law_a_guest_is_what_is_written(m: Manifest, doc: JsonView, k: int, g: JsonView)
    requires
        says(m, doc),
        all_resolved(doc) matches Ok(v) && 0 <= k < v.len() && v[k] == g,
    ensures
        k < m.guests@.len(),
        ({
            let guest = m.guests@[k];
            &&& member(g, "name"@) matches Some(JsonView::Str(s)) ==> guest.name@ == s
            &&& member(g, "run"@) matches Some(JsonView::Object(t)) ==> {
                let run = JsonView::Object(t);
                &&& maybe(guest.run.image) == text_at(run, "image"@)
                &&& member(run, "cmd"@) matches Some(JsonView::Str(s)) ==> guest.run.cmd@ == s
                &&& member(run, "exec"@) matches Some(JsonView::Str(s)) ==> guest.run.mode == (
                if s == "container"@ {
                    Exec::Container
                } else {
                    Exec::Host
                })
                &&& texts(guest.run.images@) == strings_at(run, "images"@)
            }
            &&& member(g, "build"@) matches Some(JsonView::Object(t)) ==> {
                let build = JsonView::Object(t);
                &&& guest.build is Some
                &&& maybe(guest.build->0.image) == text_at(build, "image"@)
                &&& member(build, "cmd"@) matches Some(JsonView::Str(s)) ==> guest.build->0.cmd@
                    == s
                &&& member(build, "exec"@) matches Some(JsonView::Str(s)) ==> guest.build->0.mode
                    == (if s == "container"@ {
                    Exec::Container
                } else {
                    Exec::Host
                })
                &&& texts(guest.build->0.cache@) == strings_at(build, "cache"@)
            }
            &&& member(g, "build"@) is None ==> guest.build is None
            &&& member(g, "resources"@) matches Some(JsonView::Object(t)) ==> {
                let size = JsonView::Object(t);
                &&& guest.resources.cores == small(uint_at(size, "cores"@))
                &&& guest.resources.ram_gb == small(uint_at(size, "ram_gb"@))
                &&& guest.resources.disk_gb == medium(uint_at(size, "disk_gb"@))
            }
        }),
{
    let v = all_resolved(doc)->Ok_0;
    assert(guests_of(v).len() == v.len());
    assert(guest_views(m.guests@).len() == m.guests@.len());
    assert(guests_of(v)[k] == guest_of(g));
    assert(guest_views(m.guests@)[k] == m.guests@[k]@);
    assert(m.guests@[k]@ == guest_of(g));
}

}
