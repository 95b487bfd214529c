//! Reading and validating a tenant manifest.
//!
//! The manifest is the entire integration surface between a project and the
//! harness, so this module is deliberately the only place that knows its shape.
//!
//! Validation is two passes:
//!
//! 1. The document as written, against the root schema. Catches unknown keys,
//!    unpinned image references, malformed names.
//!
//! 2. Each guest *after resolution*, against `$defs/resolvedGuest`. A manifest
//!    may reasonably declare `exec` at the top level and `build.image` inside
//!    one guest's overrides, so neither key alone tells you whether the pair is
//!    coherent. Only the merged form does.
//!
//! Callers get [`Manifest`], whose guests are already resolved.
use vstd::prelude::*;
use vstd::string::*;

use crate::config::{indent, indented};
use crate::dict::{mapped, place, text_pairs, Dict};
use crate::json::{
    fit, items_view, json_reads, lemma_items, lemma_tidied, lemma_tidy_fit, member, members_in,
    members_view, read_json, set_member, text_at, tidied, tidy, Json, JsonView,
};
use crate::manifest::resolve::{all_resolved, resolve_guests};
use crate::manifest::schema::{
    complaint, finding_views, findings, schema_compiles, schema_findings, SCHEMA,
};
use crate::paths::maybe;
use crate::text::{same, texts};

pub mod read;
pub mod resolve;
pub mod schema;

verus! {

// ---------------------------------------------------------------------------
// The model
// ---------------------------------------------------------------------------

#[derive(Debug)]
pub enum Error<S = String, L = Vec<String>> {
    /// The file could not be read.
    Read { path: S, source: S },
    /// The file is not parseable, or is not expressible as JSON.
    Parse { path: S, message: S },
    /// The manifest is well-formed but does not satisfy the schema. Every
    /// problem is reported, not just the first: a caller fixing one at a time
    /// learns less than a caller shown all of them.
    Invalid { path: S, problems: L },
    /// The embedded schema is broken, or resolution produced something the
    /// typed model cannot represent. Either is a defect in this library rather
    /// than anything the caller did, and is reported separately for that
    /// reason.
    Internal(S),
}

pub type ErrorView = Error<Seq<char>, Seq<Seq<char>>>;

/// The format that a manifest is written in, by the name of its file.
pub open spec fn written_in(origin: Seq<char>) -> Seq<char> {
    if is_toml(origin) {
        "TOML"@
    } else {
        "YAML"@
    }
}

/// A file whose name ends in `.toml` holds TOML; any other holds YAML.
pub open spec fn is_toml(origin: Seq<char>) -> bool {
    origin.len() >= 5 && origin.skip(origin.len() - 5) == ".toml"@
}

pub open spec fn manifest_error_text(e: ErrorView) -> Seq<char> {
    match e {
        Error::Read { path, source } => path + ": cannot read: "@ + source,
        Error::Parse { path, message } => path + ": cannot parse as "@ + written_in(path) + ": "@
            + message,
        Error::Invalid { path, problems } => path + ": not a valid manifest"@ + indented(problems),
        Error::Internal(m) => "internal error: "@ + m,
    }
}

impl Error<String, Vec<String>> {
    pub open spec fn view(&self) -> ErrorView {
        match self {
            Error::Read { path, source } => Error::Read { path: path@, source: source@ },
            Error::Parse { path, message } => Error::Parse { path: path@, message: message@ },
            Error::Invalid { path, problems } => Error::Invalid {
                path: path@,
                problems: texts(problems@),
            },
            Error::Internal(m) => Error::Internal(m@),
        }
    }

    pub fn message(&self) -> (r: String)
        ensures
            r@ == manifest_error_text(self@),
    {
        match self {
            Error::Read { path, source } => path.clone().concat(": cannot read: ").concat(
                source.as_str(),
            ),
            Error::Parse { path, message } => path.clone().concat(": cannot parse as ").concat(
                if holds_toml(path.as_str()) {
                    "TOML"
                } else {
                    "YAML"
                },
            ).concat(": ").concat(message.as_str()),
            Error::Invalid { path, problems } => path.clone().concat(
                ": not a valid manifest",
            ).concat(indent(problems).as_str()),
            Error::Internal(m) => "internal error: ".to_string().concat(m.as_str()),
        }
    }
}

pub fn holds_toml(origin: &str) -> (r: bool)
    ensures
        r == is_toml(origin@),
{
    let v = crate::text::chars_of(origin);
    proof {
        reveal_strlit(".toml");
        assert(".toml"@.len() == 5);
    }
    if v.len() < 5 {
        return false;
    }
    let end = crate::text::part(&v, v.len() - 5, v.len());
    assert(end@ =~= origin@.skip(origin@.len() - 5));
    crate::text::same_chars(&end, &crate::text::chars_of(".toml"))
}

/// How a guest's commands are executed.
#[derive(Debug, Clone, Copy, PartialEq, Eq, Structural)]
pub enum Exec {
    /// In a digest-pinned toolchain image; the template stays generic.
    Container,
    /// Directly in the guest, with the toolchain supplied by the template.
    Host,
}

pub struct Build<S = String, L = Vec<String>, D = Dict<String>> {
    /// This verb's own mode if it declared one, otherwise the guest's.
    pub mode: Exec,
    /// Present exactly when `mode` is `Container`; the schema enforces both
    /// halves of that.
    pub image: Option<S>,
    pub cmd: S,
    /// The guest's caches. Declared here and mounted for every verb: a second
    /// list under `run` would be a key that exists to be forgotten.
    pub cache: L,
    pub env: D,
}

pub struct Run<S = String, L = Vec<String>, D = Dict<String>> {
    /// As [`Build::mode`].
    pub mode: Exec,
    /// Under container execution, `build.image` unless this verb named its own.
    pub image: Option<S>,
    /// Opaque. This library does not know what a stage, a journey or a seed is.
    pub cmd: S,
    /// May be empty: a project that runs no containers declares no images.
    pub images: L,
    pub env: D,
}

#[derive(Debug, Clone, Copy)]
pub struct Resources {
    pub cores: Option<u16>,
    pub ram_gb: Option<u16>,
    /// Size of the session's storage pool, in gibibytes. `None` defers to the
    /// site's default.
    pub disk_gb: Option<u32>,
}

/// One guest, with the top-level defaults already merged in.
pub struct Guest<S = String, L = Vec<String>, D = Dict<String>> {
    /// Resolved against the site registry by the caller. Free-form here: this
    /// library deliberately has no list of known operating systems.
    pub name: S,
    /// The guest's default mode, when one was stated. Every consumer reads the
    /// verbs' own resolved mode, which is where mode actually lives.
    pub mode: Option<Exec>,
    pub build: Option<Build<S, L, D>>,
    pub run: Run<S, L, D>,
    pub resources: Resources,
}

pub struct Profile<S = String, D = Dict<String>> {
    /// Duration string; the schema constrains the syntax. Interpreting it is
    /// the caller's job.
    pub ttl: Option<S>,
    pub warm_cache: Option<bool>,
    pub env: D,
}

pub struct Manifest {
    pub project: String,
    pub guests: Vec<Guest>,
    /// Dataset names `reset` rolls back. The schema restricts this to `state`.
    pub reset: Vec<String>,
    /// rsync patterns the tenant keeps out of the forward sync. The results
    /// directory is excluded whatever this says.
    pub sync_exclude: Vec<String>,
    pub profiles: Dict<Profile>,
}

/// Texts under names.
pub type Env = Seq<(Seq<char>, Seq<char>)>;

pub type BuildView = Build<Seq<char>, Seq<Seq<char>>, Env>;

pub type RunView = Run<Seq<char>, Seq<Seq<char>>, Env>;

pub type GuestView = Guest<Seq<char>, Seq<Seq<char>>, Env>;

pub type ProfileView = Profile<Seq<char>, Env>;

impl Build<String, Vec<String>, Dict<String>> {
    pub open spec fn view(&self) -> BuildView {
        Build {
            mode: self.mode,
            image: maybe(self.image),
            cmd: self.cmd@,
            cache: texts(self.cache@),
            env: text_pairs(self.env@),
        }
    }
}

impl Run<String, Vec<String>, Dict<String>> {
    pub open spec fn view(&self) -> RunView {
        Run {
            mode: self.mode,
            image: maybe(self.image),
            cmd: self.cmd@,
            images: texts(self.images@),
            env: text_pairs(self.env@),
        }
    }
}

pub open spec fn build_view(b: Option<Build>) -> Option<BuildView> {
    match b {
        Some(x) => Some(x@),
        None => None,
    }
}

impl Guest<String, Vec<String>, Dict<String>> {
    pub open spec fn view(&self) -> GuestView {
        Guest {
            name: self.name@,
            mode: self.mode,
            build: build_view(self.build),
            run: self.run@,
            resources: self.resources,
        }
    }
}

impl Profile<String, Dict<String>> {
    pub open spec fn view(&self) -> ProfileView {
        Profile {
            ttl: maybe(self.ttl),
            warm_cache: self.warm_cache,
            env: text_pairs(self.env@),
        }
    }
}

pub open spec fn guest_views(g: Seq<Guest>) -> Seq<GuestView> {
    g.map_values(|x: Guest| x@)
}

pub open spec fn profile_views(p: Seq<(Seq<char>, Profile)>) -> Seq<(Seq<char>, ProfileView)> {
    mapped(p, |x: Profile| x@)
}

/// The first guest with a name.
pub open spec fn guest_named(guests: Seq<Guest>, name: Seq<char>) -> Option<Guest>
    decreases guests.len(),
{
    if guests.len() == 0 {
        None
    } else if guests[0].name@ == name {
        Some(guests[0])
    } else {
        guest_named(guests.skip(1), name)
    }
}

impl Manifest {
    /// The guest with this name, if the manifest declares it.
    pub fn guest(&self, name: &str) -> (r: Option<&Guest>)
        ensures
            match r {
                Some(g) => guest_named(self.guests@, name@) == Some(*g),
                None => guest_named(self.guests@, name@) is None,
            },
    {
        let mut i: usize = 0;
        assert(self.guests@.skip(0) =~= self.guests@);
        while i < self.guests.len()
            invariant
                i <= self.guests@.len(),
                guest_named(self.guests@, name@) == guest_named(
                    self.guests@.skip(i as int),
                    name@,
                ),
            decreases self.guests@.len() - i,
        {
            assert(self.guests@.skip(i as int)[0] == self.guests@[i as int]);
            if same(self.guests[i].name.as_str(), name) {
                return Some(&self.guests[i]);
            }
            assert(self.guests@.skip(i as int).skip(1) =~= self.guests@.skip(i + 1));
            i += 1;
        }
        None
    }
}

// ---------------------------------------------------------------------------
// Problems
// ---------------------------------------------------------------------------

/// JSON Pointer paths read poorly when empty; name the document root instead.
pub open spec fn located(pointer: Seq<char>) -> Seq<char> {
    if pointer.len() == 0 {
        "(document root)"@
    } else {
        pointer
    }
}

pub fn location(pointer: &str) -> (r: String)
    ensures
        r@ == located(pointer@),
{
    if pointer.is_empty() {
        "(document root)".to_string()
    } else {
        pointer.to_string()
    }
}

/// The findings, each as a sentence that begins in the same way.
pub open spec fn sentences(start: Seq<char>, f: Seq<(Seq<char>, Seq<char>)>) -> Seq<Seq<char>> {
    f.map_values(|x: (Seq<char>, Seq<char>)| start + located(x.0) + ": "@ + x.1)
}

/// The schema whose root is one resolved guest. Rehosting `$defs` alongside a
/// root `$ref` keeps every internal reference resolvable without copying
/// definitions around.
pub open spec fn guest_schema(schema: JsonView) -> JsonView {
    let a = place(
        Seq::empty(),
        "$schema"@,
        JsonView::Str("https://json-schema.org/draft/2020-12/schema"@),
    );
    let b = place(a, "$ref"@, JsonView::Str("#/$defs/resolvedGuest"@));
    JsonView::Object(
        place(
            b,
            "$defs"@,
            match member(schema, "$defs"@) {
                Some(d) => d,
                None => JsonView::Null,
            },
        ),
    )
}

/// What is wrong with resolved guests.
pub open spec fn guest_problems(schema: JsonView, guests: Seq<JsonView>) -> Seq<Seq<char>>
    decreases guests.len(),
{
    if guests.len() == 0 {
        Seq::empty()
    } else {
        let g = guests.last();
        let name = match text_at(g, "name"@) {
            Some(n) => n,
            None => "<unnamed>"@,
        };
        guest_problems(schema, guests.drop_last()) + sentences(
            "guest "@ + name + ", once defaults are merged in: "@,
            schema_findings(schema, g),
        )
    }
}

/// Every schema problem with a document, in both passes, given the schema.
///
/// Pass two only runs when pass one is clean. Resolution assumes the document
/// is shaped the way the root schema says it is, and reporting resolution
/// fallout on top of the structural errors that caused it would bury the error
/// that matters.
///
/// `words` are those in which a schema that does not compile is refused.
pub open spec fn problems_under(schema: JsonView, doc: JsonView, words: Seq<char>) -> Result<
    Seq<Seq<char>>,
    ErrorView,
> {
    let first = sentences(Seq::empty(), schema_findings(schema, doc));
    if !schema_compiles(schema) {
        Err(Error::Internal("the embedded schema does not compile: "@ + words))
    } else if !schema_compiles(guest_schema(schema)) {
        Err(Error::Internal("the resolved-guest schema does not compile: "@ + words))
    } else if first.len() > 0 {
        Ok(first)
    } else {
        match all_resolved(doc) {
            Err(problem) => Ok(seq![problem]),
            Ok(guests) => Ok(guest_problems(guest_schema(schema), guests)),
        }
    }
}

/// Every schema problem with a document, in both passes.
pub open spec fn problems(doc: JsonView, words: Seq<char>) -> Result<Seq<Seq<char>>, ErrorView> {
    match json_reads(SCHEMA@) {
        Err(e) => Err(Error::Internal("the embedded schema is not valid JSON: "@ + e)),
        Ok(schema) => problems_under(tidied(schema), doc, words),
    }
}

/// Only a schema that does not compile leaves any words open: whether a document
/// can be judged at all, and what is wrong with one that can, is the same
/// whatever the words are.
pub proof fn law_words_are_open_only_where_the_schema_is_broken(
    doc: JsonView,
    one: Seq<char>,
    other: Seq<char>,
)
    ensures
        problems(doc, one) is Ok <==> problems(doc, other) is Ok,
        problems(doc, one) is Ok ==> problems(doc, one) == problems(doc, other),
        problems(doc, one) is Err ==> problems(doc, one)->Err_0 is Internal,
{
}

pub open spec fn problems_view(r: Result<Vec<String>, Error>) -> Result<Seq<Seq<char>>, ErrorView> {
    match r {
        Ok(v) => Ok(texts(v@)),
        Err(e) => Err(e@),
    }
}

fn add_sentences(out: &mut Vec<String>, start: &str, f: &Vec<(String, String)>)
    ensures
        texts(final(out)@) == texts(old(out)@) + sentences(start@, finding_views(f@)),
{
    let ghost before = texts(out@);
    let ghost all = finding_views(f@);
    let mut i: usize = 0;
    assert(texts(out@) =~= before + sentences(start@, all.take(0)));
    while i < f.len()
        invariant
            i <= f@.len(),
            all == finding_views(f@),
            texts(out@) == before + sentences(start@, all.take(i as int)),
        decreases f@.len() - i,
    {
        let line = start.to_string().concat(location(f[i].0.as_str()).as_str()).concat(
            ": ",
        ).concat(f[i].1.as_str());
        let ghost was = out@;
        out.push(line);
        proof {
            assert(texts(out@) =~= texts(was).push(line@));
            assert(all[i as int] == (f@[i as int].0@, f@[i as int].1@));
            assert(sentences(start@, all.take(i + 1)) =~= sentences(
                start@,
                all.take(i as int),
            ).push(line@));
            assert(texts(out@) =~= before + sentences(start@, all.take(i + 1)));
        }
        i += 1;
    }
    assert(all.take(f@.len() as int) =~= all);
}

fn schema_for_guests(schema: &Json) -> (r: Json)
    requires
        tidy(schema@),
    ensures
        r@ == guest_schema(schema@),
        tidy(r@),
{
    let mut m: Vec<(String, Json)> = Vec::new();
    assert(members_view(m@) =~= Seq::empty());
    set_member(
        &mut m,
        "$schema".to_string(),
        Json::Str("https://json-schema.org/draft/2020-12/schema".to_string()),
    );
    set_member(&mut m, "$ref".to_string(), Json::Str("#/$defs/resolvedGuest".to_string()));
    let defs = match schema.get("$defs") {
        Some(d) => d.copy(),
        None => Json::Null,
    };
    proof {
        if members_in(schema@) is Some {
            crate::manifest::resolve::lemma_tidy_member(members_in(schema@)->0, "$defs"@);
        }
        let none = Seq::<(Seq<char>, JsonView)>::empty();
        let s = JsonView::Str("https://json-schema.org/draft/2020-12/schema"@);
        let a = place(none, "$schema"@, s);
        crate::manifest::resolve::lemma_tidy_place(none, "$schema"@, s);
        let t = JsonView::Str("#/$defs/resolvedGuest"@);
        crate::manifest::resolve::lemma_tidy_place(a, "$ref"@, t);
        crate::manifest::resolve::lemma_tidy_place(place(a, "$ref"@, t), "$defs"@, defs@);
    }
    set_member(&mut m, "$defs".to_string(), defs);
    Json::Object(m)
}

/// Every problem with a document under a schema. Empty means valid. A schema
/// that does not compile is an internal error, whatever its words are.
pub fn validate_under(schema: &Json, doc: &Json) -> (r: Result<Vec<String>, Error>)
    requires
        tidy(schema@),
        tidy(doc@),
    ensures
        exists|words: Seq<char>|
            problems_view(r) == #[trigger] problems_under(schema@, doc@, words),
{
    let per_guest = schema_for_guests(schema);
    proof {
        lemma_tidy_fit(schema@);
        lemma_tidy_fit(per_guest@);
        lemma_tidy_fit(doc@);
    }
    match complaint(schema) {
        Some(e) => {
            let r = Err(
                Error::Internal(
                    "the embedded schema does not compile: ".to_string().concat(e.as_str()),
                ),
            );
            assert(problems_view(r) == problems_under(schema@, doc@, e@));
            return r;
        },
        None => {},
    }
    match complaint(&per_guest) {
        Some(e) => {
            let r = Err(
                Error::Internal(
                    "the resolved-guest schema does not compile: ".to_string().concat(e.as_str()),
                ),
            );
            assert(problems_view(r) == problems_under(schema@, doc@, e@));
            return r;
        },
        None => {},
    }
    let first = match findings(schema, doc) {
        Ok(f) => f,
        Err(_) => {
            assert(false);
            Vec::new()
        },
    };
    let mut out: Vec<String> = Vec::new();
    assert(texts(out@) =~= Seq::empty());
    add_sentences(&mut out, "", &first);
    proof {
        reveal_strlit("");
        assert(""@ =~= Seq::empty());
        assert(texts(out@) =~= sentences(Seq::empty(), schema_findings(schema@, doc@)));
    }
    let ghost silence = Seq::<char>::empty();
    if out.len() > 0 {
        assert(problems_under(schema@, doc@, silence) == Ok::<_, ErrorView>(texts(out@)));
        return Ok(out);
    }
    // Resolution can refuse things the schema cannot express -- duplicate guest
    // names across the two spellings, cache names that collide after env-var
    // mangling. Those are the tenant's to fix, so they join the problem list
    // rather than masquerading as internal errors.
    let guests = match resolve_guests(doc) {
        Ok(g) => g,
        Err(problem) => {
            let ghost p = problem@;
            out.push(problem);
            assert(texts(out@) =~= seq![p]);
            assert(problems_under(schema@, doc@, silence) == Ok::<_, ErrorView>(texts(out@)));
            return Ok(out);
        },
    };
    let ghost all = items_view(guests@);
    proof {
        lemma_items(guests@);
        assert(texts(out@) =~= Seq::empty());
    }
    let mut i: usize = 0;
    while i < guests.len()
        invariant
            i <= guests@.len(),
            fit(per_guest@),
            per_guest@ == guest_schema(schema@),
            schema_compiles(per_guest@),
            all.len() == guests@.len(),
            forall|j: int| 0 <= j < guests@.len() ==> #[trigger] all[j] == guests@[j]@,
            forall|j: int| 0 <= j < guests@.len() ==> tidy((#[trigger] guests@[j])@),
            texts(out@) == guest_problems(per_guest@, all.take(i as int)),
        decreases guests@.len() - i,
    {
        assert(all.take(i + 1).drop_last() =~= all.take(i as int));
        assert(all.take(i + 1).last() == all[i as int]);
        let name = match guests[i].get_text("name") {
            Some(n) => n.clone(),
            None => "<unnamed>".to_string(),
        };
        proof {
            lemma_tidy_fit(guests@[i as int]@);
        }
        let found = match findings(&per_guest, &guests[i]) {
            Ok(f) => f,
            Err(_) => {
                assert(false);
                Vec::new()
            },
        };
        let start = "guest ".to_string().concat(name.as_str()).concat(
            ", once defaults are merged in: ",
        );
        add_sentences(&mut out, start.as_str(), &found);
        i += 1;
    }
    assert(all.take(guests@.len() as int) =~= all);
    assert(problems_under(schema@, doc@, silence) == Ok::<_, ErrorView>(texts(out@)));
    Ok(out)
}

/// Every schema problem with the document, in both passes. Empty means valid.
pub fn validate(doc: &Json) -> (r: Result<Vec<String>, Error>)
    requires
        tidy(doc@),
    ensures
        exists|words: Seq<char>| problems_view(r) == #[trigger] problems(doc@, words),
{
    let read = read_json(SCHEMA);
    proof {
        if read is Ok {
            lemma_tidied(read->Ok_0@);
        }
    }
    match read {
        Err(e) => {
            let r = Err(
                Error::Internal(
                    "the embedded schema is not valid JSON: ".to_string().concat(e.as_str()),
                ),
            );
            assert(problems_view(r) == problems(doc@, Seq::empty()));
            r
        },
        Ok(schema) => {
            let schema = schema.tidy_up();
            let r = validate_under(&schema, doc);
            proof {
                let words = choose|words: Seq<char>|
                    problems_view(r) == #[trigger] problems_under(schema@, doc@, words);
                assert(problems_view(r) == problems(doc@, words));
            }
            r
        },
    }
}

}
