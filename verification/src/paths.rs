//! Where things live on the workstation.
//!
//! Paths are texts with slashes in them, taken apart and put together the way
//! a Unix system does it.
use vstd::prelude::*;
use vstd::string::*;

use crate::text::{chars_of, part, same, split, split_text, text_of, texts};

verus! {

/// What the environment says about where things live. A variable that is not
/// set is `None`; one that is set and empty is not.
pub struct Environment {
    pub home: Option<String>,
    pub reaper_config: Option<String>,
    pub reaper_state: Option<String>,
    pub xdg_config_home: Option<String>,
    pub xdg_state_home: Option<String>,
}

// ---------------------------------------------------------------------------
// Putting paths together
// ---------------------------------------------------------------------------

/// A path below another; an absolute one stands for itself.
pub open spec fn joined(base: Seq<char>, rest: Seq<char>) -> Seq<char> {
    if rest.len() > 0 && rest[0] == '/' {
        rest
    } else if base.len() > 0 && base.last() != '/' {
        base + "/"@ + rest
    } else {
        base + rest
    }
}

pub fn join(base: &str, rest: &str) -> (r: String)
    ensures
        r@ == joined(base@, rest@),
{
    let b = chars_of(base);
    let t = chars_of(rest);
    if t.len() > 0 && t[0] == '/' {
        rest.to_string()
    } else if b.len() > 0 && b[b.len() - 1] != '/' {
        base.to_string().concat("/").concat(rest)
    } else {
        base.to_string().concat(rest)
    }
}

/// The text without the slashes it starts with.
pub open spec fn unslashed(s: Seq<char>) -> Seq<char>
    decreases s.len(),
{
    if s.len() > 0 && s[0] == '/' {
        unslashed(s.skip(1))
    } else {
        s
    }
}

/// A path with a leading `~` put in terms of the home directory, where there is
/// one: only when it is the whole first component.
pub open spec fn tilde_expanded(p: Seq<char>, home: Option<Seq<char>>) -> Seq<char> {
    if p.len() == 0 || p[0] != '~' || home is None {
        p
    } else if p.len() == 1 {
        home->0
    } else if p[1] == '/' {
        joined(home->0, unslashed(p.skip(1)))
    } else {
        p
    }
}

/// The text of an optional string.
pub open spec fn maybe(s: Option<String>) -> Option<Seq<char>> {
    match s {
        Some(t) => Some(t@),
        None => None,
    }
}

/// Expand a leading `~` against the home directory.
///
/// Only a leading one, and only when it is the whole first component: `~/x` is
/// a home-relative path, `~other/x` is another user's home and is not something
/// this project resolves, and `a/~/b` is a directory that someone unwisely
/// named `~`.
pub fn expand_tilde(p: &str, home: &Option<String>) -> (r: String)
    ensures
        r@ == tilde_expanded(p@, maybe(*home)),
{
    let v = chars_of(p);
    if v.len() == 0 || v[0] != '~' {
        return p.to_string();
    }
    match home {
        None => p.to_string(),
        Some(h) => {
            if v.len() == 1 {
                return h.clone();
            }
            if v[1] != '/' {
                return p.to_string();
            }
            let mut i: usize = 1;
            while i < v.len() && v[i] == '/'
                invariant
                    v@ == p@,
                    1 <= i <= v@.len(),
                    unslashed(v@.skip(1)) == unslashed(v@.skip(i as int)),
                decreases v@.len() - i,
            {
                assert(v@.skip(i as int).skip(1) =~= v@.skip(i + 1));
                i += 1;
            }
            assert(v@.skip(i as int) =~= v@.subrange(i as int, v@.len() as int));
            let rest = text_of(&part(&v, i, v.len()));
            join(h.as_str(), rest.as_str())
        },
    }
}

// ---------------------------------------------------------------------------
// Taking paths apart
// ---------------------------------------------------------------------------

/// The path without slashes, and without components that are a lone dot, at
/// its end. The root keeps its slash.
pub open spec fn tidy(p: Seq<char>) -> Seq<char>
    decreases p.len(),
{
    if p.len() > 1 && p.last() == '/' {
        tidy(p.drop_last())
    } else if p.len() > 1 && p.last() == '.' && p[p.len() - 2] == '/' {
        tidy(p.drop_last())
    } else {
        p
    }
}

/// Where the last component of a tidy path starts.
pub open spec fn last_start(p: Seq<char>) -> int
    decreases p.len(),
{
    if p.len() == 0 || p.last() == '/' {
        p.len() as int
    } else {
        last_start(p.drop_last())
    }
}

/// The last component of a path.
pub open spec fn last_component(p: Seq<char>) -> Seq<char> {
    tidy(p).skip(last_start(tidy(p)))
}

/// The name of the file a path leads to. The root and what ends in `..` have
/// none.
pub open spec fn file_name(p: Seq<char>) -> Option<Seq<char>> {
    let n = last_component(p);
    if n.len() == 0 || n == "."@ || n == ".."@ {
        None
    } else {
        Some(n)
    }
}

/// The directory that a path is in; the root, and no path at all, are in none.
pub open spec fn parent(p: Seq<char>) -> Option<Seq<char>> {
    if last_component(p).len() == 0 {
        None
    } else {
        Some(tidy(tidy(p).take(last_start(tidy(p)))))
    }
}

/// The path to another file in the same directory.
pub open spec fn with_name(p: Seq<char>, name: Seq<char>) -> Seq<char> {
    match file_name(p) {
        Some(_) => joined(tidy(tidy(p).take(last_start(tidy(p)))), name),
        None => joined(p, name),
    }
}

/// Where the last dot of a text stands, or its length where there is none.
pub open spec fn last_dot(s: Seq<char>) -> int
    decreases s.len(),
{
    if s.len() == 0 {
        -1
    } else if s.last() == '.' {
        s.len() - 1
    } else {
        last_dot(s.drop_last())
    }
}

/// A file name without its extension. A dot that starts the name starts none.
pub open spec fn stem_len(name: Seq<char>) -> int {
    if last_dot(name) > 0 {
        last_dot(name)
    } else {
        name.len() as int
    }
}

/// The path with another extension; a path without a file name stays.
pub open spec fn with_ext(p: Seq<char>, ext: Seq<char>) -> Seq<char> {
    match file_name(p) {
        Some(name) => tidy(p).take(last_start(tidy(p)) + stem_len(name)) + "."@ + ext,
        None => p,
    }
}

fn tidy_chars(p: &[char]) -> (r: Vec<char>)
    ensures
        r@ == tidy(p@),
{
    let mut n: usize = p.len();
    assert(p@.take(n as int) =~= p@);
    while n > 1 && (p[n - 1] == '/' || (p[n - 1] == '.' && p[n - 2] == '/'))
        invariant
            n <= p@.len(),
            tidy(p@) == tidy(p@.take(n as int)),
        decreases n,
    {
        assert(p@.take(n as int).drop_last() =~= p@.take(n - 1));
        n -= 1;
    }
    assert(p@.take(n as int) =~= p@.subrange(0, n as int));
    part(p, 0, n)
}

fn last_start_of(p: &[char]) -> (r: usize)
    ensures
        r == last_start(p@),
        r <= p@.len(),
{
    let mut n: usize = p.len();
    assert(p@.take(n as int) =~= p@);
    while n > 0 && p[n - 1] != '/'
        invariant
            n <= p@.len(),
            last_start(p@) == last_start(p@.take(n as int)),
        decreases n,
    {
        assert(p@.take(n as int).drop_last() =~= p@.take(n - 1));
        n -= 1;
    }
    n
}

fn names_file(name: &str) -> (r: bool)
    ensures
        r == !(name@.len() == 0 || name@ == "."@ || name@ == ".."@),
{
    !(name.is_empty() || same(name, ".") || same(name, ".."))
}

/// The directory that a path is in; the root, and no path at all, are in none.
pub fn parent_of(p: &str) -> (r: Option<String>)
    ensures
        match r {
            Some(d) => parent(p@) == Some(d@),
            None => parent(p@) is None,
        },
{
    let t = tidy_chars(&chars_of(p));
    let start = last_start_of(&t);
    if start == t.len() {
        return None;
    }
    assert(t@.subrange(0, start as int) =~= t@.take(start as int));
    Some(text_of(&tidy_chars(&part(&t, 0, start))))
}

/// The path to another file in the same directory.
pub fn with_file_name(p: &str, name: &str) -> (r: String)
    ensures
        r@ == with_name(p@, name@),
{
    let t = tidy_chars(&chars_of(p));
    let start = last_start_of(&t);
    assert(t@.subrange(start as int, t@.len() as int) =~= t@.skip(start as int));
    if !names_file(text_of(&part(&t, start, t.len())).as_str()) {
        return join(p, name);
    }
    assert(t@.subrange(0, start as int) =~= t@.take(start as int));
    join(text_of(&tidy_chars(&part(&t, 0, start))).as_str(), name)
}

/// The path with another extension; a path without a file name stays.
pub fn with_extension(p: &str, ext: &str) -> (r: String)
    ensures
        r@ == with_ext(p@, ext@),
{
    let t = tidy_chars(&chars_of(p));
    let start = last_start_of(&t);
    assert(t@.subrange(start as int, t@.len() as int) =~= t@.skip(start as int));
    let name = part(&t, start, t.len());
    if !names_file(text_of(&name).as_str()) {
        return p.to_string();
    }
    let mut n: usize = name.len();
    assert(name@.take(n as int) =~= name@);
    while n > 0 && name[n - 1] != '.'
        invariant
            n <= name@.len(),
            last_dot(name@) == last_dot(name@.take(n as int)),
        decreases n,
    {
        assert(name@.take(n as int).drop_last() =~= name@.take(n - 1));
        n -= 1;
    }
    let keep: usize = if n > 1 {
        n - 1
    } else {
        name.len()
    };
    assert(keep == stem_len(name@));
    assert(t@.subrange(0, start + keep) =~= t@.take(start + keep));
    text_of(&part(&t, 0, start + keep)).concat(".").concat(ext)
}

// ---------------------------------------------------------------------------
// The same path
// ---------------------------------------------------------------------------

/// The components of a path: its pieces between slashes, without empty ones
/// and without lone dots, but for a dot that a relative path starts with.
pub open spec fn components(p: Seq<char>) -> Seq<Seq<char>> {
    let pieces = split(p, seq!['/']);
    (if p.len() > 0 && p[0] == '/' {
        seq!["/"@]
    } else if pieces[0] == "."@ {
        seq!["."@]
    } else {
        Seq::<Seq<char>>::empty()
    }) + pieces.filter(|c: Seq<char>| is_component(c))
}

pub open spec fn is_component(c: Seq<char>) -> bool {
    c.len() > 0 && c != "."@
}

pub fn components_of(p: &str) -> (r: Vec<String>)
    ensures
        texts(r@) == components(p@),
{
    let slash: [char; 1] = ['/'];
    assert(slash@ =~= seq!['/']);
    let pieces = split_text(p, &slash);
    let ghost all = split(p@, seq!['/']);
    let v = chars_of(p);
    let mut out: Vec<String> = Vec::new();
    proof {
        crate::text::lemma_split_nonempty(p@, seq!['/']);
        assert(all[0] == pieces@[0]@);
    }
    if v.len() > 0 && v[0] == '/' {
        out.push("/".to_string());
    } else if same(pieces[0].as_str(), ".") {
        out.push(".".to_string());
    }
    let ghost lead = texts(out@);
    assert(lead =~= (if p@.len() > 0 && p@[0] == '/' {
        seq!["/"@]
    } else if all[0] == "."@ {
        seq!["."@]
    } else {
        Seq::<Seq<char>>::empty()
    }));
    let mut i: usize = 0;
    proof {
        reveal(Seq::filter);
        assert(all.take(0).filter(|c: Seq<char>| is_component(c)) =~= Seq::empty());
        assert(lead + Seq::<Seq<char>>::empty() =~= lead);
    }
    while i < pieces.len()
        invariant
            i <= pieces@.len(),
            all == texts(pieces@),
            texts(out@) == lead + all.take(i as int).filter(|c: Seq<char>| is_component(c)),
        decreases pieces@.len() - i,
    {
        let ghost was = out@;
        let ghost some = all.take(i as int).filter(|c: Seq<char>| is_component(c));
        proof {
            reveal(Seq::filter);
            assert(all.take(i + 1).drop_last() =~= all.take(i as int));
            assert(all.take(i + 1).last() == pieces@[i as int]@);
        }
        if !pieces[i].as_str().is_empty() && !same(pieces[i].as_str(), ".") {
            out.push(pieces[i].clone());
            assert(texts(out@) =~= texts(was).push(pieces@[i as int]@));
            assert((lead + some).push(pieces@[i as int]@) =~= lead + some.push(pieces@[i as int]@));
        }
        i += 1;
    }
    assert(all.take(pieces@.len() as int) =~= all);
    out
}

/// Are the two the same path?
pub fn same_path(a: &str, b: &str) -> (r: bool)
    ensures
        r == (components(a@) == components(b@)),
{
    let x = components_of(a);
    let y = components_of(b);
    if x.len() != y.len() {
        assert(texts(x@).len() != texts(y@).len());
        return false;
    }
    let mut i: usize = 0;
    while i < x.len()
        invariant
            texts(x@) == components(a@),
            texts(y@) == components(b@),
            x@.len() == y@.len(),
            i <= x@.len(),
            forall|j: int| 0 <= j < i ==> (#[trigger] x@[j])@ == y@[j]@,
        decreases x@.len() - i,
    {
        if !same(x[i].as_str(), y[i].as_str()) {
            assert(texts(x@)[i as int] != texts(y@)[i as int]);
            return false;
        }
        i += 1;
    }
    assert(texts(x@) =~= texts(y@));
    true
}

// ---------------------------------------------------------------------------
// The program's own files
// ---------------------------------------------------------------------------

/// Where the configuration may be below the directory that XDG names, if it
/// names one.
pub open spec fn xdg_candidates(xdg: Option<Seq<char>>) -> Seq<Seq<char>> {
    match xdg {
        Some(x) => if x.len() > 0 {
            seq![joined(x, "reaper/config.toml"@)]
        } else {
            Seq::empty()
        },
        None => Seq::empty(),
    }
}

/// Where the configuration may be below the home directory, unless that is
/// where it was looked for already.
pub open spec fn home_candidates(home: Option<Seq<char>>, tried: Seq<Seq<char>>) -> Seq<Seq<char>> {
    match home {
        Some(h) => {
            let p = joined(h, ".config/reaper/config.toml"@);
            if tried.len() > 0 && components(tried[0]) == components(p) {
                Seq::empty()
            } else {
                seq![p]
            }
        },
        None => Seq::empty(),
    }
}

/// The configuration files to look for, most specific first.
pub open spec fn candidates(env: Environment) -> Seq<Seq<char>> {
    match maybe(env.reaper_config) {
        Some(p) => seq![tilde_expanded(p, maybe(env.home))],
        None => {
            let xdg = xdg_candidates(maybe(env.xdg_config_home));
            (xdg + home_candidates(maybe(env.home), xdg)).push("/etc/reaper/config.toml"@)
        },
    }
}

/// Candidate configuration files, most specific first.
///
/// `REAPER_CONFIG` wins outright when set, so a caller can be explicit without
/// having to reason about the search order at all.
pub fn config_candidates(env: &Environment) -> (r: Vec<String>)
    ensures
        texts(r@) == candidates(*env),
{
    let mut out: Vec<String> = Vec::new();
    match &env.reaper_config {
        Some(explicit) => {
            out.push(expand_tilde(explicit.as_str(), &env.home));
            assert(texts(out@) =~= candidates(*env));
            return out;
        },
        None => {},
    }
    match &env.xdg_config_home {
        Some(xdg) => {
            if !xdg.as_str().is_empty() {
                out.push(join(xdg.as_str(), "reaper/config.toml"));
            }
        },
        None => {},
    }
    let ghost tried = xdg_candidates(maybe(env.xdg_config_home));
    assert(texts(out@) =~= tried);
    match &env.home {
        Some(h) => {
            let p = join(h.as_str(), ".config/reaper/config.toml");
            assert(out@.len() > 0 ==> tried[0] == out@[0]@);
            if out.len() == 0 || !same_path(out[0].as_str(), p.as_str()) {
                out.push(p);
            }
        },
        None => {},
    }
    assert(texts(out@) =~= tried + home_candidates(maybe(env.home), tried));
    out.push("/etc/reaper/config.toml".to_string());
    assert(texts(out@) =~= candidates(*env));
    out
}

/// Where the session state is.
pub open spec fn state_path(env: Environment) -> Seq<char> {
    match maybe(env.reaper_state) {
        Some(p) => tilde_expanded(p, maybe(env.home)),
        None => match maybe(env.xdg_state_home) {
            Some(x) => if x.len() > 0 {
                joined(x, "reaper/sessions.json"@)
            } else {
                home_state(maybe(env.home))
            },
            None => home_state(maybe(env.home)),
        },
    }
}

pub open spec fn home_state(home: Option<Seq<char>>) -> Seq<char> {
    match home {
        Some(h) => joined(h, ".local/state/reaper/sessions.json"@),
        None => "reaper-sessions.json"@,
    }
}

/// Where session state lives.
///
/// State, not configuration: it is machine-local, rewritten constantly, and
/// losing it costs you the ability to find your sessions rather than the
/// ability to make them.
pub fn state_file(env: &Environment) -> (r: String)
    ensures
        r@ == state_path(*env),
{
    match &env.reaper_state {
        Some(explicit) => {
            return expand_tilde(explicit.as_str(), &env.home);
        },
        None => {},
    }
    match &env.xdg_state_home {
        Some(xdg) => {
            if !xdg.as_str().is_empty() {
                return join(xdg.as_str(), "reaper/sessions.json");
            }
        },
        None => {},
    }
    match &env.home {
        Some(h) => join(h.as_str(), ".local/state/reaper/sessions.json"),
        None => "reaper-sessions.json".to_string(),
    }
}

}
