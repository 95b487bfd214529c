//! Merging the top-level defaults with each guest's own overrides.
use vstd::prelude::*;
use vstd::string::*;

use crate::dict::{ascending, find, lemma_place_ascending, lemma_place_find, lemma_place_values, place};
use crate::json::{
    index_of_member, items_in, items_view, lemma_items, lemma_members, member, members_in,
    members_view, set_member, text_at, text_in, tidy, Json, JsonView,
};
use crate::scan::{upper, upper_char};
use crate::text::{debug_text, quoted, same, text_of, texts};

verus! {

/// The members of both, with the second winning per key.
pub open spec fn laid_over(base: Seq<(Seq<char>, JsonView)>, over: Seq<(Seq<char>, JsonView)>) -> Seq<
    (Seq<char>, JsonView),
>
    decreases over.len(),
{
    if over.len() == 0 {
        base
    } else {
        place(laid_over(base, over.drop_last()), over.last().0, over.last().1)
    }
}

pub open spec fn members_of(j: Option<JsonView>) -> Option<Seq<(Seq<char>, JsonView)>> {
    match j {
        Some(v) => members_in(v),
        None => None,
    }
}

/// Shallow merge of two optional objects, with the override winning per key.
pub open spec fn merged(base: Option<JsonView>, over: Option<JsonView>) -> Option<
    Seq<(Seq<char>, JsonView)>,
> {
    match (members_of(base), members_of(over)) {
        (None, None) => None,
        (Some(b), None) => Some(b),
        (None, Some(o)) => Some(o),
        (Some(b), Some(o)) => Some(laid_over(b, o)),
    }
}

/// A verb's block with the guest's execution mode where it states none itself.
pub open spec fn with_mode(
    block: Option<Seq<(Seq<char>, JsonView)>>,
    mode: Option<JsonView>,
) -> Option<Seq<(Seq<char>, JsonView)>> {
    match (block, mode) {
        (Some(b), Some(e)) => if find(b, "exec"@) is None {
            Some(place(b, "exec"@, e))
        } else {
            Some(b)
        },
        _ => block,
    }
}

/// A run in a container with no image of its own runs in the build's.
pub open spec fn with_image(
    run: Option<Seq<(Seq<char>, JsonView)>>,
    build: Option<Seq<(Seq<char>, JsonView)>>,
) -> Option<Seq<(Seq<char>, JsonView)>> {
    match (run, build) {
        (Some(r), Some(b)) => if find(r, "exec"@) == Some(JsonView::Str("container"@)) && find(
            r,
            "image"@,
        ) is None && find(b, "image"@) is Some {
            Some(place(r, "image"@, find(b, "image"@)->0))
        } else {
            run
        },
        _ => run,
    }
}

/// The character of an environment variable that stands for one of a cache
/// name.
pub open spec fn var_char(c: char) -> char {
    if c == '.' || c == '-' {
        '_'
    } else {
        upper(c)
    }
}

/// The part of an environment variable's name that a cache name becomes.
pub open spec fn variable(name: Seq<char>) -> Seq<char> {
    name.map_values(|c: char| var_char(c))
}

/// The texts among some items.
pub open spec fn strings(items: Seq<JsonView>) -> Seq<Seq<char>>
    decreases items.len(),
{
    if items.len() == 0 {
        Seq::empty()
    } else {
        match text_in(items.last()) {
            Some(s) => strings(items.drop_last()).push(s),
            None => strings(items.drop_last()),
        }
    }
}

/// The first of some cache names that becomes a variable.
pub open spec fn first_as(names: Seq<Seq<char>>, var: Seq<char>) -> Option<Seq<char>>
    decreases names.len(),
{
    if names.len() == 0 {
        None
    } else if variable(names[0]) == var {
        Some(names[0])
    } else {
        first_as(names.skip(1), var)
    }
}

/// The first two cache names that become the same variable.
pub open spec fn clash(names: Seq<Seq<char>>) -> Option<(Seq<char>, Seq<char>)>
    decreases names.len(),
{
    if names.len() == 0 {
        None
    } else {
        match clash(names.drop_last()) {
            Some(c) => Some(c),
            None => match first_as(names.drop_last(), variable(names.last())) {
                Some(p) => Some((p, names.last())),
                None => None,
            },
        }
    }
}

pub open spec fn clash_text(c: (Seq<char>, Seq<char>)) -> Seq<char> {
    "caches "@ + debug_text(c.0) + " and "@ + debug_text(c.1)
        + " would share the environment variable REAPER_CACHE_"@ + variable(c.1)
        + "; only one of them would be reachable. Pick names that differ in more than punctuation"@
}

/// What is wrong with the caches of a build block, if anything is.
pub open spec fn cache_problem(build: Option<Seq<(Seq<char>, JsonView)>>) -> Option<Seq<char>> {
    match build {
        None => None,
        Some(b) => match find(b, "cache"@) {
            None => None,
            Some(c) => match items_in(c) {
                None => None,
                Some(items) => match clash(strings(items)) {
                    None => None,
                    Some(c) => Some(clash_text(c)),
                },
            },
        },
    }
}

/// A member set, or nothing where there is nothing to set.
pub open spec fn maybe_place(
    m: Seq<(Seq<char>, JsonView)>,
    key: Seq<char>,
    value: Option<JsonView>,
) -> Seq<(Seq<char>, JsonView)> {
    match value {
        Some(v) => place(m, key, v),
        None => m,
    }
}

pub open spec fn as_object(m: Option<Seq<(Seq<char>, JsonView)>>) -> Option<JsonView> {
    match m {
        Some(x) => Some(JsonView::Object(x)),
        None => None,
    }
}

/// The execution mode that a guest's verbs take by default.
pub open spec fn guest_mode(doc: JsonView, over: Seq<(Seq<char>, JsonView)>) -> Option<JsonView> {
    match find(over, "exec"@) {
        Some(e) => Some(e),
        None => member(doc, "exec"@),
    }
}

pub open spec fn build_block(doc: JsonView, over: Seq<(Seq<char>, JsonView)>) -> Option<
    Seq<(Seq<char>, JsonView)>,
> {
    with_mode(merged(member(doc, "build"@), find(over, "build"@)), guest_mode(doc, over))
}

pub open spec fn run_block(doc: JsonView, over: Seq<(Seq<char>, JsonView)>) -> Option<
    Seq<(Seq<char>, JsonView)>,
> {
    with_image(
        with_mode(merged(member(doc, "run"@), find(over, "run"@)), guest_mode(doc, over)),
        build_block(doc, over),
    )
}

/// One guest, in the form that the runner would act on.
pub open spec fn resolved(doc: JsonView, name: Seq<char>, over: Seq<(Seq<char>, JsonView)>) -> JsonView {
    let a = place(Seq::empty(), "name"@, JsonView::Str(name));
    let b = maybe_place(a, "exec"@, guest_mode(doc, over));
    let c = maybe_place(
        b,
        "resources"@,
        as_object(merged(member(doc, "resources"@), find(over, "resources"@))),
    );
    let d = maybe_place(c, "build"@, as_object(build_block(doc, over)));
    let e = maybe_place(d, "run"@, as_object(run_block(doc, over)));
    JsonView::Object(e)
}

/// The name in an entry, and its overrides: shorthand is a bare name, and the
/// expanded form an object that carries it.
pub open spec fn entry_parts(entry: JsonView) -> Result<
    (Seq<char>, Seq<(Seq<char>, JsonView)>),
    Seq<char>,
> {
    match entry {
        JsonView::Str(s) => Ok((s, Seq::empty())),
        JsonView::Object(o) => match text_at(entry, "name"@) {
            Some(n) => Ok((n, o)),
            None => Err("guest object without a name"@),
        },
        _ => Err("guest entry is neither a name nor an object"@),
    }
}

pub open spec fn named_twice(name: Seq<char>) -> Seq<char> {
    "guests declares "@ + debug_text(name)
        + " more than once; a guest gets one entry, whichever form it is written in"@
}

/// The names that some entries declare.
pub open spec fn entry_names(entries: Seq<JsonView>) -> Seq<Seq<char>> {
    entries.map_values(|e: JsonView| entry_parts(e)->Ok_0.0)
}

/// The guests of some entries, or what is wrong with the first that cannot be
/// resolved.
pub open spec fn resolutions(doc: JsonView, entries: Seq<JsonView>) -> Result<
    Seq<JsonView>,
    Seq<char>,
>
    decreases entries.len(),
{
    if entries.len() == 0 {
        Ok(Seq::empty())
    } else {
        match resolutions(doc, entries.drop_last()) {
            Err(e) => Err(e),
            Ok(done) => match entry_parts(entries.last()) {
                Err(e) => Err(e),
                Ok((name, over)) => if entry_names(entries.drop_last()).contains(name) {
                    Err(named_twice(name))
                } else {
                    match cache_problem(build_block(doc, over)) {
                        Some(p) => Err(p),
                        None => Ok(done.push(resolved(doc, name, over))),
                    }
                },
            },
        }
    }
}

/// The guests of a manifest.
pub open spec fn all_resolved(doc: JsonView) -> Result<Seq<JsonView>, Seq<char>> {
    match member(doc, "guests"@) {
        None => Err("no guests array; the root schema should have caught this"@),
        Some(g) => match items_in(g) {
            None => Err("no guests array; the root schema should have caught this"@),
            Some(entries) => resolutions(doc, entries),
        },
    }
}

// ---------------------------------------------------------------------------
// What resolution promises
// ---------------------------------------------------------------------------

proof fn lemma_refused_early(doc: JsonView, entries: Seq<JsonView>, n: int)
    requires
        0 <= n <= entries.len(),
        resolutions(doc, entries.take(n)) is Err,
    ensures
        resolutions(doc, entries) == resolutions(doc, entries.take(n)),
    decreases entries.len(),
{
    if n == entries.len() {
        assert(entries.take(n) =~= entries);
    } else {
        assert(entries.drop_last().take(n) =~= entries.take(n));
        lemma_refused_early(doc, entries.drop_last(), n);
    }
}

/// No two guests of a resolved manifest have the same name, and each stands
/// where its entry stood.
pub proof fn law_a_guest_gets_one_entry(doc: JsonView, entries: Seq<JsonView>)
    requires
        resolutions(doc, entries) is Ok,
    ensures
        resolutions(doc, entries)->Ok_0.len() == entries.len(),
        forall|i: int|
            0 <= i < entries.len() ==> {
                let parts = entry_parts(#[trigger] entries[i]);
                parts is Ok && resolutions(doc, entries)->Ok_0[i] == resolved(
                    doc,
                    parts->Ok_0.0,
                    parts->Ok_0.1,
                )
            },
        forall|i: int, j: int|
            0 <= i < j < entries.len() ==> entry_parts(#[trigger] entries[i])->Ok_0.0
                != entry_parts(#[trigger] entries[j])->Ok_0.0,
    decreases entries.len(),
{
    if entries.len() > 0 {
        let rest = entries.drop_last();
        law_a_guest_gets_one_entry(doc, rest);
        let name = entry_parts(entries.last())->Ok_0.0;
        assert forall|i: int| 0 <= i < entries.len() implies ({
            let parts = entry_parts(#[trigger] entries[i]);
            parts is Ok && resolutions(doc, entries)->Ok_0[i] == resolved(
                doc,
                parts->Ok_0.0,
                parts->Ok_0.1,
            )
        }) by {
            if i < rest.len() {
                assert(rest[i] == entries[i]);
            }
        }
        assert forall|i: int, j: int| 0 <= i < j < entries.len() implies entry_parts(
            #[trigger] entries[i],
        )->Ok_0.0 != entry_parts(#[trigger] entries[j])->Ok_0.0 by {
            assert(rest[i] == entries[i]);
            if j < rest.len() {
                assert(rest[j] == entries[j]);
            } else {
                assert(entry_names(rest)[i] == entry_parts(rest[i])->Ok_0.0);
            }
        }
    }
}

/// What a guest says about a key of a block wins, and what it leaves unsaid
/// comes from the defaults.
pub proof fn law_the_override_wins_per_key(
    base: Seq<(Seq<char>, JsonView)>,
    over: Seq<(Seq<char>, JsonView)>,
    key: Seq<char>,
)
    requires
        ascending(over),
    ensures
        find(laid_over(base, over), key) == (if find(over, key) is Some {
            find(over, key)
        } else {
            find(base, key)
        }),
    decreases over.len(),
{
    if over.len() > 0 {
        let rest = over.drop_last();
        let last = over.last();
        law_the_override_wins_per_key(base, rest, key);
        lemma_place_find(laid_over(base, rest), last.0, last.1, key);
        assert(over =~= rest.push(last));
        crate::dict::lemma_find_push(rest, last, key);
        if key == last.0 {
            if find(rest, key) is Some {
                let i = crate::dict::lemma_stands(rest, key);
                assert(rest[i] == over[i]);
                assert(crate::scan::before(over[i].0, over[over.len() - 1].0));
                crate::scan::lemma_before_strict(key, key);
            }
        }
    }
}

/// A run in a container that names no image of its own runs in the build's
/// image; a run in the guest itself gets none that it did not name; and a run
/// that names an image keeps it.
pub proof fn law_only_a_container_run_inherits_the_build_image(
    doc: JsonView,
    over: Seq<(Seq<char>, JsonView)>,
)
    requires
        run_block(doc, over) is Some,
    ensures
        ({
            let plain = with_mode(
                merged(member(doc, "run"@), find(over, "run"@)),
                guest_mode(doc, over),
            )->0;
            let run = run_block(doc, over)->0;
            let build = build_block(doc, over);
            &&& find(run, "exec"@) == find(plain, "exec"@)
            &&& find(plain, "image"@) is Some ==> run == plain
            &&& find(plain, "exec"@) != Some(JsonView::Str("container"@)) ==> run == plain
            &&& find(plain, "image"@) is None && find(plain, "exec"@) == Some(
                JsonView::Str("container"@),
            ) && build is Some ==> find(run, "image"@) == find(build->0, "image"@)
        }),
{
    let plain = with_mode(merged(member(doc, "run"@), find(over, "run"@)), guest_mode(doc, over))->0;
    let build = build_block(doc, over);
    reveal_strlit("exec");
    reveal_strlit("image");
    assert("exec"@.len() == 4 && "image"@.len() == 5);
    if build is Some && find(build->0, "image"@) is Some {
        lemma_place_find(plain, "image"@, find(build->0, "image"@)->0, "exec"@);
        lemma_place_find(plain, "image"@, find(build->0, "image"@)->0, "image"@);
    }
}

/// A verb's own execution mode stands, and one that states none takes the
/// guest's.
pub proof fn law_mode_belongs_to_the_verb(
    block: Seq<(Seq<char>, JsonView)>,
    mode: Option<JsonView>,
)
    ensures
        with_mode(Some(block), mode) is Some,
        find(with_mode(Some(block), mode)->0, "exec"@) == (if find(block, "exec"@) is Some {
            find(block, "exec"@)
        } else {
            mode
        }),
{
    if mode is Some {
        lemma_place_find(block, "exec"@, mode->0, "exec"@);
    }
}

/// The caches of a resolved guest become different variables.
pub proof fn law_caches_stay_apart(names: Seq<Seq<char>>)
    requires
        clash(names) is None,
    ensures
        forall|i: int, j: int|
            0 <= i < j < names.len() ==> variable(#[trigger] names[i]) != variable(
                #[trigger] names[j],
            ),
    decreases names.len(),
{
    if names.len() > 0 {
        let rest = names.drop_last();
        law_caches_stay_apart(rest);
        assert forall|i: int, j: int| 0 <= i < j < names.len() implies variable(
            #[trigger] names[i],
        ) != variable(#[trigger] names[j]) by {
            assert(rest[i] == names[i]);
            if j < rest.len() {
                assert(rest[j] == names[j]);
            } else {
                lemma_first_as(rest, variable(names[j]), i);
            }
        }
    }
}

proof fn lemma_first_as(names: Seq<Seq<char>>, var: Seq<char>, i: int)
    requires
        0 <= i < names.len(),
        first_as(names, var) is None,
    ensures
        variable(names[i]) != var,
    decreases names.len(),
{
    if i > 0 {
        assert(names.skip(1)[i - 1] == names[i]);
        lemma_first_as(names.skip(1), var, i - 1);
    }
}

// ---------------------------------------------------------------------------
// Resolved guests can be handed on
// ---------------------------------------------------------------------------

pub proof fn lemma_tidy_place(m: Seq<(Seq<char>, JsonView)>, key: Seq<char>, value: JsonView)
    requires
        tidy(JsonView::Object(m)),
        tidy(value),
    ensures
        tidy(JsonView::Object(place(m, key, value))),
{
    lemma_place_ascending(m, key, value);
    lemma_place_values(m, key, value);
    let p = place(m, key, value);
    assert forall|i: int| 0 <= i < p.len() implies tidy((#[trigger] p[i]).1) by {
        if p[i].1 != value {
            let j = choose|j: int| 0 <= j < m.len() && (#[trigger] m[j]).1 == p[i].1;
            assert(tidy(m[j].1));
        }
    }
}

pub proof fn lemma_tidy_member(m: Seq<(Seq<char>, JsonView)>, key: Seq<char>)
    requires
        tidy(JsonView::Object(m)),
    ensures
        find(m, key) is Some ==> tidy(find(m, key)->0),
{
    if find(m, key) is Some {
        let i = crate::dict::lemma_stands(m, key);
        assert(tidy(m[i].1));
    }
}

proof fn lemma_tidy_laid_over(base: Seq<(Seq<char>, JsonView)>, over: Seq<(Seq<char>, JsonView)>)
    requires
        tidy(JsonView::Object(base)),
        tidy(JsonView::Object(over)),
    ensures
        tidy(JsonView::Object(laid_over(base, over))),
    decreases over.len(),
{
    if over.len() > 0 {
        let rest = over.drop_last();
        assert(tidy(JsonView::Object(rest))) by {
            assert forall|i: int| 0 <= i < rest.len() implies tidy((#[trigger] rest[i]).1) by {
                assert(rest[i] == over[i]);
            }
            assert forall|i: int, j: int| 0 <= i < j < rest.len() implies crate::scan::before(
                #[trigger] rest[i].0,
                #[trigger] rest[j].0,
            ) by {
                assert(rest[i] == over[i] && rest[j] == over[j]);
            }
        }
        lemma_tidy_laid_over(base, rest);
        assert(tidy(over[over.len() - 1].1));
        lemma_tidy_place(laid_over(base, rest), over.last().0, over.last().1);
    }
}

proof fn lemma_tidy_merged(base: Option<JsonView>, over: Option<JsonView>)
    requires
        base is Some ==> tidy(base->0),
        over is Some ==> tidy(over->0),
    ensures
        merged(base, over) is Some ==> tidy(JsonView::Object(merged(base, over)->0)),
{
    match (members_of(base), members_of(over)) {
        (Some(b), Some(o)) => {
            lemma_tidy_laid_over(b, o);
        },
        _ => {},
    }
}

pub proof fn lemma_tidy_resolved(doc: JsonView, name: Seq<char>, over: Seq<(Seq<char>, JsonView)>)
    requires
        tidy(doc),
        tidy(JsonView::Object(over)),
    ensures
        tidy(resolved(doc, name, over)),
{
    let none = Seq::<(Seq<char>, JsonView)>::empty();
    let mode = guest_mode(doc, over);
    if members_in(doc) is Some {
        let m = members_in(doc)->0;
        lemma_tidy_member(m, "exec"@);
        lemma_tidy_member(m, "build"@);
        lemma_tidy_member(m, "run"@);
        lemma_tidy_member(m, "resources"@);
    }
    lemma_tidy_member(over, "exec"@);
    lemma_tidy_member(over, "build"@);
    lemma_tidy_member(over, "run"@);
    lemma_tidy_member(over, "resources"@);
    lemma_tidy_merged(member(doc, "build"@), find(over, "build"@));
    lemma_tidy_merged(member(doc, "run"@), find(over, "run"@));
    lemma_tidy_merged(member(doc, "resources"@), find(over, "resources"@));
    let raw_build = merged(member(doc, "build"@), find(over, "build"@));
    let raw_run = merged(member(doc, "run"@), find(over, "run"@));
    if mode is Some {
        if raw_build is Some {
            lemma_tidy_place(raw_build->0, "exec"@, mode->0);
        }
        if raw_run is Some {
            lemma_tidy_place(raw_run->0, "exec"@, mode->0);
        }
    }
    let build = build_block(doc, over);
    let plain_run = with_mode(raw_run, mode);
    if build is Some && find(build->0, "image"@) is Some && plain_run is Some {
        lemma_tidy_member(build->0, "image"@);
        lemma_tidy_place(plain_run->0, "image"@, find(build->0, "image"@)->0);
    }
    let run = run_block(doc, over);
    let resources = as_object(merged(member(doc, "resources"@), find(over, "resources"@)));
    let a = place(none, "name"@, JsonView::Str(name));
    lemma_tidy_place(none, "name"@, JsonView::Str(name));
    let b = maybe_place(a, "exec"@, mode);
    if mode is Some {
        lemma_tidy_place(a, "exec"@, mode->0);
    }
    let c = maybe_place(b, "resources"@, resources);
    if resources is Some {
        lemma_tidy_place(b, "resources"@, resources->0);
    }
    let d = maybe_place(c, "build"@, as_object(build));
    if build is Some {
        lemma_tidy_place(c, "build"@, JsonView::Object(build->0));
    }
    if run is Some {
        lemma_tidy_place(d, "run"@, JsonView::Object(run->0));
    }
}

// ---------------------------------------------------------------------------
// Resolving
// ---------------------------------------------------------------------------

/// The members of both, with the second winning per key.
fn lay_over(base: &Vec<(String, Json)>, over: &Vec<(String, Json)>) -> (r: Vec<(String, Json)>)
    ensures
        members_view(r@) == laid_over(members_view(base@), members_view(over@)),
{
    let mut out = copy_members(base);
    let ghost all = members_view(over@);
    proof {
        lemma_members(over@);
    }
    let mut i: usize = 0;
    assert(all.take(0) =~= Seq::empty());
    while i < over.len()
        invariant
            i <= over@.len(),
            all.len() == over@.len(),
            forall|j: int|
                0 <= j < over@.len() ==> #[trigger] all[j] == (over@[j].0@, over@[j].1@),
            members_view(out@) == laid_over(members_view(base@), all.take(i as int)),
        decreases over@.len() - i,
    {
        assert(all.take(i + 1).drop_last() =~= all.take(i as int));
        assert(all.take(i + 1).last() == all[i as int]);
        set_member(&mut out, over[i].0.clone(), over[i].1.copy());
        i += 1;
    }
    assert(all.take(over@.len() as int) =~= all);
    out
}

fn copy_members(m: &Vec<(String, Json)>) -> (r: Vec<(String, Json)>)
    ensures
        members_view(r@) == members_view(m@),
{
    let mut out: Vec<(String, Json)> = Vec::new();
    let mut i: usize = 0;
    while i < m.len()
        invariant
            i <= m@.len(),
            out@.len() == i,
            forall|j: int|
                0 <= j < i ==> (#[trigger] out@[j]).0@ == m@[j].0@ && out@[j].1@ == m@[j].1@,
        decreases m@.len() - i,
    {
        out.push((m[i].0.clone(), m[i].1.copy()));
        i += 1;
    }
    proof {
        lemma_members(m@);
        lemma_members(out@);
        assert(members_view(out@) =~= members_view(m@));
    }
    out
}

fn members_at(j: Option<&Json>) -> (r: Option<&Vec<(String, Json)>>)
    ensures
        match r {
            Some(m) => members_of(looked(j)) == Some(members_view(m@)),
            None => members_of(looked(j)) is None,
        },
{
    match j {
        Some(v) => v.as_members(),
        None => None,
    }
}

/// What a lookup came upon.
pub open spec fn looked(j: Option<&Json>) -> Option<JsonView> {
    match j {
        Some(v) => Some(v@),
        None => None,
    }
}

pub open spec fn block_view(m: Option<Vec<(String, Json)>>) -> Option<Seq<(Seq<char>, JsonView)>> {
    match m {
        Some(v) => Some(members_view(v@)),
        None => None,
    }
}

/// Shallow merge of two optional objects, with the override winning per key.
pub fn merge(base: Option<&Json>, over: Option<&Json>) -> (r: Option<Vec<(String, Json)>>)
    ensures
        block_view(r) == merged(looked(base), looked(over)),
{
    match (members_at(base), members_at(over)) {
        (None, None) => None,
        (Some(b), None) => Some(copy_members(b)),
        (None, Some(o)) => Some(copy_members(o)),
        (Some(b), Some(o)) => Some(lay_over(b, o)),
    }
}

fn member_of<'a>(m: &'a Vec<(String, Json)>, key: &str) -> (r: Option<&'a Json>)
    ensures
        looked(r) == find(members_view(m@), key@),
{
    proof {
        lemma_members(m@);
    }
    match index_of_member(m, key) {
        Some(i) => Some(&m[i].1),
        None => None,
    }
}

fn give_mode(block: Option<Vec<(String, Json)>>, mode: Option<&Json>) -> (r: Option<
    Vec<(String, Json)>,
>)
    ensures
        block_view(r) == with_mode(block_view(block), looked(mode)),
{
    match (block, mode) {
        (Some(b), Some(e)) => {
            let mut out = b;
            if member_of(&out, "exec").is_none() {
                set_member(&mut out, "exec".to_string(), e.copy());
            }
            Some(out)
        },
        (None, _) => None,
        (Some(b), None) => Some(b),
    }
}

fn give_image(run: Option<Vec<(String, Json)>>, build: &Option<Vec<(String, Json)>>) -> (r: Option<
    Vec<(String, Json)>,
>)
    ensures
        block_view(r) == with_image(block_view(run), block_view(*build)),
{
    match (run, build) {
        (Some(r), Some(b)) => {
            let mut out = r;
            let contained = match member_of(&out, "exec") {
                Some(Json::Str(s)) => same(s.as_str(), "container"),
                _ => false,
            };
            if contained && member_of(&out, "image").is_none() {
                match member_of(b, "image") {
                    Some(image) => {
                        set_member(&mut out, "image".to_string(), image.copy());
                    },
                    None => {},
                }
            }
            Some(out)
        },
        (None, _) => None,
        (Some(r), None) => Some(r),
    }
}

fn variable_of(name: &str) -> (r: String)
    ensures
        r@ == variable(name@),
{
    let mut out: Vec<char> = Vec::new();
    for c in it: name.chars()
        invariant
            out@ == it.seq().take(it.index() as int).map_values(|c: char| var_char(c)),
    {
        let v = if c == '.' || c == '-' {
            '_'
        } else {
            upper_char(c)
        };
        proof {
            let n = it.index() as int;
            assert(it.seq().take(n + 1) =~= it.seq().take(n).push(it.seq()[n]));
            assert(it.seq().take(n + 1).map_values(|c: char| var_char(c)) =~= it.seq().take(
                n,
            ).map_values(|c: char| var_char(c)).push(var_char(c)));
        }
        out.push(v);
    }
    assert(name@.take(name@.len() as int) =~= name@);
    text_of(&out)
}

pub fn strings_of(items: &Vec<Json>) -> (r: Vec<String>)
    ensures
        texts(r@) == strings(items_view(items@)),
{
    let mut out: Vec<String> = Vec::new();
    let ghost all = items_view(items@);
    proof {
        lemma_items(items@);
    }
    let mut i: usize = 0;
    assert(texts(out@) =~= Seq::empty());
    while i < items.len()
        invariant
            i <= items@.len(),
            all.len() == items@.len(),
            forall|j: int| 0 <= j < items@.len() ==> #[trigger] all[j] == items@[j]@,
            texts(out@) == strings(all.take(i as int)),
        decreases items@.len() - i,
    {
        assert(all.take(i + 1).drop_last() =~= all.take(i as int));
        assert(all.take(i + 1).last() == all[i as int]);
        match items[i].as_text() {
            Some(s) => {
                let ghost was = out@;
                out.push(s.clone());
                assert(texts(out@) =~= texts(was).push(s@));
            },
            None => {},
        }
        i += 1;
    }
    assert(all.take(items@.len() as int) =~= all);
    out
}

fn find_as(names: &Vec<String>, count: usize, var: &str) -> (r: Option<usize>)
    requires
        count <= names@.len(),
    ensures
        match r {
            Some(i) => i < count && first_as(texts(names@).take(count as int), var@) == Some(
                names@[i as int]@,
            ),
            None => first_as(texts(names@).take(count as int), var@) is None,
        },
{
    let ghost all = texts(names@).take(count as int);
    let mut i: usize = 0;
    assert(all.skip(0) =~= all);
    while i < count
        invariant
            i <= count <= names@.len(),
            all == texts(names@).take(count as int),
            first_as(all, var@) == first_as(all.skip(i as int), var@),
        decreases count - i,
    {
        assert(all.skip(i as int)[0] == names@[i as int]@);
        let v = variable_of(names[i].as_str());
        if same(v.as_str(), var) {
            return Some(i);
        }
        assert(all.skip(i as int).skip(1) =~= all.skip(i + 1));
        i += 1;
    }
    None
}

fn find_clash(names: &Vec<String>) -> (r: Option<String>)
    ensures
        match r {
            Some(m) => clash(texts(names@)) is Some && m@ == clash_text(clash(texts(names@))->0),
            None => clash(texts(names@)) is None,
        },
{
    let ghost all = texts(names@);
    let mut i: usize = 0;
    while i < names.len()
        invariant
            i <= names@.len(),
            all == texts(names@),
            clash(all.take(i as int)) is None,
        decreases names@.len() - i,
    {
        assert(all.take(i + 1).drop_last() =~= all.take(i as int));
        assert(all.take(i + 1).last() == names@[i as int]@);
        let var = variable_of(names[i].as_str());
        match find_as(names, i, var.as_str()) {
            Some(p) => {
                proof {
                    lemma_clash_stays(all, i + 1);
                }
                return Some(
                    "caches ".to_string().concat(quoted(names[p].as_str()).as_str()).concat(
                        " and ",
                    ).concat(quoted(names[i].as_str()).as_str()).concat(
                        " would share the environment variable REAPER_CACHE_",
                    ).concat(var.as_str()).concat(
                        "; only one of them would be reachable. Pick names that differ in more than punctuation",
                    ),
                );
            },
            None => {},
        }
        i += 1;
    }
    assert(all.take(names@.len() as int) =~= all);
    None
}

proof fn lemma_clash_stays(names: Seq<Seq<char>>, n: int)
    requires
        0 <= n <= names.len(),
        clash(names.take(n)) is Some,
    ensures
        clash(names) == clash(names.take(n)),
    decreases names.len(),
{
    if n == names.len() {
        assert(names.take(n) =~= names);
    } else {
        assert(names.drop_last().take(n) =~= names.take(n));
        lemma_clash_stays(names.drop_last(), n);
    }
}

fn check_cache(build: &Option<Vec<(String, Json)>>) -> (r: Option<String>)
    ensures
        crate::decode::seen(r) == cache_problem(block_view(*build)),
{
    match build {
        None => None,
        Some(b) => match member_of(b, "cache") {
            None => None,
            Some(c) => match c.as_items() {
                None => None,
                Some(items) => {
                    let names = strings_of(items);
                    find_clash(&names)
                },
            },
        },
    }
}

fn is_named(entries: &Vec<String>, name: &str) -> (r: bool)
    ensures
        r == texts(entries@).contains(name@),
{
    let ghost all = texts(entries@);
    let mut i: usize = 0;
    while i < entries.len()
        invariant
            i <= entries@.len(),
            all == texts(entries@),
            forall|j: int| 0 <= j < i ==> (#[trigger] entries@[j])@ != name@,
        decreases entries@.len() - i,
    {
        assert(all[i as int] == entries@[i as int]@);
        if same(entries[i].as_str(), name) {
            return true;
        }
        i += 1;
    }
    assert forall|j: int| 0 <= j < all.len() implies #[trigger] all[j] != name@ by {
        assert(all[j] == entries@[j]@);
    }
    false
}

fn resolve_one(
    doc: &Json,
    name: &str,
    over: &Vec<(String, Json)>,
    build: Option<Vec<(String, Json)>>,
) -> (r: Json)
    requires
        block_view(build) == build_block(doc@, members_view(over@)),
    ensures
        r@ == resolved(doc@, name@, members_view(over@)),
{
    let mut out: Vec<(String, Json)> = Vec::new();
    assert(members_view(out@) =~= Seq::empty());
    set_member(&mut out, "name".to_string(), Json::Str(name.to_string()));
    let mode = match member_of(over, "exec") {
        Some(e) => Some(e),
        None => doc.get("exec"),
    };
    match mode {
        Some(e) => {
            set_member(&mut out, "exec".to_string(), e.copy());
        },
        None => {},
    }
    match merge(doc.get("resources"), member_of(over, "resources")) {
        Some(m) => {
            set_member(&mut out, "resources".to_string(), Json::Object(m));
        },
        None => {},
    }
    let run = give_image(
        give_mode(merge(doc.get("run"), member_of(over, "run")), mode),
        &build,
    );
    match build {
        Some(m) => {
            set_member(&mut out, "build".to_string(), Json::Object(m));
        },
        None => {},
    }
    match run {
        Some(m) => {
            set_member(&mut out, "run".to_string(), Json::Object(m));
        },
        None => {},
    }
    Json::Object(out)
}

fn split_entry<'a>(entry: &'a Json, none: &'a Vec<(String, Json)>) -> (r: Result<
    (String, &'a Vec<(String, Json)>),
    String,
>)
    requires
        none@.len() == 0,
    ensures
        match r {
            Ok((n, o)) => entry_parts(entry@) == Ok::<_, Seq<char>>((n@, members_view(o@))),
            Err(m) => entry_parts(entry@) == Err::<(Seq<char>, Seq<(Seq<char>, JsonView)>), _>(m@),
        },
{
    assert(members_view(none@) =~= Seq::empty());
    match entry {
        Json::Str(s) => Ok((s.clone(), none)),
        Json::Object(o) => match entry.get_text("name") {
            Some(n) => Ok((n.clone(), o)),
            None => Err("guest object without a name".to_string()),
        },
        _ => Err("guest entry is neither a name nor an object".to_string()),
    }
}

/// Merge the top-level defaults with each guest's own overrides.
///
/// `build`, `run` and `resources` merge key by key, so a guest can supply just
/// `build.image` and inherit the command and caches. `exec` is a scalar and is
/// replaced outright.
pub fn resolve_guests(doc: &Json) -> (r: Result<Vec<Json>, String>)
    ensures
        match r {
            Ok(v) => all_resolved(doc@) == Ok::<_, Seq<char>>(items_view(v@)),
            Err(m) => all_resolved(doc@) == Err::<Seq<JsonView>, _>(m@),
        },
        tidy(doc@) && r is Ok ==> forall|i: int|
            0 <= i < r->Ok_0@.len() ==> tidy((#[trigger] r->Ok_0@[i])@),
{
    let entries = match doc.get("guests") {
        None => {
            return Err("no guests array; the root schema should have caught this".to_string());
        },
        Some(g) => match g.as_items() {
            None => {
                return Err("no guests array; the root schema should have caught this".to_string());
            },
            Some(e) => e,
        },
    };
    let ghost all = items_view(entries@);
    proof {
        lemma_items(entries@);
        if tidy(doc@) {
            lemma_tidy_member(members_in(doc@)->0, "guests"@);
        }
    }
    let none: Vec<(String, Json)> = Vec::new();
    let mut out: Vec<Json> = Vec::new();
    let mut declared: Vec<String> = Vec::new();
    let mut i: usize = 0;
    proof {
        lemma_items(out@);
        assert(items_view(out@) =~= Seq::empty());
        assert(all.take(0) =~= Seq::empty());
    }
    while i < entries.len()
        invariant
            i <= entries@.len(),
            none@.len() == 0,
            all.len() == entries@.len(),
            forall|j: int| 0 <= j < entries@.len() ==> #[trigger] all[j] == entries@[j]@,
            all_resolved(doc@) == resolutions(doc@, all),
            tidy(doc@) ==> forall|j: int| 0 <= j < all.len() ==> tidy(#[trigger] all[j]),
            resolutions(doc@, all.take(i as int)) == Ok::<_, Seq<char>>(items_view(out@)),
            texts(declared@) == entry_names(all.take(i as int)),
            tidy(doc@) ==> forall|j: int| 0 <= j < out@.len() ==> tidy((#[trigger] out@[j])@),
        decreases entries@.len() - i,
    {
        let ghost upto = all.take(i + 1);
        proof {
            assert(upto.drop_last() =~= all.take(i as int));
            assert(upto.last() == entries@[i as int]@);
        }
        let (name, over) = match split_entry(&entries[i], &none) {
            Err(m) => {
                proof {
                    lemma_refused_early(doc@, all, i + 1);
                }
                return Err(m);
            },
            Ok(p) => p,
        };
        // Whole values can differ and still declare one guest: a bare name and
        // an object that carries it.
        if is_named(&declared, name.as_str()) {
            proof {
                lemma_refused_early(doc@, all, i + 1);
            }
            return Err(
                "guests declares ".to_string().concat(quoted(name.as_str()).as_str()).concat(
                    " more than once; a guest gets one entry, whichever form it is written in",
                ),
            );
        }
        let mode = match member_of(over, "exec") {
            Some(e) => Some(e),
            None => doc.get("exec"),
        };
        let build = give_mode(merge(doc.get("build"), member_of(over, "build")), mode);
        match check_cache(&build) {
            Some(p) => {
                proof {
                    lemma_refused_early(doc@, all, i + 1);
                }
                return Err(p);
            },
            None => {},
        }
        let g = resolve_one(doc, name.as_str(), over, build);
        let ghost was = out@;
        let ghost known = declared@;
        proof {
            if tidy(doc@) {
                assert(tidy(all[i as int]));
                assert(tidy(JsonView::Object(members_view(over@))));
                lemma_tidy_resolved(doc@, name@, members_view(over@));
            }
        }
        out.push(g);
        declared.push(name);
        proof {
            lemma_items(was);
            lemma_items(out@);
            assert(items_view(out@) =~= items_view(was).push(g@));
            assert(texts(declared@) =~= texts(known).push(name@));
            assert(entry_names(upto) =~= entry_names(all.take(i as int)).push(name@));
        }
        i += 1;
    }
    assert(all.take(entries@.len() as int) =~= all);
    Ok(out)
}

}
