//! Structured documents: the tree that JSON, YAML and TOML texts are read into.
use vstd::prelude::*;
use vstd::string::*;

use crate::dict::{ascending, distinct_names, find, lemma_place_ascending, lemma_place_values, place};
use crate::scan::comes_before;
use crate::text::same;

verus! {

/// A number that is not an integer, as it was read. Only reading a document
/// makes one.
pub struct Fraction(serde_json::Number);

/// A document. Numbers that are not integers are carried through as they are.
pub enum Json {
    Null,
    Bool(bool),
    Int(i128),
    Other(Fraction),
    Str(String),
    Array(Vec<Json>),
    Object(Vec<(String, Json)>),
}

/// What a document holds.
pub enum JsonView {
    Null,
    Bool(bool),
    Int(i128),
    Other(Fraction),
    Str(Seq<char>),
    Array(Seq<JsonView>),
    Object(Seq<(Seq<char>, JsonView)>),
}

pub open spec fn items_view(items: Seq<Json>) -> Seq<JsonView>
    decreases items,
{
    if items.len() == 0 {
        Seq::empty()
    } else {
        items_view(items.drop_last()).push(items.last().view())
    }
}

pub open spec fn members_view(members: Seq<(String, Json)>) -> Seq<(Seq<char>, JsonView)>
    decreases members,
{
    if members.len() == 0 {
        Seq::empty()
    } else {
        members_view(members.drop_last()).push((members.last().0@, members.last().1.view()))
    }
}

impl Json {
    pub open spec fn view(&self) -> JsonView
        decreases *self,
    {
        match self {
            Json::Null => JsonView::Null,
            Json::Bool(b) => JsonView::Bool(*b),
            Json::Int(n) => JsonView::Int(*n),
            Json::Other(n) => JsonView::Other(*n),
            Json::Str(s) => JsonView::Str(s@),
            Json::Array(v) => JsonView::Array(items_view(v@)),
            Json::Object(m) => JsonView::Object(members_view(m@)),
        }
    }
}

pub proof fn lemma_items(items: Seq<Json>)
    ensures
        items_view(items).len() == items.len(),
        forall|i: int| 0 <= i < items.len() ==> #[trigger] items_view(items)[i] == items[i]@,
    decreases items.len(),
{
    if items.len() > 0 {
        lemma_items(items.drop_last());
    }
}

pub proof fn lemma_members(members: Seq<(String, Json)>)
    ensures
        members_view(members).len() == members.len(),
        forall|i: int|
            0 <= i < members.len() ==> #[trigger] members_view(members)[i] == (
                members[i].0@,
                members[i].1@,
            ),
    decreases members.len(),
{
    if members.len() > 0 {
        lemma_members(members.drop_last());
    }
}

// ---------------------------------------------------------------------------
// Reading a tree
// ---------------------------------------------------------------------------

/// The member of a document with this name; what is not an object has none.
pub open spec fn member(j: JsonView, key: Seq<char>) -> Option<JsonView> {
    match j {
        JsonView::Object(m) => find(m, key),
        _ => None,
    }
}

/// The text that a document is, if it is one.
pub open spec fn text_in(j: JsonView) -> Option<Seq<char>> {
    match j {
        JsonView::Str(s) => Some(s),
        _ => None,
    }
}

/// The unsigned number that a document is, if it is one of 64 bits.
pub open spec fn uint_in(j: JsonView) -> Option<u64> {
    match j {
        JsonView::Int(n) => if 0 <= n <= u64::MAX {
            Some(n as u64)
        } else {
            None
        },
        _ => None,
    }
}

/// The items of a document that is an array.
pub open spec fn items_in(j: JsonView) -> Option<Seq<JsonView>> {
    match j {
        JsonView::Array(a) => Some(a),
        _ => None,
    }
}

/// The members of a document that is an object.
pub open spec fn members_in(j: JsonView) -> Option<Seq<(Seq<char>, JsonView)>> {
    match j {
        JsonView::Object(m) => Some(m),
        _ => None,
    }
}

/// The text of the member with this name, if that member is a text.
pub open spec fn text_at(j: JsonView, key: Seq<char>) -> Option<Seq<char>> {
    match member(j, key) {
        Some(v) => text_in(v),
        None => None,
    }
}

/// The unsigned number of the member with this name, if that member is one.
pub open spec fn uint_at(j: JsonView, key: Seq<char>) -> Option<u64> {
    match member(j, key) {
        Some(v) => uint_in(v),
        None => None,
    }
}

/// The index of the first member with this name.
pub fn index_of_member(members: &Vec<(String, Json)>, key: &str) -> (r: Option<usize>)
    ensures
        match r {
            Some(i) => i < members@.len() && members@[i as int].0@ == key@ && find(
                members_view(members@),
                key@,
            ) == Some(members@[i as int].1@),
            None => find(members_view(members@), key@) is None && forall|i: int|
                0 <= i < members@.len() ==> (#[trigger] members@[i]).0@ != key@,
        },
{
    let ghost all = members_view(members@);
    proof {
        lemma_members(members@);
    }
    let mut i: usize = 0;
    assert(all.skip(0) =~= all);
    while i < members.len()
        invariant
            i <= members@.len(),
            all == members_view(members@),
            all.len() == members@.len(),
            forall|j: int|
                0 <= j < members@.len() ==> #[trigger] all[j] == (members@[j].0@, members@[j].1@),
            find(all, key@) == find(all.skip(i as int), key@),
            forall|j: int| 0 <= j < i ==> (#[trigger] members@[j]).0@ != key@,
        decreases members@.len() - i,
    {
        assert(all[i as int] == (members@[i as int].0@, members@[i as int].1@));
        assert(all.skip(i as int)[0] == all[i as int]);
        if same(members[i].0.as_str(), key) {
            return Some(i);
        }
        assert(all.skip(i as int).skip(1) =~= all.skip(i + 1));
        i += 1;
    }
    None
}

impl Json {
    /// The member with this name.
    pub fn get(&self, key: &str) -> (r: Option<&Json>)
        ensures
            match r {
                Some(v) => member(self@, key@) == Some(v@),
                None => member(self@, key@) is None,
            },
    {
        match self {
            Json::Object(m) => match index_of_member(m, key) {
                Some(i) => Some(&m[i].1),
                None => None,
            },
            _ => None,
        }
    }

    pub fn as_text(&self) -> (r: Option<&String>)
        ensures
            match r {
                Some(s) => text_in(self@) == Some(s@),
                None => text_in(self@) is None,
            },
    {
        match self {
            Json::Str(s) => Some(s),
            _ => None,
        }
    }

    pub fn as_uint(&self) -> (r: Option<u64>)
        ensures
            r == uint_in(self@),
    {
        match self {
            Json::Int(n) => if 0 <= *n && *n <= 0xffff_ffff_ffff_ffff {
                Some(*n as u64)
            } else {
                None
            },
            _ => None,
        }
    }

    pub fn as_items(&self) -> (r: Option<&Vec<Json>>)
        ensures
            match r {
                Some(v) => items_in(self@) == Some(items_view(v@)),
                None => items_in(self@) is None,
            },
    {
        match self {
            Json::Array(v) => Some(v),
            _ => None,
        }
    }

    pub fn as_members(&self) -> (r: Option<&Vec<(String, Json)>>)
        ensures
            match r {
                Some(v) => members_in(self@) == Some(members_view(v@)),
                None => members_in(self@) is None,
            },
    {
        match self {
            Json::Object(v) => Some(v),
            _ => None,
        }
    }

    /// The text of the member with this name, if that member is a text.
    pub fn get_text(&self, key: &str) -> (r: Option<&String>)
        ensures
            match r {
                Some(s) => text_at(self@, key@) == Some(s@),
                None => text_at(self@, key@) is None,
            },
    {
        match self.get(key) {
            Some(v) => v.as_text(),
            None => None,
        }
    }

    /// The unsigned number of the member with this name, if that member is one.
    pub fn get_uint(&self, key: &str) -> (r: Option<u64>)
        ensures
            r == uint_at(self@, key@),
    {
        match self.get(key) {
            Some(v) => v.as_uint(),
            None => None,
        }
    }

    /// Another document that holds the same.
    pub fn copy(&self) -> (r: Json)
        ensures
            r@ == self@,
        decreases *self,
    {
        match self {
            Json::Null => Json::Null,
            Json::Bool(b) => Json::Bool(*b),
            Json::Int(n) => Json::Int(*n),
            Json::Other(n) => Json::Other(Fraction(n.0.clone())),
            Json::Str(s) => Json::Str(s.clone()),
            Json::Array(v) => {
                let mut out: Vec<Json> = Vec::new();
                let mut i: usize = 0;
                while i < v.len()
                    invariant
                        *self == Json::Array(*v),
                        i <= v@.len(),
                        out@.len() == i,
                        forall|j: int| 0 <= j < i ==> (#[trigger] out@[j])@ == v@[j]@,
                    decreases v@.len() - i,
                {
                    proof {
                        assert(decreases_to!(*self => self->Array_0));
                        assert(decreases_to!(*v => v@));
                        assert(decreases_to!(v@ => v@[i as int]));
                    }
                    out.push(v[i].copy());
                    i += 1;
                }
                proof {
                    lemma_items(v@);
                    lemma_items(out@);
                    assert(items_view(out@) =~= items_view(v@));
                }
                Json::Array(out)
            },
            Json::Object(m) => {
                let mut out: Vec<(String, Json)> = Vec::new();
                let mut i: usize = 0;
                while i < m.len()
                    invariant
                        *self == Json::Object(*m),
                        i <= m@.len(),
                        out@.len() == i,
                        forall|j: int|
                            0 <= j < i ==> (#[trigger] out@[j]).0@ == m@[j].0@ && out@[j].1@
                                == m@[j].1@,
                    decreases m@.len() - i,
                {
                    let key = m[i].0.clone();
                    proof {
                        assert(decreases_to!(*self => self->Object_0));
                        assert(decreases_to!(*m => m@));
                        assert(decreases_to!(m@ => m@[i as int]));
                        assert(decreases_to!(m@[i as int] => m@[i as int].1));
                    }
                    let value = m[i].1.copy();
                    out.push((key, value));
                    i += 1;
                }
                proof {
                    lemma_members(m@);
                    lemma_members(out@);
                    assert(members_view(out@) =~= members_view(m@));
                }
                Json::Object(out)
            },
        }
    }
}

// ---------------------------------------------------------------------------
// Writing a tree
// ---------------------------------------------------------------------------

/// Set a member.
pub fn set_member(members: &mut Vec<(String, Json)>, key: String, value: Json)
    ensures
        members_view(final(members)@) == place(members_view(old(members)@), key@, value@),
{
    let ghost was = members@;
    let ghost all = members_view(was);
    proof {
        lemma_members(was);
        assert(all.skip(0) =~= all);
        assert(all.take(0) + place(all, key@, value@) =~= place(all, key@, value@));
    }
    let mut i: usize = 0;
    while i < members.len()
        invariant
            i <= members@.len(),
            was == old(members)@,
            members@ == was,
            all == members_view(was),
            all.len() == was.len(),
            forall|j: int| 0 <= j < was.len() ==> #[trigger] all[j] == (was[j].0@, was[j].1@),
            place(all, key@, value@) == all.take(i as int) + place(
                all.skip(i as int),
                key@,
                value@,
            ),
        decreases members@.len() - i,
    {
        let ghost rest = all.skip(i as int);
        assert(rest[0] == all[i as int]);
        if same(members[i].0.as_str(), key.as_str()) {
            let ghost now = was.update(i as int, (key, value));
            members[i] = (key, value);
            proof {
                assert(members@ =~= now);
                lemma_members(now);
                assert(members_view(now) =~= all.take(i as int) + (seq![(key@, value@)]
                    + rest.skip(1)));
            }
            return;
        }
        if comes_before(key.as_str(), members[i].0.as_str()) {
            let ghost now = was.insert(i as int, (key, value));
            members.insert(i, (key, value));
            proof {
                lemma_members(now);
                assert(members_view(now) =~= all.take(i as int) + (seq![(key@, value@)] + rest));
            }
            return;
        }
        proof {
            assert(rest.skip(1) =~= all.skip(i + 1));
            assert(all.take(i as int) + (seq![rest[0]] + place(rest.skip(1), key@, value@))
                =~= all.take(i + 1) + place(all.skip(i + 1), key@, value@));
        }
        i += 1;
    }
    let ghost now = was.push((key, value));
    members.push((key, value));
    proof {
        lemma_members(now);
        assert(all.skip(i as int) =~= Seq::empty());
        assert(members_view(now) =~= all.take(i as int) + seq![(key@, value@)]);
    }
}

// ---------------------------------------------------------------------------
// Texts and trees
// ---------------------------------------------------------------------------

/// `serde_json::Number`.
#[verifier::external_type_specification]
#[verifier::external_body]
pub struct ExNumber(serde_json::Number);

/// `serde_json::Number::clone` gives the same number.
pub assume_specification[ <serde_json::Number as Clone>::clone ](
    n: &serde_json::Number,
) -> (r: serde_json::Number)
    ensures
        r == *n,
;

/// `serde_json::Value`.
#[verifier::external_type_specification]
#[verifier::external_body]
pub struct ExValue(serde_json::Value);

/// What a `serde_json::Value` holds, as a tree.
pub uninterp spec fn value_tree(v: serde_json::Value) -> JsonView;

/// What `serde_json::from_str` reads: a tree, or the text of its error.
pub uninterp spec fn json_reads(text: Seq<char>) -> Result<JsonView, Seq<char>>;

/// What `serde_yaml_ng::from_str` reads: a tree, or the text of its error.
pub uninterp spec fn yaml_reads(text: Seq<char>) -> Result<JsonView, Seq<char>>;

/// What `toml::from_str` reads: a tree, or the text of its error.
pub uninterp spec fn toml_reads(text: Seq<char>) -> Result<JsonView, Seq<char>>;

/// What `serde_json::to_string_pretty` writes: a text, or the text of its error.
pub uninterp spec fn pretty_writes(j: JsonView) -> Result<Seq<char>, Seq<char>>;

/// A tree that a `serde_json::Value` can hold as it is: integers of 64 bits,
/// and the names of an object each once.
pub open spec fn fit(j: JsonView) -> bool
    decreases j,
{
    match j {
        JsonView::Int(n) => i64::MIN <= n <= u64::MAX,
        JsonView::Array(a) => forall|i: int| 0 <= i < a.len() ==> fit(#[trigger] a[i]),
        JsonView::Object(m) => distinct_names(m) && forall|i: int|
            0 <= i < m.len() ==> fit((#[trigger] m[i]).1),
        _ => true,
    }
}

/// A fit tree in which the names of every object stand in ascending order.
pub open spec fn tidy(j: JsonView) -> bool
    decreases j,
{
    match j {
        JsonView::Int(n) => i64::MIN <= n <= u64::MAX,
        JsonView::Array(a) => forall|i: int| 0 <= i < a.len() ==> tidy(#[trigger] a[i]),
        JsonView::Object(m) => ascending(m) && forall|i: int|
            0 <= i < m.len() ==> tidy((#[trigger] m[i]).1),
        _ => true,
    }
}

pub proof fn lemma_tidy_fit(j: JsonView)
    requires
        tidy(j),
    ensures
        fit(j),
    decreases j,
{
    match j {
        JsonView::Array(a) => {
            assert forall|i: int| 0 <= i < a.len() implies fit(#[trigger] a[i]) by {
                lemma_tidy_fit(a[i]);
            }
        },
        JsonView::Object(m) => {
            crate::dict::lemma_ascending_distinct(m);
            assert forall|i: int| 0 <= i < m.len() implies fit((#[trigger] m[i]).1) by {
                lemma_tidy_fit(m[i].1);
            }
        },
        _ => {},
    }
}

/// The same tree with the names of every object in ascending order.
pub open spec fn tidied(j: JsonView) -> JsonView
    decreases j,
{
    match j {
        JsonView::Array(a) => JsonView::Array(tidied_items(a)),
        JsonView::Object(m) => JsonView::Object(tidied_members(m)),
        _ => j,
    }
}

pub open spec fn tidied_items(a: Seq<JsonView>) -> Seq<JsonView>
    decreases a,
{
    if a.len() == 0 {
        Seq::empty()
    } else {
        tidied_items(a.drop_last()).push(tidied(a.last()))
    }
}

pub open spec fn tidied_members(m: Seq<(Seq<char>, JsonView)>) -> Seq<(Seq<char>, JsonView)>
    decreases m,
{
    if m.len() == 0 {
        Seq::empty()
    } else {
        place(tidied_members(m.drop_last()), m.last().0, tidied(m.last().1))
    }
}

pub proof fn lemma_tidied(j: JsonView)
    requires
        fit(j),
    ensures
        tidy(tidied(j)),
    decreases j, 1int,
{
    match j {
        JsonView::Array(a) => {
            lemma_tidied_items(a);
            let t = tidied_items(a);
            assert(tidied(j) == JsonView::Array(t));
            assert forall|i: int| 0 <= i < t.len() implies tidy(#[trigger] t[i]) by {}
        },
        JsonView::Object(m) => lemma_tidied_members(m),
        _ => {},
    }
}

proof fn lemma_tidied_items(a: Seq<JsonView>)
    requires
        forall|i: int| 0 <= i < a.len() ==> fit(#[trigger] a[i]),
    ensures
        forall|i: int| 0 <= i < tidied_items(a).len() ==> tidy(#[trigger] tidied_items(a)[i]),
    decreases a, 0int,
{
    if a.len() > 0 {
        let rest = a.drop_last();
        assert(forall|i: int| 0 <= i < rest.len() ==> #[trigger] rest[i] == a[i]);
        lemma_tidied_items(rest);
        assert(fit(a[a.len() - 1]));
        lemma_tidied(a.last());
        let before = tidied_items(rest);
        let t = tidied_items(a);
        assert(t == before.push(tidied(a.last())));
        assert forall|i: int| 0 <= i < t.len() implies tidy(#[trigger] t[i]) by {
            if i < before.len() {
                assert(t[i] == before[i]);
            }
        }
    }
}

proof fn lemma_tidied_members(m: Seq<(Seq<char>, JsonView)>)
    requires
        forall|i: int| 0 <= i < m.len() ==> fit((#[trigger] m[i]).1),
    ensures
        ascending(tidied_members(m)),
        forall|i: int|
            0 <= i < tidied_members(m).len() ==> tidy((#[trigger] tidied_members(m)[i]).1),
    decreases m, 0int,
{
    if m.len() > 0 {
        let rest = m.drop_last();
        assert(forall|i: int| 0 <= i < rest.len() ==> #[trigger] rest[i] == m[i]);
        lemma_tidied_members(rest);
        assert(fit(m[m.len() - 1].1));
        lemma_tidied(m.last().1);
        let t = tidied_members(rest);
        let v = tidied(m.last().1);
        lemma_place_ascending(t, m.last().0, v);
        lemma_place_values(t, m.last().0, v);
        let p = place(t, m.last().0, v);
        assert forall|i: int| 0 <= i < p.len() implies tidy((#[trigger] p[i]).1) by {
            if p[i].1 != v {
                let k = choose|k: int| 0 <= k < t.len() && (#[trigger] t[k]).1 == p[i].1;
                assert(tidy(t[k].1));
            }
        }
    }
}

impl Json {
    /// The same tree with the names of every object in ascending order.
    pub fn tidy_up(&self) -> (r: Json)
        ensures
            r@ == tidied(self@),
        decreases *self,
    {
        match self {
            Json::Array(v) => {
                let mut out: Vec<Json> = Vec::new();
                let ghost all = items_view(v@);
                let mut i: usize = 0;
                proof {
                    lemma_items(v@);
                    assert(items_view(out@) =~= tidied_items(all.take(0)));
                }
                while i < v.len()
                    invariant
                        *self == Json::Array(*v),
                        i <= v@.len(),
                        all == items_view(v@),
                        all.len() == v@.len(),
                        forall|j: int| 0 <= j < v@.len() ==> #[trigger] all[j] == v@[j]@,
                        items_view(out@) == tidied_items(all.take(i as int)),
                    decreases v@.len() - i,
                {
                    proof {
                        assert(decreases_to!(*self => self->Array_0));
                        assert(decreases_to!(*v => v@));
                        assert(decreases_to!(v@ => v@[i as int]));
                        assert(all.take(i + 1).drop_last() =~= all.take(i as int));
                    }
                    let ghost was = out@;
                    out.push(v[i].tidy_up());
                    assert(out@.drop_last() =~= was);
                    i += 1;
                }
                assert(all.take(v@.len() as int) =~= all);
                Json::Array(out)
            },
            Json::Object(m) => {
                let mut out: Vec<(String, Json)> = Vec::new();
                let ghost all = members_view(m@);
                let mut i: usize = 0;
                proof {
                    lemma_members(m@);
                    assert(members_view(out@) =~= tidied_members(all.take(0)));
                }
                while i < m.len()
                    invariant
                        *self == Json::Object(*m),
                        i <= m@.len(),
                        all == members_view(m@),
                        all.len() == m@.len(),
                        forall|j: int|
                            0 <= j < m@.len() ==> #[trigger] all[j] == (m@[j].0@, m@[j].1@),
                        members_view(out@) == tidied_members(all.take(i as int)),
                    decreases m@.len() - i,
                {
                    let key = m[i].0.clone();
                    proof {
                        assert(decreases_to!(*self => self->Object_0));
                        assert(decreases_to!(*m => m@));
                        assert(decreases_to!(m@ => m@[i as int]));
                        assert(decreases_to!(m@[i as int] => m@[i as int].1));
                        assert(all.take(i + 1).drop_last() =~= all.take(i as int));
                    }
                    let value = m[i].1.tidy_up();
                    set_member(&mut out, key, value);
                    i += 1;
                }
                assert(all.take(m@.len() as int) =~= all);
                Json::Object(out)
            },
            _ => self.copy(),
        }
    }
}

/// A fit tree without fractions, no deeper than `depth`.
pub open spec fn plain(j: JsonView, depth: nat) -> bool
    decreases depth,
{
    match j {
        JsonView::Null | JsonView::Bool(_) | JsonView::Str(_) => true,
        JsonView::Int(n) => i64::MIN <= n <= u64::MAX,
        JsonView::Other(_) => false,
        JsonView::Array(a) => depth > 0 && forall|i: int|
            0 <= i < a.len() ==> plain(#[trigger] a[i], (depth - 1) as nat),
        JsonView::Object(m) => depth > 0 && distinct_names(m) && forall|i: int|
            0 <= i < m.len() ==> plain((#[trigger] m[i]).1, (depth - 1) as nat),
    }
}

pub proof fn lemma_plain_fit(j: JsonView, depth: nat)
    requires
        plain(j, depth),
    ensures
        fit(j),
    decreases depth,
{
    match j {
        JsonView::Array(a) => {
            assert forall|i: int| 0 <= i < a.len() implies fit(#[trigger] a[i]) by {
                lemma_plain_fit(a[i], (depth - 1) as nat);
            }
        },
        JsonView::Object(m) => {
            assert forall|i: int| 0 <= i < m.len() implies fit((#[trigger] m[i]).1) by {
                lemma_plain_fit(m[i].1, (depth - 1) as nat);
            }
        },
        _ => {},
    }
}

/// How deep a tree may be and still be read back by `serde_json::from_str`,
/// which refuses a text nested 128 deep.
pub const READ_DEPTH: u8 = 100;

/// Turns a `serde_json::Value` into a tree, item by item and member by member:
/// an integer becomes `Int`, any other number is carried over, and the members
/// come in the order in which the `Map` holds them. What comes out is fit,
/// because a `Number` holds integers of 64 bits only and a `Map` keeps each name
/// once.
#[verifier::external_body]
pub(crate) fn open_value(v: serde_json::Value) -> (r: Json)
    ensures
        r@ == value_tree(v),
        fit(r@),
{
    match v {
        serde_json::Value::Null => Json::Null,
        serde_json::Value::Bool(b) => Json::Bool(b),
        serde_json::Value::Number(n) => match n.as_i128() {
            Some(i) => Json::Int(i),
            None => Json::Other(Fraction(n)),
        },
        serde_json::Value::String(s) => Json::Str(s),
        serde_json::Value::Array(a) => Json::Array(a.into_iter().map(open_value).collect()),
        serde_json::Value::Object(o) => {
            Json::Object(o.into_iter().map(|(k, v)| (k, open_value(v))).collect())
        },
    }
}

/// Turns a fit tree into the `serde_json::Value` that holds it, the other way
/// round. `Number::from_i128` takes every integer of 64 bits, and a `Map` keeps
/// its members in the order in which they came (feature `preserve_order`).
#[verifier::external_body]
pub(crate) fn make_value(j: &Json) -> (r: serde_json::Value)
    requires
        fit(j@),
    ensures
        value_tree(r) == j@,
{
    match j {
        Json::Null => serde_json::Value::Null,
        Json::Bool(b) => serde_json::Value::Bool(*b),
        Json::Int(n) => serde_json::Number::from_i128(*n).into(),
        Json::Other(n) => serde_json::Value::Number(n.0.clone()),
        Json::Str(s) => serde_json::Value::String(s.clone()),
        Json::Array(a) => a.iter().map(make_value).collect(),
        Json::Object(m) => m.iter().map(|(k, v)| (k.clone(), make_value(v))).collect(),
    }
}

/// `serde_json::from_str` into a `serde_json::Value`. The result is named.
#[verifier::external_body]
pub(crate) fn value_from_json(text: &str) -> (r: Result<serde_json::Value, String>)
    ensures
        match r {
            Ok(v) => json_reads(text@) == Ok::<JsonView, Seq<char>>(value_tree(v)),
            Err(m) => json_reads(text@) == Err::<JsonView, Seq<char>>(m@),
        },
{
    serde_json::from_str::<serde_json::Value>(text).map_err(|e| e.to_string())
}

/// `serde_yaml_ng::from_str` into a `serde_json::Value`. The result is named.
#[verifier::external_body]
pub(crate) fn value_from_yaml(text: &str) -> (r: Result<serde_json::Value, String>)
    ensures
        match r {
            Ok(v) => yaml_reads(text@) == Ok::<JsonView, Seq<char>>(value_tree(v)),
            Err(m) => yaml_reads(text@) == Err::<JsonView, Seq<char>>(m@),
        },
{
    serde_yaml_ng::from_str::<serde_json::Value>(text).map_err(|e| e.to_string())
}

/// `toml::from_str` into a `serde_json::Value`. The result is named.
#[verifier::external_body]
pub(crate) fn value_from_toml(text: &str) -> (r: Result<serde_json::Value, String>)
    ensures
        match r {
            Ok(v) => toml_reads(text@) == Ok::<JsonView, Seq<char>>(value_tree(v)),
            Err(m) => toml_reads(text@) == Err::<JsonView, Seq<char>>(m@),
        },
{
    toml::from_str::<serde_json::Value>(text).map_err(|e| e.to_string())
}

/// `serde_json::to_string_pretty`. The result is named; of a plain tree it is a
/// text, and `serde_json::from_str` reads the same tree back from it.
#[verifier::external_body]
pub(crate) fn pretty_value(v: &serde_json::Value) -> (r: Result<String, String>)
    ensures
        match r {
            Ok(t) => pretty_writes(value_tree(*v)) == Ok::<Seq<char>, Seq<char>>(t@),
            Err(m) => pretty_writes(value_tree(*v)) == Err::<Seq<char>, Seq<char>>(m@),
        },
        plain(value_tree(*v), READ_DEPTH as nat) ==> r is Ok && json_reads(r->Ok_0@) is Ok
            && json_reads(r->Ok_0@)->Ok_0 == value_tree(*v),
{
    serde_json::to_string_pretty(v).map_err(|e| e.to_string())
}

/// The tree in a JSON text, or why it is none.
pub fn read_json(text: &str) -> (r: Result<Json, String>)
    ensures
        match r {
            Ok(j) => json_reads(text@) == Ok::<JsonView, Seq<char>>(j@) && fit(j@),
            Err(m) => json_reads(text@) == Err::<JsonView, Seq<char>>(m@),
        },
{
    match value_from_json(text) {
        Ok(v) => Ok(open_value(v)),
        Err(m) => Err(m),
    }
}

/// The tree in a YAML text, or why it is none.
pub fn read_yaml(text: &str) -> (r: Result<Json, String>)
    ensures
        match r {
            Ok(j) => yaml_reads(text@) == Ok::<JsonView, Seq<char>>(j@) && fit(j@),
            Err(m) => yaml_reads(text@) == Err::<JsonView, Seq<char>>(m@),
        },
{
    match value_from_yaml(text) {
        Ok(v) => Ok(open_value(v)),
        Err(m) => Err(m),
    }
}

/// The tree in a TOML text, or why it is none.
pub fn read_toml(text: &str) -> (r: Result<Json, String>)
    ensures
        match r {
            Ok(j) => toml_reads(text@) == Ok::<JsonView, Seq<char>>(j@) && fit(j@),
            Err(m) => toml_reads(text@) == Err::<JsonView, Seq<char>>(m@),
        },
{
    match value_from_toml(text) {
        Ok(v) => Ok(open_value(v)),
        Err(m) => Err(m),
    }
}

/// A tree as a JSON text laid out for people.
pub fn write_pretty(j: &Json) -> (r: Result<String, String>)
    requires
        fit(j@),
    ensures
        match r {
            Ok(t) => pretty_writes(j@) == Ok::<Seq<char>, Seq<char>>(t@),
            Err(m) => pretty_writes(j@) == Err::<Seq<char>, Seq<char>>(m@),
        },
        plain(j@, READ_DEPTH as nat) ==> r is Ok && json_reads(r->Ok_0@) is Ok && json_reads(
            r->Ok_0@,
        )->Ok_0 == j@,
{
    let v = make_value(j);
    pretty_value(&v)
}

}
