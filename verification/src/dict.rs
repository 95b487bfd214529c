//! Values under names, kept in the order of the names.
use vstd::prelude::*;
use vstd::string::*;

use crate::scan::{before, comes_before, lemma_before_strict, lemma_before_total, lemma_before_transitive};
use crate::text::same;

verus! {

/// The value under a name.
pub open spec fn find<V>(pairs: Seq<(Seq<char>, V)>, key: Seq<char>) -> Option<V>
    decreases pairs.len(),
{
    if pairs.len() == 0 {
        None
    } else if pairs[0].0 == key {
        Some(pairs[0].1)
    } else {
        find(pairs.skip(1), key)
    }
}

/// The pairs with one value set: in the place of the one under that name, or
/// before the first that the name precedes.
pub open spec fn place<V>(pairs: Seq<(Seq<char>, V)>, key: Seq<char>, value: V) -> Seq<
    (Seq<char>, V),
>
    decreases pairs.len(),
{
    if pairs.len() == 0 {
        seq![(key, value)]
    } else if pairs[0].0 == key {
        seq![(key, value)] + pairs.skip(1)
    } else if before(key, pairs[0].0) {
        seq![(key, value)] + pairs
    } else {
        seq![pairs[0]] + place(pairs.skip(1), key, value)
    }
}

/// The pairs without the one under a name.
pub open spec fn without<V>(pairs: Seq<(Seq<char>, V)>, key: Seq<char>) -> Seq<(Seq<char>, V)>
    decreases pairs.len(),
{
    if pairs.len() == 0 {
        pairs
    } else if pairs[0].0 == key {
        pairs.skip(1)
    } else {
        seq![pairs[0]] + without(pairs.skip(1), key)
    }
}

/// The names stand in strictly ascending order.
pub open spec fn ascending<V>(pairs: Seq<(Seq<char>, V)>) -> bool {
    forall|i: int, j: int|
        0 <= i < j < pairs.len() ==> before(#[trigger] pairs[i].0, #[trigger] pairs[j].0)
}

/// No name stands twice.
pub open spec fn distinct_names<V>(pairs: Seq<(Seq<char>, V)>) -> bool {
    forall|i: int, j: int|
        0 <= i < j < pairs.len() ==> (#[trigger] pairs[i]).0 != (#[trigger] pairs[j]).0
}

pub proof fn lemma_ascending_distinct<V>(pairs: Seq<(Seq<char>, V)>)
    requires
        ascending(pairs),
    ensures
        distinct_names(pairs),
{
    assert forall|i: int, j: int| 0 <= i < j < pairs.len() implies (#[trigger] pairs[i]).0 != (
    #[trigger] pairs[j]).0 by {
        lemma_before_strict(pairs[i].0, pairs[j].0);
    }
}

/// Where no name stands twice, a name is found where it stands.
pub proof fn lemma_find_distinct<V>(pairs: Seq<(Seq<char>, V)>, i: int)
    requires
        distinct_names(pairs),
        0 <= i < pairs.len(),
    ensures
        find(pairs, pairs[i].0) == Some(pairs[i].1),
    decreases pairs.len(),
{
    if i > 0 {
        let rest = pairs.skip(1);
        assert forall|a: int, b: int| 0 <= a < b < rest.len() implies (#[trigger] rest[a]).0 != (
        #[trigger] rest[b]).0 by {
            assert(rest[a] == pairs[a + 1] && rest[b] == pairs[b + 1]);
        }
        assert(rest[i - 1] == pairs[i]);
        lemma_find_distinct(rest, i - 1);
    }
}

/// The names, in order.
pub open spec fn names<V>(pairs: Seq<(Seq<char>, V)>) -> Seq<Seq<char>> {
    pairs.map_values(|p: (Seq<char>, V)| p.0)
}

/// What was set is found, and every other name holds what it held.
pub proof fn lemma_place_find<V>(
    pairs: Seq<(Seq<char>, V)>,
    key: Seq<char>,
    value: V,
    other: Seq<char>,
)
    ensures
        find(place(pairs, key, value), other) == (if other == key {
            Some(value)
        } else {
            find(pairs, other)
        }),
    decreases pairs.len(),
{
    let placed = place(pairs, key, value);
    if pairs.len() == 0 {
        assert(placed.skip(1) =~= Seq::empty());
        assert(find(placed.skip(1), other) is None);
    } else if pairs[0].0 == key {
        assert(placed.skip(1) =~= pairs.skip(1));
    } else if before(key, pairs[0].0) {
        assert(placed.skip(1) =~= pairs);
    } else {
        lemma_place_find(pairs.skip(1), key, value, other);
        assert(placed.skip(1) =~= place(pairs.skip(1), key, value));
    }
}

proof fn lemma_place_among<V>(pairs: Seq<(Seq<char>, V)>, key: Seq<char>, value: V)
    ensures
        place(pairs, key, value).len() >= 1,
        forall|i: int|
            0 <= i < place(pairs, key, value).len() ==> (#[trigger] place(pairs, key, value)[i]).0
                == key || exists|j: int|
                0 <= j < pairs.len() && (#[trigger] pairs[j]).0 == place(pairs, key, value)[i].0,
    decreases pairs.len(),
{
    let placed = place(pairs, key, value);
    if pairs.len() > 0 && pairs[0].0 != key && !before(key, pairs[0].0) {
        let rest = pairs.skip(1);
        lemma_place_among(rest, key, value);
        assert forall|i: int| 0 <= i < placed.len() implies (#[trigger] placed[i]).0 == key
            || exists|j: int| 0 <= j < pairs.len() && (#[trigger] pairs[j]).0 == placed[i].0 by {
            if i == 0 {
                assert(pairs[0].0 == placed[0].0);
            } else {
                let inner = place(rest, key, value);
                assert(placed[i] == inner[i - 1]);
                if inner[i - 1].0 != key {
                    let j = choose|j: int| 0 <= j < rest.len() && (#[trigger] rest[j]).0
                        == inner[i - 1].0;
                    assert(pairs[j + 1] == rest[j]);
                }
            }
        }
    } else if pairs.len() > 0 {
        assert forall|i: int| 0 <= i < placed.len() implies (#[trigger] placed[i]).0 == key
            || exists|j: int| 0 <= j < pairs.len() && (#[trigger] pairs[j]).0 == placed[i].0 by {
            if i > 0 {
                if pairs[0].0 == key {
                    assert(placed[i] == pairs[i]);
                } else {
                    assert(placed[i] == pairs[i - 1]);
                }
            }
        }
    }
}

/// Setting a value keeps the order of the names.
pub proof fn lemma_place_ascending<V>(pairs: Seq<(Seq<char>, V)>, key: Seq<char>, value: V)
    requires
        ascending(pairs),
    ensures
        ascending(place(pairs, key, value)),
    decreases pairs.len(),
{
    let placed = place(pairs, key, value);
    if pairs.len() == 0 {
    } else if pairs[0].0 == key {
        assert forall|i: int, j: int| 0 <= i < j < placed.len() implies before(
            (#[trigger] placed[i]).0,
            (#[trigger] placed[j]).0,
        ) by {
            assert(placed[i].0 == pairs[i].0 && placed[j].0 == pairs[j].0);
        }
    } else if before(key, pairs[0].0) {
        assert forall|i: int, j: int| 0 <= i < j < placed.len() implies before(
            (#[trigger] placed[i]).0,
            (#[trigger] placed[j]).0,
        ) by {
            assert(placed[j] == pairs[j - 1]);
            if i == 0 {
                if j > 1 {
                    lemma_before_transitive(key, pairs[0].0, pairs[j - 1].0);
                }
            } else {
                assert(placed[i] == pairs[i - 1]);
            }
        }
    } else {
        let rest = pairs.skip(1);
        assert(ascending(rest)) by {
            assert forall|i: int, j: int| 0 <= i < j < rest.len() implies before(
                (#[trigger] rest[i]).0,
                (#[trigger] rest[j]).0,
            ) by {
                assert(rest[i] == pairs[i + 1] && rest[j] == pairs[j + 1]);
            }
        }
        lemma_place_ascending(rest, key, value);
        lemma_place_among(rest, key, value);
        lemma_before_total(key, pairs[0].0);
        let inner = place(rest, key, value);
        assert forall|i: int, j: int| 0 <= i < j < placed.len() implies before(
            (#[trigger] placed[i]).0,
            (#[trigger] placed[j]).0,
        ) by {
            assert(placed[j] == inner[j - 1]);
            if i == 0 {
                if inner[j - 1].0 != key {
                    let k = choose|k: int| 0 <= k < rest.len() && (#[trigger] rest[k]).0
                        == inner[j - 1].0;
                    assert(rest[k] == pairs[k + 1]);
                }
            } else {
                assert(placed[i] == inner[i - 1]);
            }
        }
    }
}

/// The values among which one was set: that one, and values that were there.
pub proof fn lemma_place_values<V>(m: Seq<(Seq<char>, V)>, key: Seq<char>, value: V)
    ensures
        forall|i: int|
            0 <= i < place(m, key, value).len() ==> (#[trigger] place(m, key, value)[i]).1 == value
                || exists|j: int| 0 <= j < m.len() && (#[trigger] m[j]).1 == place(m, key, value)[i].1,
    decreases m.len(),
{
    let p = place(m, key, value);
    if m.len() > 0 {
        let rest = m.skip(1);
        lemma_place_values(rest, key, value);
        assert forall|i: int| 0 <= i < p.len() implies (#[trigger] p[i]).1 == value || exists|j: int|
            0 <= j < m.len() && (#[trigger] m[j]).1 == p[i].1 by {
            if m[0].0 == key {
                if i > 0 {
                    assert(p[i] == m[i]);
                }
            } else if before(key, m[0].0) {
                if i > 0 {
                    assert(p[i] == m[i - 1]);
                }
            } else {
                if i == 0 {
                    assert(p[i] == m[0]);
                } else {
                    let q = place(rest, key, value);
                    assert(p[i] == q[i - 1]);
                    if q[i - 1].1 != value {
                        let j = choose|j: int|
                            0 <= j < rest.len() && (#[trigger] rest[j]).1 == q[i - 1].1;
                        assert(m[j + 1] == rest[j]);
                    }
                }
            }
        }
    }
}

/// In ascending pairs, a name is found exactly where it stands.
pub proof fn lemma_find_at<V>(pairs: Seq<(Seq<char>, V)>, i: int)
    requires
        ascending(pairs),
        0 <= i < pairs.len(),
    ensures
        find(pairs, pairs[i].0) == Some(pairs[i].1),
    decreases pairs.len(),
{
    if i > 0 {
        lemma_before_strict(pairs[0].0, pairs[i].0);
        let rest = pairs.skip(1);
        assert forall|a: int, b: int| 0 <= a < b < rest.len() implies before(
            (#[trigger] rest[a]).0,
            (#[trigger] rest[b]).0,
        ) by {
            assert(rest[a] == pairs[a + 1] && rest[b] == pairs[b + 1]);
        }
        assert(rest[i - 1] == pairs[i]);
        lemma_find_at(rest, i - 1);
    }
}

/// What is found stands somewhere.
pub proof fn lemma_stands<V>(pairs: Seq<(Seq<char>, V)>, key: Seq<char>) -> (i: int)
    requires
        find(pairs, key) is Some,
    ensures
        0 <= i < pairs.len(),
        pairs[i] == (key, find(pairs, key)->0),
    decreases pairs.len(),
{
    if pairs[0].0 == key {
        0
    } else {
        let i = lemma_stands(pairs.skip(1), key);
        assert(pairs.skip(1)[i] == pairs[i + 1]);
        i + 1
    }
}

/// A name is found where it stands somewhere.
pub proof fn lemma_found<V>(pairs: Seq<(Seq<char>, V)>, key: Seq<char>)
    ensures
        find(pairs, key) is Some <==> exists|i: int|
            0 <= i < pairs.len() && (#[trigger] pairs[i]).0 == key,
    decreases pairs.len(),
{
    if pairs.len() > 0 && pairs[0].0 != key {
        let rest = pairs.skip(1);
        lemma_found(rest, key);
        if exists|i: int| 0 <= i < rest.len() && (#[trigger] rest[i]).0 == key {
            let i = choose|i: int| 0 <= i < rest.len() && (#[trigger] rest[i]).0 == key;
            assert(pairs[i + 1] == rest[i]);
        }
        if exists|i: int| 0 <= i < pairs.len() && (#[trigger] pairs[i]).0 == key {
            let i = choose|i: int| 0 <= i < pairs.len() && (#[trigger] pairs[i]).0 == key;
            assert(rest[i - 1] == pairs[i]);
        }
    } else if pairs.len() > 0 {
        assert(pairs[0].0 == key);
    }
}

/// Looking a name up where one more pair stands at the end.
pub proof fn lemma_find_push<V>(pairs: Seq<(Seq<char>, V)>, last: (Seq<char>, V), key: Seq<char>)
    ensures
        find(pairs.push(last), key) == (match find(pairs, key) {
            Some(v) => Some(v),
            None => if last.0 == key {
                Some(last.1)
            } else {
                None
            },
        }),
    decreases pairs.len(),
{
    let more = pairs.push(last);
    if pairs.len() == 0 {
        assert(more.skip(1) =~= Seq::empty());
        assert(find(more.skip(1), key) is None);
    } else if pairs[0].0 != key {
        lemma_find_push(pairs.skip(1), last, key);
        assert(more.skip(1) =~= pairs.skip(1).push(last));
    }
}

/// Taking a name out of ascending pairs keeps the order; the name is then not
/// found, and every other holds what it held.
pub proof fn lemma_without<V>(pairs: Seq<(Seq<char>, V)>, key: Seq<char>, other: Seq<char>)
    requires
        ascending(pairs),
    ensures
        ascending(without(pairs, key)),
        find(without(pairs, key), other) == (if other == key {
            None
        } else {
            find(pairs, other)
        }),
        forall|i: int|
            0 <= i < without(pairs, key).len() ==> exists|j: int|
                0 <= j < pairs.len() && pairs[j] == #[trigger] without(pairs, key)[i],
    decreases pairs.len(),
{
    if pairs.len() > 0 {
        let rest = pairs.skip(1);
        assert forall|a: int, b: int| 0 <= a < b < rest.len() implies before(
            (#[trigger] rest[a]).0,
            (#[trigger] rest[b]).0,
        ) by {
            assert(rest[a] == pairs[a + 1] && rest[b] == pairs[b + 1]);
        }
        lemma_without(rest, key, other);
        let left = without(pairs, key);
        if pairs[0].0 == key {
            lemma_found(rest, key);
            if exists|i: int| 0 <= i < rest.len() && (#[trigger] rest[i]).0 == key {
                let i = choose|i: int| 0 <= i < rest.len() && (#[trigger] rest[i]).0 == key;
                assert(rest[i] == pairs[i + 1]);
                lemma_before_strict(pairs[0].0, pairs[i + 1].0);
            }
            assert forall|i: int| 0 <= i < left.len() implies exists|j: int|
                0 <= j < pairs.len() && pairs[j] == #[trigger] left[i] by {
                assert(pairs[i + 1] == left[i]);
            }
        } else {
            let inner = without(rest, key);
            assert(left.skip(1) =~= inner);
            assert forall|i: int| 0 <= i < left.len() implies exists|j: int|
                0 <= j < pairs.len() && pairs[j] == #[trigger] left[i] by {
                if i == 0 {
                    assert(pairs[0] == left[0]);
                } else {
                    assert(left[i] == inner[i - 1]);
                    let j = choose|j: int| 0 <= j < rest.len() && rest[j] == inner[i - 1];
                    assert(pairs[j + 1] == rest[j]);
                }
            }
            assert forall|a: int, b: int| 0 <= a < b < left.len() implies before(
                (#[trigger] left[a]).0,
                (#[trigger] left[b]).0,
            ) by {
                assert(left[b] == inner[b - 1]);
                if a == 0 {
                    let j = choose|j: int| 0 <= j < rest.len() && rest[j] == inner[b - 1];
                    assert(rest[j] == pairs[j + 1]);
                } else {
                    assert(left[a] == inner[a - 1]);
                }
            }
        }
    }
}

/// The pairs with every value taken as something else.
pub open spec fn mapped<V, W>(pairs: Seq<(Seq<char>, V)>, f: spec_fn(V) -> W) -> Seq<
    (Seq<char>, W),
> {
    pairs.map_values(|p: (Seq<char>, V)| (p.0, f(p.1)))
}

pub proof fn lemma_mapped_find<V, W>(
    pairs: Seq<(Seq<char>, V)>,
    f: spec_fn(V) -> W,
    key: Seq<char>,
)
    ensures
        find(mapped(pairs, f), key) == (match find(pairs, key) {
            Some(v) => Some(f(v)),
            None => None,
        }),
    decreases pairs.len(),
{
    if pairs.len() > 0 {
        lemma_mapped_find(pairs.skip(1), f, key);
        assert(mapped(pairs, f).skip(1) =~= mapped(pairs.skip(1), f));
        assert(mapped(pairs, f)[0] == (pairs[0].0, f(pairs[0].1)));
    }
}

pub proof fn lemma_mapped_place<V, W>(
    pairs: Seq<(Seq<char>, V)>,
    f: spec_fn(V) -> W,
    key: Seq<char>,
    value: V,
)
    ensures
        mapped(place(pairs, key, value), f) == place(mapped(pairs, f), key, f(value)),
    decreases pairs.len(),
{
    let m = mapped(pairs, f);
    if pairs.len() == 0 {
        assert(mapped(place(pairs, key, value), f) =~= seq![(key, f(value))]);
    } else {
        assert(m[0] == (pairs[0].0, f(pairs[0].1)));
        assert(m.skip(1) =~= mapped(pairs.skip(1), f));
        if pairs[0].0 == key {
            assert(mapped(place(pairs, key, value), f) =~= seq![(key, f(value))] + m.skip(1));
        } else if before(key, pairs[0].0) {
            assert(mapped(place(pairs, key, value), f) =~= seq![(key, f(value))] + m);
        } else {
            lemma_mapped_place(pairs.skip(1), f, key, value);
            let rest = place(pairs.skip(1), key, value);
            assert(mapped(seq![pairs[0]] + rest, f) =~= seq![m[0]] + mapped(rest, f));
        }
    }
}

pub proof fn lemma_mapped_without<V, W>(
    pairs: Seq<(Seq<char>, V)>,
    f: spec_fn(V) -> W,
    key: Seq<char>,
)
    ensures
        mapped(without(pairs, key), f) == without(mapped(pairs, f), key),
    decreases pairs.len(),
{
    let m = mapped(pairs, f);
    if pairs.len() == 0 {
        assert(m =~= Seq::empty());
        assert(mapped(without(pairs, key), f) =~= m);
    } else {
        assert(m[0] == (pairs[0].0, f(pairs[0].1)));
        assert(m.skip(1) =~= mapped(pairs.skip(1), f));
        if pairs[0].0 != key {
            lemma_mapped_without(pairs.skip(1), f, key);
            let rest = without(pairs.skip(1), key);
            assert(mapped(seq![pairs[0]] + rest, f) =~= seq![m[0]] + mapped(rest, f));
        } else {
            assert(mapped(pairs.skip(1), f) =~= m.skip(1));
        }
    }
}

/// Texts under names, as they read.
pub open spec fn text_pairs(pairs: Seq<(Seq<char>, String)>) -> Seq<(Seq<char>, Seq<char>)> {
    mapped(pairs, |s: String| s@)
}

/// Values under names, each name once.
pub struct Dict<V> {
    entries: Vec<(String, V)>,
}

impl<V> Dict<V> {
    #[verifier::type_invariant]
    spec fn in_order(self) -> bool {
        ascending(self@)
    }

    /// The names with their values, in the order of the names.
    pub closed spec fn view(&self) -> Seq<(Seq<char>, V)> {
        self.entries@.map_values(|e: (String, V)| (e.0@, e.1))
    }

    pub fn new() -> (r: Dict<V>)
        ensures
            r@ == Seq::<(Seq<char>, V)>::empty(),
    {
        let d = Dict { entries: Vec::new() };
        assert(d@ =~= Seq::<(Seq<char>, V)>::empty());
        d
    }

    pub fn len(&self) -> (r: usize)
        ensures
            r == self@.len(),
    {
        self.entries.len()
    }

    pub fn key(&self, i: usize) -> (r: &String)
        requires
            i < self@.len(),
        ensures
            r@ == self@[i as int].0,
    {
        &self.entries[i].0
    }

    pub fn value(&self, i: usize) -> (r: &V)
        requires
            i < self@.len(),
        ensures
            *r == self@[i as int].1,
    {
        &self.entries[i].1
    }

    /// The names are in order.
    pub fn ordered(&self)
        ensures
            ascending(self@),
    {
        proof {
            use_type_invariant(self);
        }
    }

    fn index(&self, key: &str) -> (r: Option<usize>)
        ensures
            match r {
                Some(i) => i < self@.len() && self@[i as int].0 == key@ && find(self@, key@)
                    == Some(self@[i as int].1) && without(self@, key@) == self@.remove(i as int),
                None => find(self@, key@) is None && without(self@, key@) == self@,
            },
    {
        let mut i: usize = 0;
        let ghost all = self@;
        assert(all.skip(0) =~= all);
        assert(all.take(0) + without(all, key@) =~= without(all, key@));
        while i < self.entries.len()
            invariant
                i <= self.entries@.len(),
                all == self@,
                all.len() == self.entries@.len(),
                forall|j: int|
                    0 <= j < all.len() ==> #[trigger] all[j] == (
                        self.entries@[j].0@,
                        self.entries@[j].1,
                    ),
                find(all, key@) == find(all.skip(i as int), key@),
                without(all, key@) == all.take(i as int) + without(all.skip(i as int), key@),
            decreases self.entries@.len() - i,
        {
            let ghost rest = all.skip(i as int);
            assert(rest[0] == all[i as int]);
            if same(self.entries[i].0.as_str(), key) {
                assert(all.take(i as int) + rest.skip(1) =~= all.remove(i as int));
                return Some(i);
            }
            assert(rest.skip(1) =~= all.skip(i + 1));
            assert(all.take(i as int) + (seq![rest[0]] + without(rest.skip(1), key@)) =~= all.take(
                i + 1,
            ) + without(all.skip(i + 1), key@));
            i += 1;
        }
        assert(all.skip(i as int) =~= Seq::empty());
        assert(all.take(i as int) + all.skip(i as int) =~= all);
        None
    }

    /// The value under a name.
    pub fn get(&self, key: &str) -> (r: Option<&V>)
        ensures
            match r {
                Some(v) => find(self@, key@) == Some(*v),
                None => find(self@, key@) is None,
            },
    {
        match self.index(key) {
            Some(i) => Some(&self.entries[i].1),
            None => None,
        }
    }

    /// Set the value under a name.
    pub fn insert(&mut self, key: String, value: V)
        ensures
            final(self)@ == place(old(self)@, key@, value),
    {
        proof {
            use_type_invariant(&*self);
            lemma_place_ascending(self@, key@, value);
        }
        let mut entries: Vec<(String, V)> = Vec::new();
        std::mem::swap(&mut entries, &mut self.entries);
        let ghost was = entries@;
        let ghost all = was.map_values(|e: (String, V)| (e.0@, e.1));
        assert(all == old(self)@);
        assert(all.skip(0) =~= all);
        assert(all.take(0) + place(all, key@, value) =~= place(all, key@, value));
        let mut i: usize = 0;
        let mut found: bool = false;
        while i < entries.len()
            invariant_except_break
                !found,
            invariant
                i <= entries@.len(),
                entries@ == was,
                all == was.map_values(|e: (String, V)| (e.0@, e.1)),
                place(all, key@, value) == all.take(i as int) + place(
                    all.skip(i as int),
                    key@,
                    value,
                ),
            ensures
                found ==> i < was.len() && was[i as int].0@ == key@,
                !found && i < was.len() ==> before(key@, was[i as int].0@) && key@
                    != was[i as int].0@,
            decreases entries@.len() - i,
        {
            let ghost rest = all.skip(i as int);
            assert(rest[0] == all[i as int]);
            if same(entries[i].0.as_str(), key.as_str()) {
                found = true;
                break;
            }
            if comes_before(key.as_str(), entries[i].0.as_str()) {
                break;
            }
            assert(rest.skip(1) =~= all.skip(i + 1));
            assert(all.take(i as int) + (seq![rest[0]] + place(rest.skip(1), key@, value))
                =~= all.take(i + 1) + place(all.skip(i + 1), key@, value));
            i += 1;
        }
        let ghost pair = (key@, value);
        let ghost entry = (key, value);
        let ghost rest = all.skip(i as int);
        if found {
            entries[i] = (key, value);
            assert(entries@ =~= was.update(i as int, entry));
            assert(entries@.map_values(|e: (String, V)| (e.0@, e.1)) =~= all.take(i as int) + (
            seq![pair] + rest.skip(1)));
        } else {
            entries.insert(i, (key, value));
            assert(entries@ =~= was.insert(i as int, entry));
            proof {
                if i < was.len() {
                    assert(rest[0] == all[i as int]);
                    assert(entries@.map_values(|e: (String, V)| (e.0@, e.1)) =~= all.take(i as int)
                        + (seq![pair] + rest));
                } else {
                    assert(rest =~= Seq::empty());
                    assert(entries@.map_values(|e: (String, V)| (e.0@, e.1)) =~= all.take(i as int)
                        + seq![pair]);
                }
            }
        }
        *self = Dict { entries };
    }

    /// Take the value under a name out.
    pub fn remove(&mut self, key: &str) -> (r: Option<V>)
        ensures
            r == find(old(self)@, key@),
            final(self)@ == without(old(self)@, key@),
    {
        proof {
            use_type_invariant(&*self);
            lemma_without(self@, key@, key@);
        }
        match self.index(key) {
            None => None,
            Some(i) => {
                let mut entries: Vec<(String, V)> = Vec::new();
                std::mem::swap(&mut entries, &mut self.entries);
                let ghost was = entries@;
                let (_, value) = entries.remove(i);
                assert(entries@.map_values(|e: (String, V)| (e.0@, e.1)) =~= was.map_values(
                    |e: (String, V)| (e.0@, e.1),
                ).remove(i as int));
                *self = Dict { entries };
                Some(value)
            },
        }
    }
}

impl Dict<String> {
    /// The same texts under the same names.
    pub fn copy(&self) -> (r: Dict<String>)
        ensures
            r@ == self@,
    {
        proof {
            use_type_invariant(self);
        }
        let mut entries: Vec<(String, String)> = Vec::new();
        let mut i: usize = 0;
        while i < self.entries.len()
            invariant
                i <= self.entries@.len(),
                entries@.len() == i,
                forall|j: int|
                    0 <= j < i ==> (#[trigger] entries@[j]).0@ == self.entries@[j].0@
                        && entries@[j].1 == self.entries@[j].1,
            decreases self.entries@.len() - i,
        {
            entries.push((self.entries[i].0.clone(), self.entries[i].1.clone()));
            i += 1;
        }
        assert(entries@.map_values(|e: (String, String)| (e.0@, e.1)) =~= self@);
        Dict { entries }
    }
}

/// The names, in order.
pub fn names_of<V>(d: &Dict<V>) -> (r: Vec<String>)
    ensures
        crate::text::texts(r@) == names(d@),
{
    let mut out: Vec<String> = Vec::new();
    let mut i: usize = 0;
    while i < d.len()
        invariant
            i <= d@.len(),
            out@.len() == i,
            forall|j: int| 0 <= j < i ==> (#[trigger] out@[j])@ == d@[j].0,
        decreases d@.len() - i,
    {
        out.push(d.key(i).clone());
        i += 1;
    }
    assert(crate::text::texts(out@) =~= names(d@));
    out
}

}
