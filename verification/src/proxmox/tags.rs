//! The expiry tag.
//!
//! An ephemeral machine carries `expires-<unix-epoch>`. That tag is the whole
//! dead-man's switch: the CLI moves it forward while a session is alive, and an
//! independent sweeper destroys machines whose tag has passed. It lives on the
//! machine rather than in reaper's own state precisely so that the sweeper can
//! read it without reaper existing at all.
//!
//! Proxmox stores tags as one string, lowercases them, and accepts a limited
//! character set. Semicolons separate them; older versions and some tooling use
//! commas, so both are read and semicolons are written.
use vstd::prelude::*;
use vstd::string::*;

use crate::scan::{after, lemma_after_prefix, strip, trim, trimmed};
use crate::text::{
    dec, decimal, free_of, join, join_text, law_decimal_reads_back, law_split_undoes_join,
    read_unsigned, split_text, texts, unsigned,
};
use crate::time::SystemTime;

verus! {

pub const PREFIX: &'static str = "expires-";

pub open spec fn separators() -> Seq<char> {
    seq![';', ',']
}

/// Each piece without the blanks around it.
pub open spec fn all_trimmed(p: Seq<Seq<char>>) -> Seq<Seq<char>> {
    p.map_values(|t: Seq<char>| trim(t))
}

pub open spec fn nonempty(t: Seq<char>) -> bool {
    t.len() > 0
}

/// The tags of a tag string: what stands between separators, without blanks
/// around it, where anything is left.
pub open spec fn tags_of(s: Seq<char>) -> Seq<Seq<char>> {
    all_trimmed(crate::text::split(s, separators())).filter(|t: Seq<char>| nonempty(t))
}

/// The seconds since the epoch that a tag names, if it is an expiry.
pub open spec fn expiry_secs(tag: Seq<char>) -> Option<nat> {
    match after(tag, PREFIX@) {
        Some(rest) => unsigned(rest, u64::MAX as nat),
        None => None,
    }
}

/// The first expiry among tags.
pub open spec fn first_expiry(tags: Seq<Seq<char>>) -> Option<nat>
    decreases tags.len(),
{
    if tags.len() == 0 {
        None
    } else {
        match expiry_secs(tags[0]) {
            Some(n) => Some(n),
            None => first_expiry(tags.skip(1)),
        }
    }
}

/// The expiry that a tag string carries, in seconds since the epoch.
pub open spec fn carried(s: Seq<char>) -> Option<nat> {
    first_expiry(tags_of(s))
}

/// The whole seconds since the epoch; nothing before it.
pub open spec fn epoch_secs(at: SystemTime) -> nat {
    if at@ < 0 {
        0
    } else {
        (at@ / 1_000_000_000) as nat
    }
}

/// The tag of an expiry.
pub open spec fn tag_for(at: SystemTime) -> Seq<char> {
    PREFIX@ + dec(epoch_secs(at))
}

/// The tags that are not an expiry.
pub open spec fn others(tags: Seq<Seq<char>>) -> Seq<Seq<char>> {
    tags.filter(|t: Seq<char>| expiry_secs(t) is None)
}

/// Split a tag string as Proxmox would, tolerating either separator and any
/// amount of incidental whitespace.
pub fn split(tags: &str) -> (r: Vec<String>)
    ensures
        texts(r@) == tags_of(tags@),
{
    let seps: [char; 2] = [';', ','];
    assert(seps@ =~= separators());
    let pieces = split_text(tags, &seps);
    let ghost all = all_trimmed(texts(pieces@));
    let mut out: Vec<String> = Vec::new();
    let mut i: usize = 0;
    assert(all.take(0).filter(|t: Seq<char>| nonempty(t)) =~= Seq::empty()) by {
        reveal(Seq::filter);
    }
    assert(texts(out@) =~= Seq::empty());
    while i < pieces.len()
        invariant
            i <= pieces@.len(),
            all == all_trimmed(texts(pieces@)),
            texts(out@) == all.take(i as int).filter(|t: Seq<char>| nonempty(t)),
        decreases pieces@.len() - i,
    {
        let ghost was = out@;
        let t = trimmed(pieces[i].as_str());
        proof {
            reveal(Seq::filter);
            assert(all.take(i + 1).drop_last() =~= all.take(i as int));
            assert(all.take(i + 1).last() == all[i as int]);
            assert(all[i as int] == t@);
        }
        if !t.as_str().is_empty() {
            out.push(t);
            assert(texts(out@) =~= texts(was).push(t@));
        }
        i += 1;
    }
    assert(all.take(pieces@.len() as int) =~= all);
    out
}

pub fn encode(at: SystemTime) -> (r: String)
    ensures
        r@ == tag_for(at),
{
    PREFIX.to_string().concat(decimal(at.epoch_secs()).as_str())
}

fn secs_of(tag: &str) -> (r: Option<u64>)
    ensures
        match r {
            Some(n) => expiry_secs(tag@) == Some(n as nat),
            None => expiry_secs(tag@) is None,
        },
{
    match strip(tag, PREFIX) {
        Some(rest) => read_unsigned(rest.as_str(), u64::MAX),
        None => None,
    }
}

/// The expiry a tag string carries, in seconds since the epoch.
pub fn expiry_secs_of(tags: &str) -> (r: Option<u64>)
    ensures
        match r {
            Some(n) => carried(tags@) == Some(n as nat),
            None => carried(tags@) is None,
        },
{
    let all = split(tags);
    let ghost seen = texts(all@);
    let mut i: usize = 0;
    assert(seen.skip(0) =~= seen);
    while i < all.len()
        invariant
            i <= all@.len(),
            seen == texts(all@),
            seen == tags_of(tags@),
            first_expiry(seen) == first_expiry(seen.skip(i as int)),
        decreases all@.len() - i,
    {
        assert(seen.skip(i as int)[0] == all@[i as int]@);
        match secs_of(all[i].as_str()) {
            Some(n) => {
                return Some(n);
            },
            None => {},
        }
        assert(seen.skip(i as int).skip(1) =~= seen.skip(i + 1));
        i += 1;
    }
    None
}

/// The last second since the epoch that is a moment.
pub const LAST_SECOND: u64 = 0x7fff_ffff_ffff_ffff;

/// The expiry a tag string carries, if it carries one.
///
/// `None` is not "plenty of time left": it is a machine no sweeper will ever
/// collect, which means a create that half-failed and wants a human.
pub fn expiry_of(tags: &str) -> (r: Option<SystemTime>)
    requires
        carried(tags@) is Some ==> carried(tags@)->0 <= LAST_SECOND,
    ensures
        r == expiry_moment(tags@),
        r is Some == carried(tags@) is Some,
        r is Some ==> r->0@ == carried(tags@)->0 * 1_000_000_000,
{
    expiry_at(tags)
}

/// The moment that a tag string's expiry names, if it is one.
pub open spec fn expiry_moment(tags: Seq<char>) -> Option<SystemTime> {
    match carried(tags) {
        Some(n) => if n <= LAST_SECOND {
            Some(SystemTime::of_secs(n))
        } else {
            None
        },
        None => None,
    }
}

/// As `expiry_of`, for any tag string: an expiry beyond the last moment there
/// is counts as none.
pub fn expiry_at(tags: &str) -> (r: Option<SystemTime>)
    ensures
        r == expiry_moment(tags@),
        r is Some ==> carried(tags@) is Some && r->0@ == carried(tags@)->0 * 1_000_000_000,
{
    match expiry_secs_of(tags) {
        Some(secs) => SystemTime::from_secs(secs),
        None => None,
    }
}

/// The tag string to write in order to set this expiry, preserving everything
/// else the machine carries.
///
/// Read-modify-write rather than blind assignment. This is a shared cluster and
/// reaper is not the only thing that writes tags; clobbering somebody else's
/// would be both rude and invisible. What cannot be read as an expiry is
/// somebody else's, whatever it starts with.
pub fn with_expiry(existing: &str, at: SystemTime) -> (r: String)
    ensures
        r@ == retagged(existing@, at),
{
    let all = split(existing);
    let ghost seen = texts(all@);
    let mut out: Vec<String> = Vec::new();
    let mut i: usize = 0;
    assert(others(seen.take(0)) =~= Seq::empty()) by {
        reveal(Seq::filter);
    }
    assert(texts(out@) =~= Seq::empty());
    while i < all.len()
        invariant
            i <= all@.len(),
            seen == texts(all@),
            texts(out@) == others(seen.take(i as int)),
        decreases all@.len() - i,
    {
        let ghost was = out@;
        proof {
            reveal(Seq::filter);
            assert(seen.take(i + 1).drop_last() =~= seen.take(i as int));
            assert(seen.take(i + 1).last() == all@[i as int]@);
        }
        match secs_of(all[i].as_str()) {
            Some(_) => {},
            None => {
                out.push(all[i].clone());
                assert(texts(out@) =~= texts(was).push(all@[i as int]@));
            },
        }
        i += 1;
    }
    assert(seen.take(all@.len() as int) =~= seen);
    let ghost kept = texts(out@);
    let tag = encode(at);
    out.push(tag);
    assert(texts(out@) =~= kept.push(tag@));
    join_text(&out, ";")
}

// ---------------------------------------------------------------------------
// What the tags keep
// ---------------------------------------------------------------------------

/// A tag as it comes out of a tag string: not empty, without separators, and
/// without blanks around it.
pub open spec fn proper(t: Seq<char>) -> bool {
    t.len() > 0 && free_of(t, separators()) && crate::scan::settled(t)
}

proof fn lemma_tags_proper(s: Seq<char>)
    ensures
        forall|i: int| 0 <= i < tags_of(s).len() ==> proper(#[trigger] tags_of(s)[i]),
{
    let p = crate::text::split(s, separators());
    let all = all_trimmed(p);
    let keep = |t: Seq<char>| nonempty(t);
    crate::text::lemma_pieces_free(s, separators());
    crate::text::lemma_filter_from(all, keep);
    assert forall|i: int| 0 <= i < tags_of(s).len() implies proper(#[trigger] tags_of(s)[i]) by {
        let t = tags_of(s)[i];
        assert(keep(t) && all.contains(t));
        let j = choose|j: int| 0 <= j < all.len() && all[j] == t;
        assert(t == trim(p[j]));
        assert(free_of(p[j], separators()));
        crate::scan::lemma_trim(p[j]);
        assert forall|k: int| 0 <= k < t.len() implies !separators().contains(#[trigger] t[k]) by {
            assert(p[j].contains(t[k]));
        }
    }
}

proof fn lemma_expiry_tag(n: nat)
    requires
        n <= u64::MAX,
    ensures
        proper(PREFIX@ + dec(n)),
        expiry_secs(PREFIX@ + dec(n)) == Some(n),
{
    reveal_strlit("expires-");
    law_decimal_reads_back(n);
    lemma_after_prefix(PREFIX@, dec(n));
    let t = PREFIX@ + dec(n);
    assert forall|k: int| 0 <= k < t.len() implies !separators().contains(#[trigger] t[k]) by {
        if k >= PREFIX@.len() {
            assert(t[k] == dec(n)[k - PREFIX@.len()]);
        }
    }
    assert(t.last() == dec(n)[dec(n).len() - 1]);
    assert(crate::text::is_digit(dec(n)[dec(n).len() - 1]));
}

/// Proper tags joined by semicolons come back as they are.
proof fn lemma_tags_rejoin(tags: Seq<Seq<char>>)
    requires
        tags.len() > 0,
        forall|i: int| 0 <= i < tags.len() ==> proper(#[trigger] tags[i]),
    ensures
        tags_of(join(tags, ";"@)) == tags,
{
    reveal_strlit(";");
    assert(";"@ =~= seq![';']);
    assert(separators().contains(';')) by {
        assert(separators()[0] == ';');
    }
    assert forall|i: int| 0 <= i < tags.len() implies free_of(#[trigger] tags[i], separators()) by {
        assert(proper(tags[i]));
    }
    law_split_undoes_join(tags, ';', separators());
    assert forall|i: int| 0 <= i < tags.len() implies trim(#[trigger] tags[i]) == tags[i] by {
        assert(proper(tags[i]));
        crate::scan::lemma_settled(tags[i]);
    }
    assert(all_trimmed(tags) =~= tags);
    assert forall|i: int| 0 <= i < tags.len() implies (|t: Seq<char>| nonempty(t))(
        #[trigger] tags[i],
    ) by {
        assert(proper(tags[i]));
    }
    crate::text::lemma_filter_all(tags, |t: Seq<char>| nonempty(t));
}

/// The tag string that sets an expiry.
pub open spec fn retagged(existing: Seq<char>, at: SystemTime) -> Seq<char> {
    join(others(tags_of(existing)).push(tag_for(at)), ";"@)
}

/// Setting an expiry keeps every other tag, in order, and leaves exactly one
/// expiry: the one that was set.
pub proof fn law_setting_an_expiry_preserves_every_other_tag(existing: Seq<char>, at: SystemTime)
    requires
        at@ <= crate::time::last_moment(),
    ensures
        tags_of(retagged(existing, at)) == others(tags_of(existing)).push(tag_for(at)),
        others(tags_of(retagged(existing, at))) == others(tags_of(existing)),
        carried(retagged(existing, at)) == Some(epoch_secs(at)),
{
    let tags = tags_of(existing);
    let kept = others(tags);
    let written = kept.push(tag_for(at));
    let p = |t: Seq<char>| expiry_secs(t) is None;
    lemma_tags_proper(existing);
    lemma_expiry_tag(epoch_secs(at));
    crate::text::lemma_filter_from(tags, p);
    assert forall|i: int| 0 <= i < written.len() implies proper(#[trigger] written[i]) by {
        if i < kept.len() {
            assert(written[i] == kept[i]);
            assert(tags.contains(kept[i]));
        }
    }
    lemma_tags_rejoin(written);
    assert(others(written) == kept) by {
        reveal(Seq::filter);
        assert(written.drop_last() =~= kept);
        assert forall|i: int| 0 <= i < kept.len() implies p(#[trigger] kept[i]) by {}
        crate::text::lemma_filter_all(kept, p);
    }
    assert forall|i: int| 0 <= i < kept.len() implies expiry_secs(#[trigger] kept[i]) is None by {
        assert(p(kept[i]));
    }
    lemma_first_expiry_last(kept, tag_for(at));
}

proof fn lemma_first_expiry_last(kept: Seq<Seq<char>>, tag: Seq<char>)
    requires
        forall|i: int| 0 <= i < kept.len() ==> expiry_secs(#[trigger] kept[i]) is None,
    ensures
        first_expiry(kept.push(tag)) == expiry_secs(tag),
    decreases kept.len(),
{
    let all = kept.push(tag);
    if kept.len() == 0 {
        assert(all.skip(1) =~= Seq::empty());
        assert(first_expiry(all.skip(1)) is None);
    } else {
        assert(all[0] == kept[0]);
        assert forall|i: int| 0 <= i < kept.skip(1).len() implies expiry_secs(
            #[trigger] kept.skip(1)[i],
        ) is None by {
            assert(kept.skip(1)[i] == kept[i + 1]);
        }
        lemma_first_expiry_last(kept.skip(1), tag);
        assert(all.skip(1) =~= kept.skip(1).push(tag));
    }
}

/// An expiry that was written is the expiry that is read.
pub proof fn law_an_expiry_round_trips(at: SystemTime)
    requires
        at@ <= crate::time::last_moment(),
    ensures
        carried(tag_for(at)) == Some(epoch_secs(at)),
{
    lemma_expiry_tag(epoch_secs(at));
    let one = seq![tag_for(at)];
    lemma_tags_rejoin(one);
    assert(one.skip(1) =~= Seq::empty());
}

/// Of two expiries set one after the other only the second is left.
pub proof fn law_the_last_expiry_stands(existing: Seq<char>, first: SystemTime, second: SystemTime)
    requires
        first@ <= crate::time::last_moment(),
    ensures
        retagged(retagged(existing, first), second) == retagged(existing, second),
{
    law_setting_an_expiry_preserves_every_other_tag(existing, first);
}

}
