//! Names that the hypervisor accepts.
use vstd::prelude::*;
use vstd::string::*;

use crate::scan::{is_lower, is_upper, lower, lower_char};
use crate::text::{chars_of, is_digit, part, text_of};

verus! {

/// A character that may stand in a hostname, in lower case, and a dash for any
/// other.
pub open spec fn bent(c: char) -> char {
    if is_digit(c) || is_lower(c) || is_upper(c) || c == '-' {
        lower(c)
    } else {
        '-'
    }
}

/// The text without the dashes it starts with.
pub open spec fn undashed_start(s: Seq<char>) -> Seq<char>
    decreases s.len(),
{
    if s.len() > 0 && s[0] == '-' {
        undashed_start(s.skip(1))
    } else {
        s
    }
}

/// The text without the dashes it ends with.
pub open spec fn undashed_end(s: Seq<char>) -> Seq<char>
    decreases s.len(),
{
    if s.len() > 0 && s.last() == '-' {
        undashed_end(s.drop_last())
    } else {
        s
    }
}

/// A session's name, bent into a hostname.
pub open spec fn hostname(name: Seq<char>) -> Seq<char> {
    let core = undashed_end(undashed_start(name.map_values(|c: char| bent(c))));
    let filled = if core.len() == 0 {
        "reaper"@
    } else {
        core
    };
    undashed_end(
        if filled.len() > 63 {
            filled.take(63)
        } else {
            filled
        },
    )
}

fn bend(c: char) -> (r: char)
    ensures
        r == bent(c),
{
    if ('0' <= c && c <= '9') || ('a' <= c && c <= 'z') || ('A' <= c && c <= 'Z') || c == '-' {
        lower_char(c)
    } else {
        '-'
    }
}

fn trim_dashes_end(s: &[char]) -> (r: Vec<char>)
    ensures
        r@ == undashed_end(s@),
{
    let mut n: usize = s.len();
    assert(s@.take(n as int) =~= s@);
    while n > 0 && s[n - 1] == '-'
        invariant
            n <= s@.len(),
            undashed_end(s@) == undashed_end(s@.take(n as int)),
        decreases n,
    {
        assert(s@.take(n as int).drop_last() =~= s@.take(n - 1));
        n -= 1;
    }
    assert(s@.take(n as int) =~= s@.subrange(0, n as int));
    part(s, 0, n)
}

fn trim_dashes_start(s: &[char]) -> (r: Vec<char>)
    ensures
        r@ == undashed_start(s@),
{
    let mut i: usize = 0;
    assert(s@.skip(0) =~= s@);
    while i < s.len() && s[i] == '-'
        invariant
            i <= s@.len(),
            undashed_start(s@) == undashed_start(s@.skip(i as int)),
        decreases s@.len() - i,
    {
        assert(s@.skip(i as int).skip(1) =~= s@.skip(i + 1));
        i += 1;
    }
    assert(s@.skip(i as int) =~= s@.subrange(i as int, s@.len() as int));
    part(s, i, s.len())
}

/// Proxmox names must look like hostnames. Rather than reject a session name a
/// person chose, bend it into something acceptable and get on with it.
pub fn sanitize_name(name: &str) -> (r: String)
    ensures
        r@ == hostname(name@),
{
    let v = chars_of(name);
    let mut out: Vec<char> = Vec::new();
    let mut i: usize = 0;
    while i < v.len()
        invariant
            i <= v@.len(),
            out@.len() == i,
            forall|j: int| 0 <= j < i ==> #[trigger] out@[j] == bent(v@[j]),
        decreases v@.len() - i,
    {
        out.push(bend(v[i]));
        i += 1;
    }
    assert(out@ =~= name@.map_values(|c: char| bent(c)));
    let core = trim_dashes_end(&trim_dashes_start(&out));
    let filled = if core.len() == 0 {
        chars_of("reaper")
    } else {
        core
    };
    let cut = if filled.len() > 63 {
        assert(filled@.subrange(0, 63) =~= filled@.take(63));
        part(&filled, 0, 63)
    } else {
        filled
    };
    text_of(&trim_dashes_end(&cut))
}

/// A character of a hostname.
pub open spec fn hostname_char(c: char) -> bool {
    is_digit(c) || is_lower(c) || c == '-'
}

pub open spec fn all_hostname(s: Seq<char>) -> bool {
    forall|i: int| 0 <= i < s.len() ==> hostname_char(#[trigger] s[i])
}

proof fn lemma_undashed_start(s: Seq<char>)
    requires
        all_hostname(s),
    ensures
        all_hostname(undashed_start(s)),
        undashed_start(s).len() == 0 || undashed_start(s)[0] != '-',
    decreases s.len(),
{
    if s.len() > 0 && s[0] == '-' {
        assert(forall|i: int| 0 <= i < s.skip(1).len() ==> s.skip(1)[i] == s[i + 1]);
        lemma_undashed_start(s.skip(1));
    }
}

proof fn lemma_undashed_end(s: Seq<char>)
    requires
        all_hostname(s),
    ensures
        all_hostname(undashed_end(s)),
        undashed_end(s).len() <= s.len(),
        undashed_end(s).len() == 0 || undashed_end(s).last() != '-',
        s.len() > 0 && s[0] != '-' ==> undashed_end(s).len() > 0 && undashed_end(s)[0] == s[0],
    decreases s.len(),
{
    if s.len() > 0 && s.last() == '-' {
        assert(forall|i: int| 0 <= i < s.drop_last().len() ==> s.drop_last()[i] == s[i]);
        lemma_undashed_end(s.drop_last());
    }
}

/// Whatever a session is called, its machine's name is a hostname: one to 63
/// lower-case letters, digits and dashes, with no dash at either end.
pub proof fn law_every_name_becomes_a_hostname(name: Seq<char>)
    ensures
        1 <= hostname(name).len() <= 63,
        all_hostname(hostname(name)),
        hostname(name)[0] != '-',
        hostname(name).last() != '-',
{
    let mapped = name.map_values(|c: char| bent(c));
    assert forall|i: int| 0 <= i < mapped.len() implies hostname_char(#[trigger] mapped[i]) by {
        assert(mapped[i] == bent(name[i]));
    }
    lemma_undashed_start(mapped);
    lemma_undashed_end(undashed_start(mapped));
    let core = undashed_end(undashed_start(mapped));
    reveal_strlit("reaper");
    let filled = if core.len() == 0 {
        "reaper"@
    } else {
        core
    };
    assert(all_hostname(filled));
    let cut = if filled.len() > 63 {
        filled.take(63)
    } else {
        filled
    };
    assert(all_hostname(cut)) by {
        assert(forall|i: int| 0 <= i < cut.len() ==> cut[i] == filled[i]);
    }
    assert(cut[0] == filled[0]);
    lemma_undashed_end(cut);
}

}
