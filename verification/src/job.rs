//! Turning a tenant's command into something safe to deliver.
//!
//! A job is the unit of execution: the tenant's command, its environment, and
//! nothing else. It is rendered here and delivered over stdin rather than as a
//! quoted argument: an apostrophe inside a command, passed inline through a
//! quoted remote argument, closes the quote and hands the rest of the line to
//! the *local* shell. Every value below is single-quote escaped.
//!
//! What is deliberately **not** here: where anything lives. The runner is the
//! component that knows the paths. And nothing here knows what a command means;
//! `cmd` is opaque.
use vstd::prelude::*;
use vstd::string::*;

use crate::dict::{ascending, find, lemma_find_at, lemma_find_push, lemma_place_find, place, Dict};
use crate::text::chars_of;

verus! {

/// What a character becomes between single quotes.
pub open spec fn escape(c: char) -> Seq<char> {
    if c == '\'' {
        seq!['\'', '\\', '\'', '\'']
    } else {
        seq![c]
    }
}

pub open spec fn escaped(s: Seq<char>) -> Seq<char>
    decreases s.len(),
{
    if s.len() == 0 {
        Seq::empty()
    } else {
        escape(s[0]) + escaped(s.skip(1))
    }
}

/// A string as a single shell word.
pub open spec fn quote_of(s: Seq<char>) -> Seq<char> {
    seq!['\''] + escaped(s) + seq!['\'']
}

/// A character that means nothing to a shell but itself, wherever it stands.
pub open spec fn plain(c: char) -> bool {
    'a' <= c <= 'z' || 'A' <= c <= 'Z' || '0' <= c <= '9' || c == '-' || c == '_' || c == '.'
}

/// A string as a single shell word: as it is where nothing in it needs quotes,
/// and quoted otherwise.
pub open spec fn word_of(s: Seq<char>) -> Seq<char> {
    if s.len() > 0 && forall|i: int| 0 <= i < s.len() ==> plain(#[trigger] s[i]) {
        s
    } else {
        quote_of(s)
    }
}

/// How a POSIX shell reads a word made of plain characters, single-quoted
/// stretches and escaped characters: what the word stands for, or nothing where
/// something in it would be interpreted or a quote stays open.
pub open spec fn shell_reads(s: Seq<char>, inside: bool) -> Option<Seq<char>>
    decreases s.len(),
{
    if s.len() == 0 {
        if inside {
            None
        } else {
            Some(Seq::empty())
        }
    } else if s[0] == '\'' {
        shell_reads(s.skip(1), !inside)
    } else if inside {
        match shell_reads(s.skip(1), true) {
            Some(rest) => Some(seq![s[0]] + rest),
            None => None,
        }
    } else if s[0] == '\\' && s.len() > 1 {
        match shell_reads(s.skip(2), false) {
            Some(rest) => Some(seq![s[1]] + rest),
            None => None,
        }
    } else if plain(s[0]) {
        match shell_reads(s.skip(1), false) {
            Some(rest) => Some(seq![s[0]] + rest),
            None => None,
        }
    } else {
        None
    }
}

proof fn lemma_reads_inside(s: Seq<char>)
    ensures
        shell_reads(escaped(s) + seq!['\''], true) == Some(s),
    decreases s.len(),
{
    reveal_with_fuel(shell_reads, 5);
    let word = escaped(s) + seq!['\''];
    if s.len() == 0 {
        assert(word =~= seq!['\'']);
        assert(word.skip(1) =~= Seq::empty());
        assert(s =~= Seq::empty());
    } else {
        let tail = escaped(s.skip(1)) + seq!['\''];
        lemma_reads_inside(s.skip(1));
        assert(word =~= escape(s[0]) + tail);
        if s[0] == '\'' {
            assert(word.skip(1).skip(2).skip(1) =~= tail);
            assert(word.skip(1)[0] == '\\');
            assert(word.skip(1)[1] == '\'');
            assert(word.skip(1).skip(2)[0] == '\'');
            assert(s =~= seq!['\''] + s.skip(1));
        } else {
            assert(word.skip(1) =~= tail);
            assert(s =~= seq![s[0]] + s.skip(1));
        }
    }
}

/// A quoted string reaches the command as it was, whatever is in it.
pub proof fn law_quoting_survives_the_shell(s: Seq<char>)
    ensures
        shell_reads(quote_of(s), false) == Some(s),
{
    lemma_reads_inside(s);
    assert(quote_of(s).skip(1) =~= escaped(s) + seq!['\'']);
}

proof fn lemma_plain_reads(s: Seq<char>)
    requires
        forall|i: int| 0 <= i < s.len() ==> plain(#[trigger] s[i]),
    ensures
        shell_reads(s, false) == Some(s),
    decreases s.len(),
{
    if s.len() == 0 {
        assert(s =~= Seq::empty());
    } else {
        assert(plain(s[0]));
        assert forall|i: int| 0 <= i < s.skip(1).len() implies plain(#[trigger] s.skip(1)[i]) by {
            assert(plain(s[i + 1]));
        }
        lemma_plain_reads(s.skip(1));
        assert(seq![s[0]] + s.skip(1) =~= s);
    }
}

/// A word reaches the command as the string it was made from, whatever is in
/// it, whether or not it needed quotes.
pub proof fn law_a_word_survives_the_shell(s: Seq<char>)
    ensures
        shell_reads(word_of(s), false) == Some(s),
{
    law_quoting_survives_the_shell(s);
    if forall|i: int| 0 <= i < s.len() ==> plain(#[trigger] s[i]) {
        lemma_plain_reads(s);
    }
}

/// A string as a single shell word, in quotes only where it needs them.
pub fn word(s: &str) -> (r: String)
    ensures
        r@ == word_of(s@),
{
    let v = chars_of(s);
    if v.len() == 0 {
        return quote(s);
    }
    let mut i: usize = 0;
    while i < v.len()
        invariant
            v@ == s@,
            i <= v@.len(),
            forall|j: int| 0 <= j < i ==> plain(#[trigger] v@[j]),
        decreases v@.len() - i,
    {
        let c = v[i];
        if !(('a' <= c && c <= 'z') || ('A' <= c && c <= 'Z') || ('0' <= c && c <= '9') || c == '-'
            || c == '_' || c == '.') {
            assert(!plain(s@[i as int]));
            return quote(s);
        }
        i += 1;
    }
    s.to_string()
}

/// A string as a single shell word, however hostile.
///
/// Single quotes protect everything a shell would otherwise interpret --
/// `$`, backticks, backslashes, newlines, semicolons -- and the only character
/// they cannot contain is a single quote, which is closed, escaped and reopened
/// in the usual way. The empty string still needs quotes, or it disappears.
pub fn quote(s: &str) -> (r: String)
    ensures
        r@ == quote_of(s@),
{
    let v = chars_of(s);
    let mut out = String::new();
    out.push('\'');
    assert(v@.skip(0) =~= v@);
    let mut i: usize = 0;
    while i < v.len()
        invariant
            v@ == s@,
            i <= v@.len(),
            out@ + escaped(v@.skip(i as int)) + seq!['\''] == quote_of(s@),
        decreases v@.len() - i,
    {
        let ghost was = out@;
        assert(v@.skip(i as int).skip(1) =~= v@.skip(i + 1));
        let c = v[i];
        if c == '\'' {
            out.push('\'');
            out.push('\\');
            out.push('\'');
            out.push('\'');
        } else {
            out.push(c);
        }
        assert(out@ =~= was + escape(c));
        assert(out@ + escaped(v@.skip(i + 1)) =~= was + (escape(c) + escaped(v@.skip(i + 1))));
        i += 1;
    }
    assert(v@.skip(i as int) =~= Seq::empty());
    assert(out@ + escaped(v@.skip(i as int)) =~= out@);
    out.push('\'');
    out
}

/// The lines that put each variable into the environment.
pub open spec fn exports(env: Seq<(Seq<char>, String)>) -> Seq<char>
    decreases env.len(),
{
    if env.len() == 0 {
        Seq::empty()
    } else {
        exports(env.drop_last()) + env.last().0 + "="@ + quote_of(env.last().1@) + "\nexport "@
            + env.last().0 + "\n"@
    }
}

pub open spec fn preamble() -> Seq<char> {
    "#!/bin/sh\n"@ + "# Rendered by reaper and delivered over stdin. Every value below is\n"@
        + "# quoted by the CLI; the command itself deliberately is not.\n"@ + "set -x\n"@
}

/// Render a job script.
///
/// The runner has already exported `REAPER_WORK`, `REAPER_OUT` and one
/// `REAPER_CACHE_*` per cache, and has already made the working tree the
/// current directory. This adds the tenant's own environment and then the
/// tenant's command -- unquoted, because it is a shell command and not a
/// program name.
pub fn render(cmd: &str, env: &Dict<String>) -> (r: String)
    ensures
        r@ == preamble() + exports(env@) + cmd@ + "\n"@,
{
    let mut s = "#!/bin/sh\n".to_string().concat(
        "# Rendered by reaper and delivered over stdin. Every value below is\n",
    ).concat("# quoted by the CLI; the command itself deliberately is not.\n").concat("set -x\n");
    let mut i: usize = 0;
    assert(preamble() + exports(env@.take(0)) =~= preamble());
    while i < env.len()
        invariant
            i <= env@.len(),
            s@ == preamble() + exports(env@.take(i as int)),
        decreases env@.len() - i,
    {
        let k = env.key(i);
        let v = env.value(i);
        let ghost was = exports(env@.take(i as int));
        let ghost more = env@.take(i + 1);
        assert(more.drop_last() =~= env@.take(i as int));
        assert(more.last() == env@[i as int]);
        s = s.concat(k.as_str()).concat("=").concat(quote(v.as_str()).as_str()).concat(
            "\nexport ",
        ).concat(k.as_str()).concat("\n");
        assert(s@ =~= preamble() + exports(more));
        i += 1;
    }
    assert(env@.take(env@.len() as int) =~= env@);
    s.concat(cmd).concat("\n")
}

/// One environment laid over another.
pub open spec fn laid_over(
    verb: Seq<(Seq<char>, String)>,
    profile: Seq<(Seq<char>, String)>,
) -> Seq<(Seq<char>, String)>
    decreases profile.len(),
{
    if profile.len() == 0 {
        verb
    } else {
        place(
            laid_over(verb, profile.drop_last()),
            profile.last().0,
            profile.last().1,
        )
    }
}

/// Where both name a variable the profile's value stands, and every other
/// variable is as the verb has it.
pub proof fn law_the_profile_wins(
    verb: Seq<(Seq<char>, String)>,
    profile: Seq<(Seq<char>, String)>,
    name: Seq<char>,
)
    requires
        ascending(profile),
    ensures
        find(laid_over(verb, profile), name) == (match find(profile, name) {
            Some(v) => Some(v),
            None => find(verb, name),
        }),
    decreases profile.len(),
{
    if profile.len() > 0 {
        let front = profile.drop_last();
        let last = profile.last();
        assert(forall|i: int| 0 <= i < front.len() ==> front[i] == profile[i]);
        law_the_profile_wins(verb, front, name);
        lemma_place_find(laid_over(verb, front), last.0, last.1, name);
        lemma_find_push(front, last, name);
        assert(front.push(last) =~= profile);
        if last.0 == name {
            lemma_find_at(profile, profile.len() - 1);
        }
    }
}

/// The tenant's environment for one verb, with a profile's overlaid on top.
///
/// A profile changes how a session is run, never what is run, so it is the
/// profile that wins where the two name the same variable.
pub fn overlay(verb: &Dict<String>, profile: Option<&Dict<String>>) -> (r: Dict<String>)
    ensures
        r@ == (match profile {
            Some(p) => laid_over(verb@, p@),
            None => verb@,
        }),
{
    let mut env = verb.copy();
    match profile {
        None => env,
        Some(p) => {
            let mut i: usize = 0;
            assert(p@.take(0) =~= Seq::empty());
            while i < p.len()
                invariant
                    i <= p@.len(),
                    env@ == laid_over(verb@, p@.take(i as int)),
                decreases p@.len() - i,
            {
                assert(p@.take(i + 1).drop_last() =~= p@.take(i as int));
                env.insert(p.key(i).clone(), p.value(i).clone());
                i += 1;
            }
            assert(p@.take(p@.len() as int) =~= p@);
            env
        },
    }
}

/// Every variable is set to its value, quoted, and exported, one after the other.
pub proof fn law_every_variable_is_exported(env: Seq<(Seq<char>, String)>, k: int)
    requires
        0 <= k < env.len(),
    ensures
        exports(env.take(k + 1)) == exports(env.take(k)) + env[k].0 + "="@ + quote_of(env[k].1@)
            + "\nexport "@ + env[k].0 + "\n"@,
        exports(env.take(0)) == Seq::<char>::empty(),
{
    assert(env.take(k + 1).drop_last() =~= env.take(k));
    assert(env.take(k + 1).last() == env[k]);
}

}
