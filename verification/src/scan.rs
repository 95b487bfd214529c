//! Looking into text: blanks, lines, prefixes, substrings, order, case.
use vstd::prelude::*;
use vstd::string::*;

use crate::text::{chars_of, is_among, part, same_chars, split, split_chars, text_of};

verus! {

// ---------------------------------------------------------------------------
// Blanks
// ---------------------------------------------------------------------------

/// Unicode's White_Space property, which is what `char::is_whitespace` asks.
pub open spec fn blank(c: char) -> bool {
    let n = c as int;
    ||| 0x9 <= n <= 0xd
    ||| n == 0x20
    ||| n == 0x85
    ||| n == 0xa0
    ||| n == 0x1680
    ||| 0x2000 <= n <= 0x200a
    ||| n == 0x2028
    ||| n == 0x2029
    ||| n == 0x202f
    ||| n == 0x205f
    ||| n == 0x3000
}

/// Is this character white space?
pub fn is_blank(c: char) -> (r: bool)
    ensures
        r == blank(c),
{
    let n: u32 = c as u32;
    (0x9 <= n && n <= 0xd) || n == 0x20 || n == 0x85 || n == 0xa0 || n == 0x1680 || (0x2000 <= n
        && n <= 0x200a) || n == 0x2028 || n == 0x2029 || n == 0x202f || n == 0x205f || n == 0x3000
}

/// The text without the blanks it starts with.
pub open spec fn trim_start(s: Seq<char>) -> Seq<char>
    decreases s.len(),
{
    if s.len() > 0 && blank(s[0]) {
        trim_start(s.skip(1))
    } else {
        s
    }
}

/// The text without the blanks it ends with.
pub open spec fn trim_end(s: Seq<char>) -> Seq<char>
    decreases s.len(),
{
    if s.len() > 0 && blank(s.last()) {
        trim_end(s.drop_last())
    } else {
        s
    }
}

/// The text without the blanks around it.
pub open spec fn trim(s: Seq<char>) -> Seq<char> {
    trim_end(trim_start(s))
}

/// Some blank stands in the text.
pub open spec fn has_blank(s: Seq<char>) -> bool {
    exists|i: int| 0 <= i < s.len() && blank(#[trigger] s[i])
}

/// No blank stands at either end.
pub open spec fn settled(s: Seq<char>) -> bool {
    s.len() == 0 || (!blank(s[0]) && !blank(s.last()))
}

proof fn lemma_trim_start(s: Seq<char>)
    ensures
        trim_start(s).len() == 0 || !blank(trim_start(s)[0]),
        trim_start(s).len() <= s.len(),
        trim_start(s) == s.skip(s.len() - trim_start(s).len()),
    decreases s.len(),
{
    if s.len() > 0 && blank(s[0]) {
        lemma_trim_start(s.skip(1));
        let t = trim_start(s);
        assert(s.skip(1).skip(s.len() - 1 - t.len()) =~= s.skip(s.len() - t.len()));
    } else {
        assert(s.skip(0) =~= s);
    }
}

proof fn lemma_trim_end(s: Seq<char>)
    ensures
        trim_end(s).len() == 0 || !blank(trim_end(s).last()),
        trim_end(s).len() <= s.len(),
        trim_end(s) == s.take(trim_end(s).len() as int),
    decreases s.len(),
{
    if s.len() > 0 && blank(s.last()) {
        lemma_trim_end(s.drop_last());
        let t = trim_end(s);
        assert(s.drop_last().take(t.len() as int) =~= s.take(t.len() as int));
    } else {
        assert(s.take(s.len() as int) =~= s);
    }
}

/// What is trimmed has no blank at either end, is a stretch of the text, and
/// stays as it is when it is trimmed again.
pub proof fn lemma_trim(s: Seq<char>)
    ensures
        settled(trim(s)),
        forall|i: int| 0 <= i < trim(s).len() ==> s.contains(#[trigger] trim(s)[i]),
        trim(trim(s)) == trim(s),
{
    let u = trim_start(s);
    let t = trim(s);
    lemma_trim_start(s);
    lemma_trim_end(u);
    if t.len() > 0 {
        assert(t[0] == u[0]);
    }
    assert forall|i: int| 0 <= i < t.len() implies s.contains(#[trigger] t[i]) by {
        assert(t[i] == u[i]);
        assert(u[i] == s[s.len() - u.len() + i]);
    }
}

/// A text with no blank at either end is trimmed already.
pub proof fn lemma_settled(s: Seq<char>)
    requires
        settled(s),
    ensures
        trim(s) == s,
{
}

pub fn trimmed_start(s: &[char]) -> (r: Vec<char>)
    ensures
        r@ == trim_start(s@),
{
    let mut i: usize = 0;
    assert(s@.skip(0) =~= s@);
    while i < s.len() && is_blank(s[i])
        invariant
            i <= s@.len(),
            trim_start(s@) == trim_start(s@.skip(i as int)),
        decreases s@.len() - i,
    {
        assert(s@.skip(i as int).skip(1) =~= s@.skip(i + 1));
        i += 1;
    }
    assert(s@.skip(i as int) =~= s@.subrange(i as int, s@.len() as int));
    part(s, i, s.len())
}

/// The text without the blanks around it.
pub fn trimmed_chars(s: &[char]) -> (r: Vec<char>)
    ensures
        r@ == trim(s@),
{
    let front = trimmed_start(s);
    let mut n: usize = front.len();
    assert(front@.take(n as int) =~= front@);
    while n > 0 && is_blank(front[n - 1])
        invariant
            n <= front@.len(),
            trim_end(front@) == trim_end(front@.take(n as int)),
        decreases n,
    {
        assert(front@.take(n as int).drop_last() =~= front@.take(n - 1));
        n -= 1;
    }
    assert(front@.take(n as int) =~= front@.subrange(0, n as int));
    part(&front, 0, n)
}

/// The text without the blanks around it.
pub fn trimmed(s: &str) -> (r: String)
    ensures
        r@ == trim(s@),
{
    text_of(&trimmed_chars(&chars_of(s)))
}

/// Is there nothing but blanks?
pub fn is_all_blank(s: &str) -> (r: bool)
    ensures
        r == (trim(s@).len() == 0),
{
    trimmed_chars(&chars_of(s)).len() == 0
}

/// Does some blank stand in the text?
pub fn holds_blank(s: &str) -> (r: bool)
    ensures
        r == has_blank(s@),
{
    let v = chars_of(s);
    let mut i: usize = 0;
    while i < v.len()
        invariant
            v@ == s@,
            i <= v@.len(),
            forall|j: int| 0 <= j < i ==> !blank(#[trigger] v@[j]),
        decreases v@.len() - i,
    {
        if is_blank(v[i]) {
            assert(blank(s@[i as int]));
            return true;
        }
        i += 1;
    }
    false
}

// ---------------------------------------------------------------------------
// Prefixes, suffixes, substrings
// ---------------------------------------------------------------------------

/// The pattern stands in the text at this position.
pub open spec fn occurs(s: Seq<char>, pat: Seq<char>, at: int) -> bool {
    &&& 0 <= at
    &&& at + pat.len() <= s.len()
    &&& s.subrange(at, at + pat.len()) == pat
}

/// The text starts with the pattern.
pub open spec fn starts_with(s: Seq<char>, pat: Seq<char>) -> bool {
    occurs(s, pat, 0)
}

/// The pattern stands somewhere in the text.
pub open spec fn contains(s: Seq<char>, pat: Seq<char>) -> bool {
    exists|at: int| #[trigger] occurs(s, pat, at)
}

/// What follows a prefix, where the text has it.
pub open spec fn after(s: Seq<char>, prefix: Seq<char>) -> Option<Seq<char>> {
    if starts_with(s, prefix) {
        Some(s.skip(prefix.len() as int))
    } else {
        None
    }
}

/// A text put behind a prefix starts with the prefix, and is what follows it.
pub proof fn lemma_after_prefix(prefix: Seq<char>, rest: Seq<char>)
    ensures
        starts_with(prefix + rest, prefix),
        after(prefix + rest, prefix) == Some(rest),
{
    assert((prefix + rest).subrange(0, prefix.len() as int) =~= prefix);
    assert((prefix + rest).skip(prefix.len() as int) =~= rest);
}

/// Does the pattern stand at this position?
pub fn stands_at(s: &[char], pat: &[char], at: usize) -> (r: bool)
    requires
        at <= s@.len(),
    ensures
        r == occurs(s@, pat@, at as int),
{
    if s.len() - at < pat.len() {
        return false;
    }
    same_chars(&part(s, at, at + pat.len()), pat)
}

/// Does the text start with the prefix?
pub fn has_prefix(s: &str, prefix: &str) -> (r: bool)
    ensures
        r == starts_with(s@, prefix@),
{
    stands_at(&chars_of(s), &chars_of(prefix), 0)
}

/// What follows a prefix, where the text has it.
pub fn strip(s: &str, prefix: &str) -> (r: Option<String>)
    ensures
        match r {
            Some(t) => after(s@, prefix@) == Some(t@),
            None => after(s@, prefix@) is None,
        },
{
    let v = chars_of(s);
    let p = chars_of(prefix);
    if stands_at(&v, &p, 0) {
        assert(v@.subrange(p@.len() as int, v@.len() as int) =~= v@.skip(p@.len() as int));
        Some(text_of(&part(&v, p.len(), v.len())))
    } else {
        None
    }
}

/// The first position at which the pattern stands.
pub open spec fn first_at(s: Seq<char>, pat: Seq<char>, at: int) -> bool {
    occurs(s, pat, at) && forall|j: int| 0 <= j < at ==> !#[trigger] occurs(s, pat, j)
}

/// Where the pattern first stands, if anywhere.
pub fn position(s: &[char], pat: &[char]) -> (r: Option<usize>)
    ensures
        match r {
            Some(at) => first_at(s@, pat@, at as int),
            None => !contains(s@, pat@),
        },
{
    let mut at: usize = 0;
    while at < s.len()
        invariant
            at <= s@.len(),
            forall|j: int| 0 <= j < at ==> !#[trigger] occurs(s@, pat@, j),
        decreases s@.len() - at,
    {
        if stands_at(s, pat, at) {
            return Some(at);
        }
        at += 1;
    }
    if stands_at(s, pat, at) {
        return Some(at);
    }
    None
}

/// The text before the first place of a pattern, and the text behind it.
pub open spec fn cut(s: Seq<char>, pat: Seq<char>) -> Option<(Seq<char>, Seq<char>)> {
    if exists|at: int| first_at(s, pat, at) {
        let at = choose|at: int| first_at(s, pat, at);
        Some((s.take(at), s.skip(at + pat.len())))
    } else {
        None
    }
}

/// The text before the first place of a pattern, and the text behind it.
pub fn split_once(s: &str, pat: &str) -> (r: Option<(String, String)>)
    ensures
        match r {
            Some((a, b)) => cut(s@, pat@) == Some((a@, b@)),
            None => cut(s@, pat@) is None,
        },
{
    let v = chars_of(s);
    let p = chars_of(pat);
    match position(&v, &p) {
        Some(at) => {
            proof {
                let chosen = choose|at: int| first_at(s@, pat@, at);
                assert(first_at(s@, pat@, at as int));
                assert(chosen == at);
            }
            assert(v@.subrange(0, at as int) =~= v@.take(at as int));
            assert(v@.subrange(at + p@.len(), v@.len() as int) =~= v@.skip(at + p@.len()));
            let end: usize = v.len();
            assert(at + p@.len() <= end);
            Some((text_of(&part(&v, 0, at)), text_of(&part(&v, at + p.len(), end))))
        },
        None => {
            assert(forall|at: int| first_at(s@, pat@, at) ==> occurs(s@, pat@, at));
            None
        },
    }
}

/// Does the pattern stand in the text?
pub fn holds(s: &str, pat: &str) -> (r: bool)
    ensures
        r == contains(s@, pat@),
{
    match position(&chars_of(s), &chars_of(pat)) {
        Some(at) => {
            assert(occurs(s@, pat@, at as int));
            true
        },
        None => false,
    }
}

/// Does the character stand in the text?
pub fn has_char(s: &str, c: char) -> (r: bool)
    ensures
        r == s@.contains(c),
{
    is_among(c, &chars_of(s))
}

/// The text up to the first of these characters, or all of it.
pub fn up_to(s: &str, c: char) -> (r: String)
    ensures
        r@ == split(s@, seq![c])[0],
{
    let seps: [char; 1] = [c];
    assert(seps@ =~= seq![c]);
    let pieces = split_chars(&chars_of(s), &seps);
    proof {
        crate::text::lemma_split_nonempty(s@, seq![c]);
    }
    assert(pieces@.map_values(|p: Vec<char>| p@).len() > 0);
    assert(pieces@.map_values(|p: Vec<char>| p@)[0] == pieces@[0]@);
    text_of(&pieces[0])
}

// ---------------------------------------------------------------------------
// Lines
// ---------------------------------------------------------------------------

/// A line that a line feed ended, without the carriage return before it.
pub open spec fn ended_line(s: Seq<char>) -> Seq<char> {
    if s.len() > 0 && s.last() == '\r' {
        s.drop_last()
    } else {
        s
    }
}

/// The lines of a text. What follows the last line feed is a line unless it is
/// empty, and keeps whatever it ends with.
pub open spec fn lines(s: Seq<char>) -> Seq<Seq<char>> {
    let p = split(s, seq!['\n']);
    p.drop_last().map_values(|l: Seq<char>| ended_line(l)) + (if p.last().len() == 0 {
        Seq::<Seq<char>>::empty()
    } else {
        seq![p.last()]
    })
}

/// The lines of a text.
pub fn lines_of(s: &str) -> (r: Vec<String>)
    ensures
        crate::text::texts(r@) == lines(s@),
{
    let seps: [char; 1] = ['\n'];
    assert(seps@ =~= seq!['\n']);
    let pieces = split_chars(&chars_of(s), &seps);
    let ghost p = split(s@, seq!['\n']);
    let ghost view = |p: Vec<char>| p@;
    assert(pieces@.map_values(view) == p);
    assert(pieces@.len() == p.len());
    proof {
        crate::text::lemma_split_nonempty(s@, seq!['\n']);
    }
    let mut out: Vec<String> = Vec::new();
    let mut i: usize = 0;
    let last: usize = pieces.len() - 1;
    while i < last
        invariant
            last == pieces@.len() - 1,
            i <= last,
            p.len() == pieces@.len(),
            p == pieces@.map_values(|p: Vec<char>| p@),
            out@.len() == i,
            forall|j: int| 0 <= j < i ==> (#[trigger] out@[j])@ == ended_line(p[j]),
        decreases last - i,
    {
        let line = &pieces[i];
        assert(line@ == p[i as int]);
        if line.len() > 0 && line[line.len() - 1] == '\r' {
            assert(line@.subrange(0, line@.len() - 1) =~= line@.drop_last());
            out.push(text_of(&part(line, 0, line.len() - 1)));
        } else {
            out.push(text_of(line));
        }
        i += 1;
    }
    assert(pieces@[last as int]@ == p[last as int]);
    let ghost body = out@;
    if pieces[last].len() > 0 {
        out.push(text_of(&pieces[last]));
    }
    assert(crate::text::texts(out@) =~= lines(s@));
    out
}

// ---------------------------------------------------------------------------
// Order
// ---------------------------------------------------------------------------

/// The order of strings: by the first character that differs, and a text
/// before any longer one that it starts.
pub open spec fn before(a: Seq<char>, b: Seq<char>) -> bool
    decreases b.len(),
{
    if b.len() == 0 {
        false
    } else if a.len() == 0 {
        true
    } else if a[0] != b[0] {
        a[0] < b[0]
    } else {
        before(a.skip(1), b.skip(1))
    }
}

pub proof fn lemma_before_total(a: Seq<char>, b: Seq<char>)
    ensures
        before(a, b) || before(b, a) || a == b,
    decreases b.len(),
{
    if a.len() > 0 && b.len() > 0 && a[0] == b[0] {
        lemma_before_total(a.skip(1), b.skip(1));
        if a.skip(1) == b.skip(1) {
            assert(a =~= seq![a[0]] + a.skip(1));
            assert(b =~= seq![b[0]] + b.skip(1));
        }
    } else if a.len() == 0 && b.len() == 0 {
        assert(a =~= b);
    }
}

pub proof fn lemma_before_strict(a: Seq<char>, b: Seq<char>)
    requires
        before(a, b),
    ensures
        !before(b, a),
        a != b,
    decreases b.len(),
{
    if a.len() > 0 && b.len() > 0 && a[0] == b[0] {
        lemma_before_strict(a.skip(1), b.skip(1));
    }
}

pub proof fn lemma_before_transitive(a: Seq<char>, b: Seq<char>, c: Seq<char>)
    requires
        before(a, b),
        before(b, c),
    ensures
        before(a, c),
    decreases b.len(),
{
    if a.len() > 0 && b.len() > 0 && c.len() > 0 && a[0] == b[0] && b[0] == c[0] {
        lemma_before_transitive(a.skip(1), b.skip(1), c.skip(1));
    }
}

/// Does one string come before another?
pub fn comes_before(a: &str, b: &str) -> (r: bool)
    ensures
        r == before(a@, b@),
{
    let x = chars_of(a);
    let y = chars_of(b);
    let mut i: usize = 0;
    assert(x@.skip(0) =~= x@);
    assert(y@.skip(0) =~= y@);
    while i < x.len() && i < y.len() && x[i] == y[i]
        invariant
            i <= x@.len(),
            i <= y@.len(),
            before(x@, y@) == before(x@.skip(i as int), y@.skip(i as int)),
        decreases x@.len() - i,
    {
        assert(x@.skip(i as int).skip(1) =~= x@.skip(i + 1));
        assert(y@.skip(i as int).skip(1) =~= y@.skip(i + 1));
        i += 1;
    }
    if i >= y.len() {
        false
    } else if i >= x.len() {
        true
    } else {
        x[i] < y[i]
    }
}

// ---------------------------------------------------------------------------
// Case
// ---------------------------------------------------------------------------

pub open spec fn is_upper(c: char) -> bool {
    'A' <= c && c <= 'Z'
}

pub open spec fn is_lower(c: char) -> bool {
    'a' <= c && c <= 'z'
}

/// An ASCII letter in lower case; any other character as it is.
pub open spec fn lower(c: char) -> char {
    if is_upper(c) {
        (c as int + 32) as char
    } else {
        c
    }
}

/// An ASCII letter in upper case; any other character as it is.
pub open spec fn upper(c: char) -> char {
    if is_lower(c) {
        (c as int - 32) as char
    } else {
        c
    }
}

/// A text with its ASCII letters in lower case.
pub open spec fn lowered(s: Seq<char>) -> Seq<char> {
    s.map_values(|c: char| lower(c))
}

/// Are the texts the same but for the case of ASCII letters?
pub fn same_ignoring_case(a: &str, b: &str) -> (r: bool)
    ensures
        r == (lowered(a@) == lowered(b@)),
{
    let x = chars_of(a);
    let y = chars_of(b);
    if x.len() != y.len() {
        assert(lowered(a@).len() != lowered(b@).len());
        return false;
    }
    let mut i: usize = 0;
    while i < x.len()
        invariant
            x@ == a@,
            y@ == b@,
            x@.len() == y@.len(),
            i <= x@.len(),
            forall|j: int| 0 <= j < i ==> lower(#[trigger] x@[j]) == lower(y@[j]),
        decreases x@.len() - i,
    {
        if lower_char(x[i]) != lower_char(y[i]) {
            assert(lowered(a@)[i as int] != lowered(b@)[i as int]);
            return false;
        }
        i += 1;
    }
    assert(lowered(a@) =~= lowered(b@));
    true
}

pub fn lower_char(c: char) -> (r: char)
    ensures
        r == lower(c),
{
    if 'A' <= c && c <= 'Z' {
        let n: u8 = c as u8;
        (n + 32) as char
    } else {
        c
    }
}

pub fn upper_char(c: char) -> (r: char)
    ensures
        r == upper(c),
{
    if 'a' <= c && c <= 'z' {
        let n: u8 = c as u8;
        (n - 32) as char
    } else {
        c
    }
}

}
