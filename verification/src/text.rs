//! Text as sequences of characters.
//!
//! Everything the rest of the crate says about strings it says with the
//! functions here: reading and writing decimal numbers, cutting a text at its
//! separators and putting it together again, trimming, searching, ordering.
use vstd::prelude::*;
use vstd::string::*;

verus! {

/// `String::push` appends one character.
pub assume_specification[ String::push ](s: &mut String, c: char)
    ensures
        final(s)@ == old(s)@.push(c),
;

/// What `format!("{:?}")` makes of a string: the text between double quotes,
/// with whatever Rust escapes in it escaped.
pub uninterp spec fn debug_text(s: Seq<char>) -> Seq<char>;

/// `<str as Debug>::fmt`, through `format!`. The contract only gives the result
/// a name: which characters are escaped follows Unicode tables.
#[verifier::external_body]
pub(crate) fn quoted(s: &str) -> (r: String)
    ensures
        r@ == debug_text(s@),
{
    format!("{s:?}")
}

// ---------------------------------------------------------------------------
// Between strings and vectors of characters
// ---------------------------------------------------------------------------

/// The characters of a string, in order.
pub fn chars_of(s: &str) -> (r: Vec<char>)
    ensures
        r@ == s@,
{
    let mut out: Vec<char> = Vec::new();
    for c in it: s.chars()
        invariant
            it.seq() == s@,
            out@ == s@.take(it.index() as int),
    {
        out.push(c);
    }
    assert(s@.take(s@.len() as int) =~= s@);
    out
}

/// The string made of these characters.
pub fn text_of(v: &[char]) -> (r: String)
    ensures
        r@ == v@,
{
    let mut out = String::new();
    let mut i: usize = 0;
    while i < v.len()
        invariant
            i <= v@.len(),
            out@ == v@.take(i as int),
        decreases v@.len() - i,
    {
        out.push(v[i]);
        i += 1;
    }
    assert(v@.take(v@.len() as int) =~= v@);
    out
}

/// The part of a character slice between two positions.
pub fn part(v: &[char], from: usize, to: usize) -> (r: Vec<char>)
    requires
        from <= to <= v@.len(),
    ensures
        r@ == v@.subrange(from as int, to as int),
{
    let mut out: Vec<char> = Vec::new();
    let mut i: usize = from;
    while i < to
        invariant
            from <= i <= to <= v@.len(),
            out@ == v@.subrange(from as int, i as int),
        decreases to - i,
    {
        out.push(v[i]);
        i += 1;
        assert(v@.subrange(from as int, i as int) =~= v@.subrange(from as int, i - 1).push(v@[i - 1]));
    }
    out
}

/// Are the two character sequences the same?
pub fn same_chars(a: &[char], b: &[char]) -> (r: bool)
    ensures
        r == (a@ == b@),
{
    if a.len() != b.len() {
        return false;
    }
    let mut i: usize = 0;
    while i < a.len()
        invariant
            a@.len() == b@.len(),
            i <= a@.len(),
            forall|j: int| 0 <= j < i ==> a@[j] == b@[j],
        decreases a@.len() - i,
    {
        if a[i] != b[i] {
            return false;
        }
        i += 1;
    }
    assert(a@ =~= b@);
    true
}

/// Are the two strings the same text?
pub fn same(a: &str, b: &str) -> (r: bool)
    ensures
        r == (a@ == b@),
{
    same_chars(&chars_of(a), &chars_of(b))
}

// ---------------------------------------------------------------------------
// Decimal numbers
// ---------------------------------------------------------------------------

pub open spec fn is_digit(c: char) -> bool {
    '0' <= c && c <= '9'
}

/// The character that stands for a number below ten.
pub open spec fn digit(d: nat) -> char {
    (48 + d) as char
}

/// A number in decimal, without leading zeros.
pub open spec fn dec(n: nat) -> Seq<char>
    decreases n,
{
    if n < 10 {
        seq![digit(n)]
    } else {
        dec(n / 10).push(digit(n % 10))
    }
}

/// A decimal number in at least two places.
pub open spec fn dec2(n: nat) -> Seq<char> {
    if n < 10 {
        seq!['0'] + dec(n)
    } else {
        dec(n)
    }
}

/// One or more decimal digits and nothing else.
pub open spec fn all_digits(s: Seq<char>) -> bool {
    s.len() > 0 && forall|i: int| 0 <= i < s.len() ==> is_digit(#[trigger] s[i])
}

/// The value of a run of decimal digits.
pub open spec fn num(s: Seq<char>) -> nat
    decreases s.len(),
{
    if s.len() == 0 {
        0
    } else {
        (num(s.drop_last()) * 10 + (s.last() as int - 48)) as nat
    }
}

/// The digits of a number as an unsigned integer is read: a plus sign may
/// stand in front.
pub open spec fn unsigned_digits(s: Seq<char>) -> Seq<char> {
    if s.len() > 0 && s[0] == '+' {
        s.skip(1)
    } else {
        s
    }
}

/// The unsigned number a text spells, if it is one no larger than `most`.
pub open spec fn unsigned(s: Seq<char>, most: nat) -> Option<nat> {
    let d = unsigned_digits(s);
    if all_digits(d) && num(d) <= most {
        Some(num(d))
    } else {
        None
    }
}

pub proof fn lemma_num_prefix(s: Seq<char>, i: int)
    requires
        all_digits(s),
        0 <= i <= s.len(),
    ensures
        num(s.take(i)) <= num(s),
    decreases s.len() - i,
{
    if i == s.len() {
        assert(s.take(i) =~= s);
    } else {
        lemma_num_prefix(s, i + 1);
        assert(s.take(i + 1).drop_last() =~= s.take(i));
        assert(is_digit(s[i]));
    }
}

/// Writing a number and reading it back gives the number.
pub proof fn law_decimal_reads_back(n: nat)
    ensures
        all_digits(dec(n)),
        num(dec(n)) == n,
        dec(n)[0] != '+',
    decreases n,
{
    reveal_with_fuel(num, 2);
    if n < 10 {
        assert(seq![digit(n)].drop_last() =~= Seq::<char>::empty());
    } else {
        law_decimal_reads_back(n / 10);
        let shorter = dec(n / 10);
        assert(dec(n).drop_last() =~= shorter);
        assert(forall|i: int| 0 <= i < shorter.len() ==> dec(n)[i] == shorter[i]);
        assert(is_digit(digit(n % 10)));
    }
}

/// Reading back an unsigned number that was written in decimal.
pub proof fn law_unsigned_reads_back(n: nat, most: nat)
    requires
        n <= most,
    ensures
        unsigned(dec(n), most) == Some(n),
{
    law_decimal_reads_back(n);
}

fn digit_char(d: u64) -> (c: char)
    requires
        d < 10,
    ensures
        c == digit(d as nat),
{
    match d {
        0 => '0',
        1 => '1',
        2 => '2',
        3 => '3',
        4 => '4',
        5 => '5',
        6 => '6',
        7 => '7',
        8 => '8',
        _ => '9',
    }
}

/// A number in decimal.
pub fn decimal(n: u64) -> (r: String)
    ensures
        r@ == dec(n as nat),
    decreases n,
{
    if n < 10 {
        let mut s = String::new();
        s.push(digit_char(n));
        assert(s@ =~= seq![digit(n as nat)]);
        s
    } else {
        let mut s = decimal(n / 10);
        s.push(digit_char(n % 10));
        s
    }
}

/// A wide number in decimal.
pub fn decimal_wide(n: u128) -> (r: String)
    ensures
        r@ == dec(n as nat),
    decreases n,
{
    if n < 10 {
        decimal(n as u64)
    } else {
        let mut s = decimal_wide(n / 10);
        s.push(digit_char((n % 10) as u64));
        s
    }
}

/// A number in decimal, with a zero in front of a single digit.
pub fn decimal2(n: u64) -> (r: String)
    ensures
        r@ == dec2(n as nat),
{
    if n < 10 {
        let mut s = String::new();
        s.push('0');
        assert(s@ =~= seq!['0']);
        s.concat(decimal(n).as_str())
    } else {
        decimal(n)
    }
}

/// Is this one or more decimal digits and nothing else?
pub fn is_all_digits(s: &[char]) -> (r: bool)
    ensures
        r == all_digits(s@),
{
    if s.len() == 0 {
        return false;
    }
    let mut i: usize = 0;
    while i < s.len()
        invariant
            i <= s@.len(),
            forall|j: int| 0 <= j < i ==> is_digit(#[trigger] s@[j]),
        decreases s@.len() - i,
    {
        if !('0' <= s[i] && s[i] <= '9') {
            assert(!is_digit(s@[i as int]));
            return false;
        }
        i += 1;
    }
    true
}

fn digit_value(c: char) -> (r: u64)
    requires
        is_digit(c),
    ensures
        r == c as int - 48,
{
    match c {
        '0' => 0,
        '1' => 1,
        '2' => 2,
        '3' => 3,
        '4' => 4,
        '5' => 5,
        '6' => 6,
        '7' => 7,
        '8' => 8,
        _ => 9,
    }
}

/// The value of a run of decimal digits, unless it is larger than `most`.
pub fn digits_value(s: &[char], most: u64) -> (r: Option<u64>)
    requires
        all_digits(s@),
    ensures
        match r {
            Some(n) => n == num(s@) && n <= most,
            None => num(s@) > most,
        },
{
    let mut n: u64 = 0;
    let mut i: usize = 0;
    while i < s.len()
        invariant
            all_digits(s@),
            i <= s@.len(),
            n == num(s@.take(i as int)),
            n <= most,
        decreases s@.len() - i,
    {
        assert(is_digit(s@[i as int]));
        assert(s@.take(i + 1).drop_last() =~= s@.take(i as int));
        let d: u64 = digit_value(s[i]);
        proof {
            lemma_num_prefix(s@, i + 1);
        }
        let next: Option<u64> = match n.checked_mul(10) {
            None => None,
            Some(t) => t.checked_add(d),
        };
        match next {
            None => {
                return None;
            },
            Some(m) => {
                if m > most {
                    return None;
                }
                n = m;
            },
        }
        i += 1;
    }
    assert(s@.take(s@.len() as int) =~= s@);
    Some(n)
}

/// The unsigned number a text spells, if it is one no larger than `most`.
pub fn read_unsigned(s: &str, most: u64) -> (r: Option<u64>)
    ensures
        r is Some == unsigned(s@, most as nat) is Some,
        r is Some ==> r->0 == unsigned(s@, most as nat)->0,
{
    let v = chars_of(s);
    let body = if v.len() > 0 && v[0] == '+' {
        let p = part(&v, 1, v.len());
        assert(p@ =~= v@.skip(1));
        p
    } else {
        v
    };
    if !is_all_digits(&body) {
        return None;
    }
    digits_value(&body, most)
}

// ---------------------------------------------------------------------------
// Filtering
// ---------------------------------------------------------------------------

/// What a filter keeps came from the sequence and meets the condition.
pub proof fn lemma_filter_from<A>(s: Seq<A>, p: spec_fn(A) -> bool)
    ensures
        forall|i: int|
            0 <= i < s.filter(p).len() ==> p(#[trigger] s.filter(p)[i]) && s.contains(
                s.filter(p)[i],
            ),
    decreases s.len(),
{
    reveal(Seq::filter);
    if s.len() > 0 {
        let front = s.drop_last();
        lemma_filter_from(front, p);
        assert forall|i: int| 0 <= i < s.filter(p).len() implies p(#[trigger] s.filter(p)[i])
            && s.contains(s.filter(p)[i]) by {
            if i < front.filter(p).len() {
                assert(s.filter(p)[i] == front.filter(p)[i]);
                let j = choose|j: int| 0 <= j < front.len() && front[j] == front.filter(p)[i];
                assert(s[j] == front[j]);
            } else {
                assert(s[s.len() - 1] == s.filter(p)[i]);
            }
        }
    }
}

/// A filter that everything meets keeps everything.
pub proof fn lemma_filter_all<A>(s: Seq<A>, p: spec_fn(A) -> bool)
    requires
        forall|i: int| 0 <= i < s.len() ==> p(#[trigger] s[i]),
    ensures
        s.filter(p) == s,
    decreases s.len(),
{
    reveal(Seq::filter);
    if s.len() > 0 {
        let front = s.drop_last();
        assert(forall|i: int| 0 <= i < front.len() ==> front[i] == s[i]);
        lemma_filter_all(front, p);
        assert(p(s[s.len() - 1]));
        assert(front.push(s.last()) =~= s);
    }
}

// ---------------------------------------------------------------------------
// Separators
// ---------------------------------------------------------------------------

/// The pieces between separators, empty ones among them. There is always at
/// least one piece.
pub open spec fn split(s: Seq<char>, seps: Seq<char>) -> Seq<Seq<char>>
    decreases s.len(),
{
    if s.len() == 0 {
        seq![Seq::<char>::empty()]
    } else {
        let before = split(s.drop_last(), seps);
        if seps.contains(s.last()) {
            before.push(Seq::<char>::empty())
        } else {
            before.drop_last().push(before.last().push(s.last()))
        }
    }
}

/// No separator stands in the text.
pub open spec fn free_of(s: Seq<char>, seps: Seq<char>) -> bool {
    forall|i: int| 0 <= i < s.len() ==> !seps.contains(#[trigger] s[i])
}

/// The parts with a text between each two.
pub open spec fn join(parts: Seq<Seq<char>>, sep: Seq<char>) -> Seq<char>
    decreases parts.len(),
{
    if parts.len() == 0 {
        Seq::<char>::empty()
    } else if parts.len() == 1 {
        parts[0]
    } else {
        join(parts.drop_last(), sep) + sep + parts.last()
    }
}

/// The texts of a list of strings.
pub open spec fn texts(v: Seq<String>) -> Seq<Seq<char>> {
    v.map_values(|s: String| s@)
}

pub proof fn lemma_split_nonempty(s: Seq<char>, seps: Seq<char>)
    ensures
        split(s, seps).len() > 0,
    decreases s.len(),
{
    if s.len() > 0 {
        lemma_split_nonempty(s.drop_last(), seps);
    }
}

/// No piece holds a separator.
pub proof fn lemma_pieces_free(s: Seq<char>, seps: Seq<char>)
    ensures
        forall|i: int|
            0 <= i < split(s, seps).len() ==> free_of(#[trigger] split(s, seps)[i], seps),
    decreases s.len(),
{
    if s.len() > 0 {
        lemma_pieces_free(s.drop_last(), seps);
        lemma_split_nonempty(s.drop_last(), seps);
        let before = split(s.drop_last(), seps);
        assert(free_of(before[before.len() - 1], seps));
        assert forall|i: int| 0 <= i < split(s, seps).len() implies free_of(
            #[trigger] split(s, seps)[i],
            seps,
        ) by {
            if i < before.len() - 1 {
                assert(split(s, seps)[i] == before[i]);
            }
        }
    }
}

/// A text without separators is one piece.
pub proof fn lemma_split_free(s: Seq<char>, seps: Seq<char>)
    requires
        free_of(s, seps),
    ensures
        split(s, seps) == seq![s],
    decreases s.len(),
{
    if s.len() > 0 {
        let shorter = s.drop_last();
        assert(forall|i: int| 0 <= i < shorter.len() ==> shorter[i] == s[i]);
        lemma_split_free(shorter, seps);
        assert(!seps.contains(s[s.len() - 1]));
        assert(shorter.push(s.last()) =~= s);
        assert(split(s, seps) =~= seq![s]);
    } else {
        assert(s =~= Seq::<char>::empty());
    }
}

/// A separator followed by a text without any ends the pieces before it and
/// adds one more.
pub proof fn lemma_split_append(a: Seq<char>, c: char, b: Seq<char>, seps: Seq<char>)
    requires
        seps.contains(c),
        free_of(b, seps),
    ensures
        split(a + seq![c] + b, seps) == split(a, seps).push(b),
    decreases b.len(),
{
    let whole = a + seq![c] + b;
    if b.len() == 0 {
        assert(whole.drop_last() =~= a);
        assert(whole.last() == c);
        assert(b =~= Seq::<char>::empty());
    } else {
        let shorter = b.drop_last();
        assert(forall|i: int| 0 <= i < shorter.len() ==> shorter[i] == b[i]);
        lemma_split_append(a, c, shorter, seps);
        assert(whole.drop_last() =~= a + seq![c] + shorter);
        assert(whole.last() == b.last());
        assert(!seps.contains(b[b.len() - 1]));
        let before = split(a, seps).push(shorter);
        assert(before.drop_last() =~= split(a, seps));
        assert(shorter.push(b.last()) =~= b);
    }
}

/// Parts that hold no separator come back when what was joined is split.
pub proof fn law_split_undoes_join(parts: Seq<Seq<char>>, c: char, seps: Seq<char>)
    requires
        parts.len() > 0,
        seps.contains(c),
        forall|i: int| 0 <= i < parts.len() ==> free_of(#[trigger] parts[i], seps),
    ensures
        split(join(parts, seq![c]), seps) == parts,
    decreases parts.len(),
{
    if parts.len() == 1 {
        assert(free_of(parts[0], seps));
        lemma_split_free(parts[0], seps);
        assert(parts =~= seq![parts[0]]);
    } else {
        let front = parts.drop_last();
        assert(forall|i: int| 0 <= i < front.len() ==> front[i] == parts[i]);
        law_split_undoes_join(front, c, seps);
        assert(free_of(parts[parts.len() - 1], seps));
        lemma_split_append(join(front, seq![c]), c, parts.last(), seps);
        assert(front.push(parts.last()) =~= parts);
    }
}

/// Does this character stand among these?
pub fn is_among(c: char, set: &[char]) -> (r: bool)
    ensures
        r == set@.contains(c),
{
    let mut i: usize = 0;
    while i < set.len()
        invariant
            i <= set@.len(),
            forall|j: int| 0 <= j < i ==> set@[j] != c,
        decreases set@.len() - i,
    {
        if set[i] == c {
            assert(set@[i as int] == c);
            return true;
        }
        i += 1;
    }
    false
}

/// The pieces of a text between separators.
pub fn split_chars(s: &[char], seps: &[char]) -> (r: Vec<Vec<char>>)
    ensures
        r@.map_values(|p: Vec<char>| p@) == split(s@, seps@),
{
    let mut done: Vec<Vec<char>> = Vec::new();
    let mut current: Vec<char> = Vec::new();
    let mut i: usize = 0;
    assert(s@.take(0) =~= Seq::<char>::empty());
    assert(done@.map_values(|p: Vec<char>| p@).push(current@) =~= split(s@.take(0), seps@));
    while i < s.len()
        invariant
            i <= s@.len(),
            done@.map_values(|p: Vec<char>| p@).push(current@) == split(s@.take(i as int), seps@),
        decreases s@.len() - i,
    {
        let ghost before = done@.map_values(|p: Vec<char>| p@);
        let ghost half = current@;
        assert(s@.take(i + 1).drop_last() =~= s@.take(i as int));
        assert(s@.take(i + 1).last() == s@[i as int]);
        assert(before.push(half).drop_last() =~= before);
        let c = s[i];
        if is_among(c, seps) {
            done.push(current);
            current = Vec::new();
            assert(done@.map_values(|p: Vec<char>| p@) =~= before.push(half));
            assert(current@ =~= Seq::<char>::empty());
        } else {
            current.push(c);
        }
        i += 1;
    }
    assert(s@.take(s@.len() as int) =~= s@);
    let ghost before = done@.map_values(|p: Vec<char>| p@);
    let ghost half = current@;
    done.push(current);
    assert(done@.map_values(|p: Vec<char>| p@) =~= before.push(half));
    done
}

/// The pieces of a text between separators, as strings.
pub fn split_text(s: &str, seps: &[char]) -> (r: Vec<String>)
    ensures
        texts(r@) == split(s@, seps@),
{
    let pieces = split_chars(&chars_of(s), seps);
    let mut out: Vec<String> = Vec::new();
    let mut i: usize = 0;
    while i < pieces.len()
        invariant
            i <= pieces@.len(),
            out@.len() == i,
            forall|j: int| 0 <= j < i ==> (#[trigger] out@[j])@ == pieces@[j]@,
        decreases pieces@.len() - i,
    {
        out.push(text_of(&pieces[i]));
        i += 1;
    }
    assert(texts(out@) =~= pieces@.map_values(|p: Vec<char>| p@));
    out
}

/// The strings with a text between each two.
pub fn join_text(parts: &[String], sep: &str) -> (r: String)
    ensures
        r@ == join(texts(parts@), sep@),
{
    let mut out = String::new();
    let mut i: usize = 0;
    while i < parts.len()
        invariant
            i <= parts@.len(),
            out@ == join(texts(parts@).take(i as int), sep@),
        decreases parts@.len() - i,
    {
        let ghost front = texts(parts@).take(i as int);
        let ghost more = texts(parts@).take(i + 1);
        assert(more.drop_last() =~= front);
        assert(more.last() == parts@[i as int]@);
        if i > 0 {
            out.append(sep);
            out.append(parts[i].as_str());
        } else {
            out = parts[i].clone();
        }
        i += 1;
    }
    assert(texts(parts@).take(parts@.len() as int) =~= texts(parts@));
    out
}

}
