//! Network addresses: reading them, writing them, and what kind they are.
use vstd::prelude::*;
use vstd::string::*;

use crate::scan::{contains, first_at, occurs, position};
use crate::text::{
    all_digits, chars_of, dec, decimal, digits_value, free_of, is_all_digits, join, join_text,
    law_decimal_reads_back, law_split_undoes_join, num, part, split, split_chars, texts,
};

verus! {

/// An address, as the number its digits spell.
#[derive(Debug, Clone, Copy, PartialEq, Eq, Structural)]
pub enum Address {
    V4(u32),
    V6(u128),
}

// ---------------------------------------------------------------------------
// Reading
// ---------------------------------------------------------------------------

/// One of the four numbers of an IPv4 address: up to 255, without leading
/// zeros.
pub open spec fn octet(s: Seq<char>) -> Option<nat> {
    if all_digits(s) && s.len() <= 3 && (s.len() == 1 || s[0] != '0') && num(s) <= 255 {
        Some(num(s))
    } else {
        None
    }
}

/// The IPv4 address that a text spells.
pub open spec fn v4_reads(s: Seq<char>) -> Option<nat> {
    let p = split(s, seq!['.']);
    if p.len() == 4 && octet(p[0]) is Some && octet(p[1]) is Some && octet(p[2]) is Some && octet(
        p[3],
    ) is Some {
        Some(
            octet(p[0])->0 * 0x1000000 + octet(p[1])->0 * 0x10000 + octet(p[2])->0 * 0x100 + octet(
                p[3],
            )->0,
        )
    } else {
        None
    }
}

/// The value of a hexadecimal digit, in either case.
pub open spec fn hex_digit(c: char) -> Option<nat> {
    if '0' <= c && c <= '9' {
        Some((c as int - 48) as nat)
    } else if 'a' <= c && c <= 'f' {
        Some((c as int - 87) as nat)
    } else if 'A' <= c && c <= 'F' {
        Some((c as int - 55) as nat)
    } else {
        None
    }
}

/// Nothing but hexadecimal digits.
pub open spec fn all_hex(s: Seq<char>) -> bool {
    forall|i: int| 0 <= i < s.len() ==> hex_digit(#[trigger] s[i]) is Some
}

pub open spec fn hex_num(s: Seq<char>) -> nat
    decreases s.len(),
{
    if s.len() == 0 {
        0
    } else {
        hex_num(s.drop_last()) * 16 + hex_digit(s.last())->0
    }
}

/// One group of an IPv6 address: one to four hexadecimal digits.
pub open spec fn group(s: Seq<char>) -> Option<nat> {
    if 1 <= s.len() <= 4 && all_hex(s) {
        Some(hex_num(s))
    } else {
        None
    }
}

/// The groups that pieces spell. The last may be an IPv4 address, which is
/// two groups, where `v4_last` allows it.
pub open spec fn groups(p: Seq<Seq<char>>, v4_last: bool) -> Option<Seq<nat>>
    decreases p.len(),
{
    if p.len() == 0 {
        Some(Seq::empty())
    } else {
        match groups(p.drop_last(), false) {
            None => None,
            Some(front) => match group(p.last()) {
                Some(g) => Some(front.push(g)),
                None => match v4_reads(p.last()) {
                    Some(n) => if v4_last {
                        Some(front.push(n / 0x10000).push(n % 0x10000))
                    } else {
                        None
                    },
                    None => None,
                },
            },
        }
    }
}

/// The groups between the colons of a text; no text, no groups.
pub open spec fn colon_groups(s: Seq<char>, v4_last: bool) -> Option<Seq<nat>> {
    if s.len() == 0 {
        Some(Seq::empty())
    } else {
        groups(split(s, seq![':']), v4_last)
    }
}

/// The number that groups of sixteen bits make up.
pub open spec fn of_groups(g: Seq<nat>) -> nat
    decreases g.len(),
{
    if g.len() == 0 {
        0
    } else {
        of_groups(g.drop_last()) * 0x10000 + g.last()
    }
}

pub open spec fn zeros(n: nat) -> Seq<nat> {
    Seq::new(n, |i: int| 0nat)
}

pub open spec fn double_colon() -> Seq<char> {
    seq![':', ':']
}

/// The IPv6 address that a text spells: eight groups, or fewer around a double
/// colon that stands for the rest.
pub open spec fn v6_reads(s: Seq<char>) -> Option<nat> {
    if exists|at: int| first_at(s, double_colon(), at) {
        let at = choose|at: int| first_at(s, double_colon(), at);
        match (colon_groups(s.take(at), false), colon_groups(s.skip(at + 2), true)) {
            (Some(a), Some(b)) => if a.len() + b.len() <= 7 {
                Some(of_groups(a + zeros((8 - a.len() - b.len()) as nat) + b))
            } else {
                None
            },
            _ => None,
        }
    } else {
        match colon_groups(s, true) {
            Some(g) => if g.len() == 8 {
                Some(of_groups(g))
            } else {
                None
            },
            None => None,
        }
    }
}

/// The address that a text spells.
pub open spec fn reads(s: Seq<char>) -> Option<Address> {
    match v4_reads(s) {
        Some(n) => Some(Address::V4(n as u32)),
        None => match v6_reads(s) {
            Some(n) => Some(Address::V6(n as u128)),
            None => None,
        },
    }
}

fn read_octet(s: &[char]) -> (r: Option<u32>)
    ensures
        match r {
            Some(n) => octet(s@) == Some(n as nat) && n <= 255,
            None => octet(s@) is None,
        },
{
    if !is_all_digits(s) || s.len() > 3 || (s.len() != 1 && s[0] == '0') {
        return None;
    }
    match digits_value(s, 255) {
        Some(n) => Some(n as u32),
        None => None,
    }
}

fn read_v4(s: &[char]) -> (r: Option<u32>)
    ensures
        match r {
            Some(n) => v4_reads(s@) == Some(n as nat),
            None => v4_reads(s@) is None,
        },
{
    let dot: [char; 1] = ['.'];
    assert(dot@ =~= seq!['.']);
    let p = split_chars(s, &dot);
    let ghost q = split(s@, seq!['.']);
    assert(q == p@.map_values(|p: Vec<char>| p@));
    assert(q.len() == p@.len());
    if p.len() != 4 {
        return None;
    }
    assert(q[0] == p@[0]@ && q[1] == p@[1]@ && q[2] == p@[2]@ && q[3] == p@[3]@);
    match (read_octet(&p[0]), read_octet(&p[1]), read_octet(&p[2]), read_octet(&p[3])) {
        (Some(a), Some(b), Some(c), Some(d)) => {
            Some(a * 0x1000000 + b * 0x10000 + c * 0x100 + d)
        },
        _ => None,
    }
}

fn hex_value(c: char) -> (r: Option<u128>)
    ensures
        match r {
            Some(n) => hex_digit(c) == Some(n as nat) && n < 16,
            None => hex_digit(c) is None,
        },
{
    let n: u32 = c as u32;
    if '0' <= c && c <= '9' {
        Some((n - 48) as u128)
    } else if 'a' <= c && c <= 'f' {
        Some((n - 87) as u128)
    } else if 'A' <= c && c <= 'F' {
        Some((n - 55) as u128)
    } else {
        None
    }
}

pub open spec fn power16(n: nat) -> nat
    decreases n,
{
    if n == 0 {
        1
    } else {
        16 * power16((n - 1) as nat)
    }
}

fn read_group(s: &[char]) -> (r: Option<u128>)
    ensures
        match r {
            Some(n) => group(s@) == Some(n as nat) && n < 0x10000,
            None => group(s@) is None,
        },
{
    if s.len() < 1 || s.len() > 4 {
        return None;
    }
    let mut n: u128 = 0;
    let mut i: usize = 0;
    while i < s.len()
        invariant
            s@.len() <= 4,
            i <= s@.len(),
            n == hex_num(s@.take(i as int)),
            n < power16(i as nat),
            forall|j: int| 0 <= j < i ==> hex_digit(#[trigger] s@[j]) is Some,
        decreases s@.len() - i,
    {
        proof {
            reveal_with_fuel(power16, 6);
            assert(s@.take(i + 1).drop_last() =~= s@.take(i as int));
        }
        match hex_value(s[i]) {
            None => {
                return None;
            },
            Some(d) => {
                n = n * 16 + d;
            },
        }
        i += 1;
    }
    proof {
        reveal_with_fuel(power16, 6);
        assert(s@.take(s@.len() as int) =~= s@);
    }
    Some(n)
}

/// Every group fits in sixteen bits.
pub open spec fn all_small(g: Seq<nat>) -> bool {
    forall|i: int| 0 <= i < g.len() ==> #[trigger] g[i] < 0x10000
}

pub open spec fn numbers(v: Seq<u128>) -> Seq<nat> {
    v.map_values(|n: u128| n as nat)
}

fn read_groups(p: &Vec<Vec<char>>, n: usize, v4_last: bool) -> (r: Option<Vec<u128>>)
    requires
        n <= p@.len(),
    ensures
        match r {
            Some(g) => groups(p@.map_values(|p: Vec<char>| p@).take(n as int), v4_last) == Some(
                numbers(g@),
            ) && all_small(numbers(g@)),
            None => groups(p@.map_values(|p: Vec<char>| p@).take(n as int), v4_last) is None,
        },
    decreases n,
{
    let ghost all = p@.map_values(|p: Vec<char>| p@);
    if n == 0 {
        let none: Vec<u128> = Vec::new();
        assert(numbers(none@) =~= Seq::empty());
        return Some(none);
    }
    proof {
        assert(all.take(n as int).drop_last() =~= all.take(n - 1));
        assert(all.take(n as int).last() == p@[n - 1]@);
    }
    let mut front = match read_groups(p, n - 1, false) {
        None => {
            return None;
        },
        Some(f) => f,
    };
    let ghost was = numbers(front@);
    let ghost before = front@;
    let piece = &p[n - 1];
    match read_group(piece) {
        Some(g) => {
            front.push(g);
            assert(numbers(front@) =~= was.push(g as nat));
            Some(front)
        },
        None => match read_v4(piece) {
            Some(v) => if v4_last {
                let high: u128 = (v / 0x10000) as u128;
                let low: u128 = (v % 0x10000) as u128;
                front.push(high);
                front.push(low);
                assert(numbers(front@) =~= was.push(high as nat).push(low as nat));
                Some(front)
            } else {
                None
            },
            None => None,
        },
    }
}

fn read_colon_groups(s: &[char], v4_last: bool) -> (r: Option<Vec<u128>>)
    ensures
        match r {
            Some(g) => colon_groups(s@, v4_last) == Some(numbers(g@)) && all_small(numbers(g@)),
            None => colon_groups(s@, v4_last) is None,
        },
{
    if s.len() == 0 {
        let none: Vec<u128> = Vec::new();
        assert(numbers(none@) =~= Seq::empty());
        return Some(none);
    }
    let colon: [char; 1] = [':'];
    assert(colon@ =~= seq![':']);
    let p = split_chars(s, &colon);
    let ghost all = p@.map_values(|p: Vec<char>| p@);
    assert(all.take(p@.len() as int) =~= all);
    read_groups(&p, p.len(), v4_last)
}

pub open spec fn power(n: nat) -> nat
    decreases n,
{
    if n == 0 {
        1
    } else {
        0x10000 * power((n - 1) as nat)
    }
}

pub proof fn lemma_of_groups_bound(g: Seq<nat>)
    requires
        all_small(g),
    ensures
        of_groups(g) < power(g.len()),
    decreases g.len(),
{
    if g.len() > 0 {
        let front = g.drop_last();
        assert(forall|i: int| 0 <= i < front.len() ==> front[i] == g[i]);
        lemma_of_groups_bound(front);
        assert(g[g.len() - 1] < 0x10000);
    }
}

fn number_of(g: &Vec<u128>) -> (r: u128)
    requires
        g@.len() == 8,
        all_small(numbers(g@)),
    ensures
        r == of_groups(numbers(g@)),
{
    let ghost all = numbers(g@);
    let mut n: u128 = 0;
    let mut i: usize = 0;
    while i < 8
        invariant
            g@.len() == 8,
            all == numbers(g@),
            all_small(all),
            i <= 8,
            n == of_groups(all.take(i as int)),
            n < power(i as nat),
        decreases 8 - i,
    {
        proof {
            reveal_with_fuel(power, 10);
            assert(all.take(i + 1).drop_last() =~= all.take(i as int));
            assert(all[i as int] < 0x10000);
        }
        n = n * 0x10000 + g[i];
        i += 1;
    }
    assert(all.take(8) =~= all);
    n
}

fn read_v6(s: &[char]) -> (r: Option<u128>)
    ensures
        match r {
            Some(n) => v6_reads(s@) == Some(n as nat),
            None => v6_reads(s@) is None,
        },
{
    let double: [char; 2] = [':', ':'];
    assert(double@ =~= double_colon());
    match position(s, &double) {
        Some(at) => {
            proof {
                let chosen = choose|at: int| first_at(s@, double_colon(), at);
                assert(first_at(s@, double_colon(), at as int));
                assert(chosen == at);
                assert(double_colon().len() == 2);
                assert(at + 2 <= s@.len());
            }
            let end: usize = s.len();
            assert(s@.subrange(0, at as int) =~= s@.take(at as int));
            assert(s@.subrange(at + 2, s@.len() as int) =~= s@.skip(at + 2));
            let a = match read_colon_groups(&part(s, 0, at), false) {
                None => {
                    return None;
                },
                Some(a) => a,
            };
            let b = match read_colon_groups(&part(s, at + 2, end), true) {
                None => {
                    return None;
                },
                Some(b) => b,
            };
            if a.len() > 7 || b.len() > 7 - a.len() {
                return None;
            }
            let ghost ga = numbers(a@);
            let ghost gb = numbers(b@);
            let ghost gap = (8 - ga.len() - gb.len()) as nat;
            let mut g: Vec<u128> = Vec::new();
            let mut i: usize = 0;
            while i < 8
                invariant
                    ga == numbers(a@),
                    gb == numbers(b@),
                    a@.len() + b@.len() <= 7,
                    gap == 8 - a@.len() - b@.len(),
                    i <= 8,
                    g@.len() == i,
                    forall|j: int|
                        0 <= j < i ==> (#[trigger] g@[j]) as nat == (ga + zeros(gap) + gb)[j],
                decreases 8 - i,
            {
                if i < a.len() {
                    g.push(a[i]);
                } else if i < 8 - b.len() {
                    g.push(0);
                } else {
                    g.push(b[i - (8 - b.len())]);
                }
                i += 1;
            }
            proof {
                assert(numbers(g@) =~= ga + zeros(gap) + gb);
                assert(all_small(numbers(g@)));
            }
            Some(number_of(&g))
        },
        None => {
            assert(forall|at: int| first_at(s@, double_colon(), at) ==> #[trigger]
                crate::scan::occurs(s@, double_colon(), at));
            match read_colon_groups(s, true) {
                Some(g) => if g.len() == 8 {
                    Some(number_of(&g))
                } else {
                    None
                },
                None => None,
            }
        },
    }
}

// ---------------------------------------------------------------------------
// Writing
// ---------------------------------------------------------------------------

/// An IPv4 address in the usual four numbers.
pub open spec fn v4_text(n: nat) -> Seq<char> {
    dec(n / 0x1000000) + "."@ + dec((n / 0x10000) % 0x100) + "."@ + dec((n / 0x100) % 0x100) + "."@
        + dec(n % 0x100)
}

pub open spec fn hex_char(d: nat) -> char {
    if d < 10 {
        (48 + d) as char
    } else {
        (87 + d) as char
    }
}

/// A number in hexadecimal, lower case, without leading zeros.
pub open spec fn hex(n: nat) -> Seq<char>
    decreases n,
{
    if n < 16 {
        seq![hex_char(n)]
    } else {
        hex(n / 16).push(hex_char(n % 16))
    }
}

/// The lowest `count` groups of sixteen bits of a number, highest first.
pub open spec fn groups_of(n: nat, count: nat) -> Seq<nat>
    decreases count,
{
    if count == 0 {
        Seq::empty()
    } else {
        groups_of(n / 0x10000, (count - 1) as nat).push(n % 0x10000)
    }
}

/// How many groups in a row are zero from a position on.
pub open spec fn zero_run(g: Seq<nat>, i: int) -> nat
    decreases g.len() - i,
{
    if 0 <= i < g.len() && g[i] == 0 {
        1 + zero_run(g, i + 1)
    } else {
        0
    }
}

/// The first of the longest runs of zeros from a position on: where it starts
/// and how long it is.
pub open spec fn longest_run(g: Seq<nat>, i: int) -> (int, nat)
    decreases g.len() - i,
{
    if i < 0 || i >= g.len() {
        (i, 0)
    } else {
        let later = longest_run(g, i + 1);
        if zero_run(g, i) >= later.1 {
            (i, zero_run(g, i))
        } else {
            later
        }
    }
}

pub open spec fn hex_parts(g: Seq<nat>) -> Seq<Seq<char>> {
    g.map_values(|n: nat| hex(n))
}

/// Groups in hexadecimal with colons between them.
pub open spec fn colon_text(g: Seq<nat>) -> Seq<char> {
    join(hex_parts(g), seq![':'])
}

/// An IPv6 address in its canonical form: the longest run of two or more zero
/// groups left out, and an address that maps an IPv4 one ending in it.
pub open spec fn v6_text(n: nat) -> Seq<char> {
    let g = groups_of(n, 8);
    let run = longest_run(g, 0);
    if n / 0x100000000 == 0xffff {
        "::ffff:"@ + v4_text(n % 0x100000000)
    } else if run.1 > 1 {
        colon_text(g.take(run.0)) + "::"@ + colon_text(g.skip(run.0 + run.1))
    } else {
        colon_text(g)
    }
}

/// An address as it is written.
pub open spec fn address_text(a: Address) -> Seq<char> {
    match a {
        Address::V4(n) => v4_text(n as nat),
        Address::V6(n) => v6_text(n as nat),
    }
}

fn write_v4(n: u32) -> (r: String)
    ensures
        r@ == v4_text(n as nat),
{
    decimal((n / 0x1000000) as u64).concat(".").concat(
        decimal(((n / 0x10000) % 0x100) as u64).as_str(),
    ).concat(".").concat(decimal(((n / 0x100) % 0x100) as u64).as_str()).concat(".").concat(
        decimal((n % 0x100) as u64).as_str(),
    )
}

fn write_hex(n: u128) -> (r: String)
    ensures
        r@ == hex(n as nat),
    decreases n,
{
    let d: u8 = (n % 16) as u8;
    let c = if d < 10 {
        (48 + d) as char
    } else {
        (87 + d) as char
    };
    if n < 16 {
        let mut s = String::new();
        s.push(c);
        assert(s@ =~= seq![hex_char(n as nat)]);
        s
    } else {
        let mut s = write_hex(n / 16);
        s.push(c);
        s
    }
}

fn split_groups(n: u128, count: usize) -> (r: Vec<u128>)
    ensures
        numbers(r@) == groups_of(n as nat, count as nat),
    decreases count,
{
    if count == 0 {
        let none: Vec<u128> = Vec::new();
        assert(numbers(none@) =~= Seq::empty());
        none
    } else {
        let mut front = split_groups(n / 0x10000, count - 1);
        let ghost was = numbers(front@);
        front.push(n % 0x10000);
        assert(numbers(front@) =~= was.push((n % 0x10000) as nat));
        front
    }
}

fn write_groups(g: &Vec<u128>, from: usize, to: usize) -> (r: String)
    requires
        from <= to <= g@.len(),
    ensures
        r@ == colon_text(numbers(g@).subrange(from as int, to as int)),
{
    let ghost wanted = numbers(g@).subrange(from as int, to as int);
    let mut parts: Vec<String> = Vec::new();
    let mut i: usize = from;
    while i < to
        invariant
            from <= i <= to <= g@.len(),
            parts@.len() == i - from,
            forall|j: int| 0 <= j < i - from ==> (#[trigger] parts@[j])@ == hex(g@[from + j] as nat),
        decreases to - i,
    {
        parts.push(write_hex(g[i]));
        i += 1;
    }
    assert(texts(parts@) =~= hex_parts(wanted));
    let r = join_text(&parts, ":");
    proof {
        reveal_strlit(":");
        assert(":"@ =~= seq![':']);
    }
    r
}

fn run_from(g: &Vec<u128>, i: usize) -> (r: usize)
    requires
        i <= g@.len(),
    ensures
        r == zero_run(numbers(g@), i as int),
        i + r <= g@.len(),
    decreases g@.len() - i,
{
    if i < g.len() && g[i] == 0 {
        1 + run_from(g, i + 1)
    } else {
        0
    }
}

fn best_run(g: &Vec<u128>, i: usize) -> (r: (usize, usize))
    requires
        i <= g@.len(),
    ensures
        (r.0 as int, r.1 as nat) == longest_run(numbers(g@), i as int),
        r.0 + r.1 <= g@.len(),
    decreases g@.len() - i,
{
    if i >= g.len() {
        (i, 0)
    } else {
        let later = best_run(g, i + 1);
        let here = run_from(g, i);
        if here >= later.1 {
            (i, here)
        } else {
            later
        }
    }
}

fn write_v6(n: u128) -> (r: String)
    ensures
        r@ == v6_text(n as nat),
{
    if n / 0x100000000 == 0xffff {
        return "::ffff:".to_string().concat(write_v4((n % 0x100000000) as u32).as_str());
    }
    let g = split_groups(n, 8);
    let ghost all = numbers(g@);
    let run = best_run(&g, 0);
    if run.1 > 1 {
        assert(all.subrange(0, run.0 as int) =~= all.take(run.0 as int));
        assert(all.subrange(run.0 + run.1, g@.len() as int) =~= all.skip(run.0 + run.1));
        write_groups(&g, 0, run.0).concat("::").concat(
            write_groups(&g, run.0 + run.1, g.len()).as_str(),
        )
    } else {
        assert(all.subrange(0, g@.len() as int) =~= all);
        write_groups(&g, 0, g.len())
    }
}

// ---------------------------------------------------------------------------
// What kind of address
// ---------------------------------------------------------------------------

/// An address of the machine itself: 127.0.0.0/8, or ::1.
pub open spec fn loopback(a: Address) -> bool {
    match a {
        Address::V4(n) => n / 0x1000000 == 127,
        Address::V6(n) => n == 1,
    }
}

/// An address that means something on one link only: 169.254.0.0/16, fe80::/10.
pub open spec fn link_local(a: Address) -> bool {
    match a {
        Address::V4(n) => n / 0x10000 == 0xa9fe,
        Address::V6(n) => n / 0x400000_00000000_00000000_00000000 == 0x3fa,
    }
}

impl Address {
    /// The address that a text spells.
    pub fn parse(s: &str) -> (r: Option<Address>)
        ensures
            r == reads(s@),
    {
        let v = chars_of(s);
        match read_v4(&v) {
            Some(n) => Some(Address::V4(n)),
            None => match read_v6(&v) {
                Some(n) => Some(Address::V6(n)),
                None => None,
            },
        }
    }

    /// The address as it is written.
    pub fn text(&self) -> (r: String)
        ensures
            r@ == address_text(*self),
    {
        match self {
            Address::V4(n) => write_v4(*n),
            Address::V6(n) => write_v6(*n),
        }
    }

    pub fn is_loopback(&self) -> (r: bool)
        ensures
            r == loopback(*self),
    {
        match self {
            Address::V4(n) => *n / 0x1000000 == 127,
            Address::V6(n) => *n == 1,
        }
    }

    pub fn is_link_local(&self) -> (r: bool)
        ensures
            r == link_local(*self),
    {
        match self {
            Address::V4(n) => *n / 0x10000 == 0xa9fe,
            Address::V6(n) => *n / 0x400000_00000000_00000000_00000000 == 0x3fa,
        }
    }

    pub fn is_v4(&self) -> (r: bool)
        ensures
            r == (*self is V4),
    {
        match self {
            Address::V4(_) => true,
            Address::V6(_) => false,
        }
    }
}

// ---------------------------------------------------------------------------
// What is written reads back
// ---------------------------------------------------------------------------

proof fn lemma_octet(n: nat)
    requires
        n < 256,
    ensures
        octet(dec(n)) == Some(n),
        free_of(dec(n), seq!['.']),
        free_of(dec(n), seq![':']),
{
    law_decimal_reads_back(n);
    reveal_with_fuel(dec, 3);
    assert forall|i: int| 0 <= i < dec(n).len() implies !seq!['.'].contains(#[trigger] dec(n)[i])
        && !seq![':'].contains(dec(n)[i]) by {
        assert(crate::text::is_digit(dec(n)[i]));
    }
}

#[verifier::rlimit(60)]
#[verifier::spinoff_prover]
proof fn lemma_v4(n: nat)
    requires
        n < 0x100000000,
    ensures
        v4_reads(v4_text(n)) == Some(n),
        free_of(v4_text(n), seq![':']),
        v4_text(n).contains('.'),
{
    let a = dec(n / 0x1000000);
    let b = dec((n / 0x10000) % 0x100);
    let c = dec((n / 0x100) % 0x100);
    let d = dec(n % 0x100);
    lemma_octet(n / 0x1000000);
    lemma_octet((n / 0x10000) % 0x100);
    lemma_octet((n / 0x100) % 0x100);
    lemma_octet(n % 0x100);
    let p = seq![a, b, c, d];
    reveal_strlit(".");
    assert("."@ =~= seq!['.']);
    assert(join(p, seq!['.']) == v4_text(n)) by {
        reveal_with_fuel(join, 4);
        assert(p.drop_last() =~= seq![a, b, c]);
        assert(seq![a, b, c].drop_last() =~= seq![a, b]);
        assert(seq![a, b].drop_last() =~= seq![a]);
        assert(join(seq![a], seq!['.']) == a);
        assert(join(seq![a, b], seq!['.']) == a + seq!['.'] + b);
        assert(join(seq![a, b, c], seq!['.']) == a + seq!['.'] + b + seq!['.'] + c);
    }
    assert(seq!['.'].contains('.')) by {
        assert(seq!['.'][0] == '.');
    }
    law_split_undoes_join(p, '.', seq!['.']);
    let s = v4_text(n);
    assert(s[a.len() as int] == '.');
    assert forall|i: int| 0 <= i < s.len() implies !seq![':'].contains(#[trigger] s[i]) by {
        let x = a.len() as int;
        let y = x + 1 + b.len();
        let z = y + 1 + c.len();
        if i < x {
            assert(s[i] == a[i]);
        } else if i == x {
        } else if i < y {
            assert(s[i] == b[i - x - 1]);
        } else if i == y {
            assert(s[i] == '.');
        } else if i < z {
            assert(s[i] == c[i - y - 1]);
        } else if i == z {
            assert(s[i] == '.');
        } else {
            assert(s[i] == d[i - z - 1]);
        }
    }
}

/// A character that is no separator stands in one of the pieces.
proof fn lemma_in_a_piece(s: Seq<char>, seps: Seq<char>, i: int)
    requires
        0 <= i < s.len(),
        !seps.contains(s[i]),
    ensures
        exists|k: int|
            0 <= k < split(s, seps).len() && (#[trigger] split(s, seps)[k]).contains(s[i]),
    decreases s.len(),
{
    let before = split(s.drop_last(), seps);
    let p = split(s, seps);
    crate::text::lemma_split_nonempty(s.drop_last(), seps);
    if i < s.len() - 1 {
        lemma_in_a_piece(s.drop_last(), seps, i);
        let k = choose|k: int| 0 <= k < before.len() && (#[trigger] before[k]).contains(s[i]);
        if k < before.len() - 1 || seps.contains(s.last()) {
            assert(p[k] == before[k]);
        } else {
            let m = choose|m: int| 0 <= m < before[k].len() && before[k][m] == s[i];
            assert(p[k][m] == s[i]);
        }
        assert(p[k].contains(s[i]));
    } else {
        let k = p.len() - 1;
        assert(p[k][p[k].len() - 1] == s[i]);
        assert(p[k].contains(s[i]));
    }
}

proof fn lemma_colon_is_no_v4(s: Seq<char>)
    requires
        s.contains(':'),
    ensures
        v4_reads(s) is None,
{
    let i = choose|i: int| 0 <= i < s.len() && s[i] == ':';
    let p = split(s, seq!['.']);
    lemma_in_a_piece(s, seq!['.'], i);
    let k = choose|k: int| 0 <= k < p.len() && (#[trigger] p[k]).contains(':');
    let m = choose|m: int| 0 <= m < p[k].len() && p[k][m] == ':';
    if octet(p[k]) is Some {
        assert(crate::text::is_digit(p[k][m]));
    }
}

proof fn lemma_hex_char(d: nat)
    requires
        d < 16,
    ensures
        hex_digit(hex_char(d)) == Some(d),
        hex_char(d) != ':',
{
}

proof fn lemma_hex(n: nat)
    ensures
        all_hex(hex(n)),
        hex_num(hex(n)) == n,
        hex(n).len() > 0,
        free_of(hex(n), seq![':']),
        n < 0x10000 ==> hex(n).len() <= 4,
        n < 0x1000 ==> hex(n).len() <= 3,
        n < 0x100 ==> hex(n).len() <= 2,
        n < 0x10 ==> hex(n).len() <= 1,
    decreases n,
{
    let h = hex(n);
    reveal_with_fuel(hex_num, 2);
    lemma_hex_char(n % 16);
    if n < 16 {
        assert(h.drop_last() =~= Seq::<char>::empty());
    } else {
        lemma_hex(n / 16);
        assert(h.drop_last() =~= hex(n / 16));
        assert forall|i: int| 0 <= i < h.len() implies hex_digit(#[trigger] h[i]) is Some
            && !seq![':'].contains(h[i]) by {
            if i < h.len() - 1 {
                assert(h[i] == hex(n / 16)[i]);
            }
        }
    }
}

proof fn lemma_groups_read(g: Seq<nat>, v4_last: bool)
    requires
        forall|i: int| 0 <= i < g.len() ==> #[trigger] g[i] < 0x10000,
    ensures
        groups(hex_parts(g), v4_last) == Some(g),
    decreases g.len(),
{
    let p = hex_parts(g);
    if g.len() > 0 {
        assert(p.drop_last() =~= hex_parts(g.drop_last()));
        lemma_groups_read(g.drop_last(), false);
        assert(p.last() == hex(g[g.len() - 1]));
        lemma_hex(g[g.len() - 1]);
        assert(g.drop_last().push(g.last()) =~= g);
    } else {
        assert(g =~= Seq::empty());
    }
}

/// Pieces that are not empty, with single colons between them.
proof fn lemma_single_colons(p: Seq<Seq<char>>)
    requires
        p.len() > 0,
        forall|i: int| 0 <= i < p.len() ==> (#[trigger] p[i]).len() > 0 && free_of(p[i], seq![':']),
    ensures
        join(p, seq![':']).len() > 0,
        join(p, seq![':'])[0] != ':',
        join(p, seq![':']).last() != ':',
        forall|j: int| !#[trigger] occurs(join(p, seq![':']), double_colon(), j),
        p.len() > 1 ==> join(p, seq![':']).contains(':'),
    decreases p.len(),
{
    let s = join(p, seq![':']);
    let last = p[p.len() - 1];
    assert(seq![':'].contains(':')) by {
        assert(seq![':'][0] == ':');
    }
    assert(free_of(last, seq![':']));
    if p.len() == 1 {
        assert(s == last);
        assert forall|j: int| !#[trigger] occurs(s, double_colon(), j) by {
            if occurs(s, double_colon(), j) {
                assert(s.subrange(j, j + 2)[0] == ':');
                assert(s[j] == ':');
            }
        }
        assert(seq![':'].contains(s[0]) ==> false);
    } else {
        let front = p.drop_last();
        let f = join(front, seq![':']);
        assert(forall|i: int| 0 <= i < front.len() ==> #[trigger] front[i] == p[i]);
        lemma_single_colons(front);
        assert(s[f.len() as int] == ':');
        assert(s.last() == last.last());
        assert(!seq![':'].contains(last[last.len() - 1]));
        assert(s[0] == f[0]);
        assert forall|j: int| !#[trigger] occurs(s, double_colon(), j) by {
            if occurs(s, double_colon(), j) {
                assert(s.subrange(j, j + 2)[0] == ':' && s.subrange(j, j + 2)[1] == ':');
                assert(s[j] == ':' && s[j + 1] == ':');
                if j + 1 < f.len() {
                    assert(f.subrange(j, j + 2) =~= double_colon());
                    assert(occurs(f, double_colon(), j));
                } else if j + 1 == f.len() {
                    assert(s[j] == f[j]);
                } else {
                    let k = j + 1 - f.len() - 1;
                    assert(s[j + 1] == last[k]);
                    assert(!seq![':'].contains(last[k]));
                }
            }
        }
    }
}

proof fn lemma_colon_text(g: Seq<nat>, v4_last: bool)
    requires
        forall|i: int| 0 <= i < g.len() ==> #[trigger] g[i] < 0x10000,
    ensures
        colon_groups(colon_text(g), v4_last) == Some(g),
        forall|j: int| !#[trigger] occurs(colon_text(g), double_colon(), j),
        g.len() > 0 ==> colon_text(g).len() > 0 && colon_text(g).last() != ':',
        g.len() > 1 ==> colon_text(g).contains(':'),
{
    let p = hex_parts(g);
    assert forall|i: int| 0 <= i < p.len() implies (#[trigger] p[i]).len() > 0 && free_of(
        p[i],
        seq![':'],
    ) by {
        lemma_hex(g[i]);
    }
    if g.len() == 0 {
        assert(g =~= Seq::empty());
        assert(colon_text(g).len() == 0);
    } else {
        assert(seq![':'].contains(':')) by {
            assert(seq![':'][0] == ':');
        }
        lemma_single_colons(p);
        law_split_undoes_join(p, ':', seq![':']);
        lemma_groups_read(g, v4_last);
    }
}

proof fn lemma_zero_run(g: Seq<nat>, i: int)
    requires
        0 <= i <= g.len(),
    ensures
        i + zero_run(g, i) <= g.len(),
        forall|j: int| i <= j < i + zero_run(g, i) ==> #[trigger] g[j] == 0,
    decreases g.len() - i,
{
    if i < g.len() && g[i] == 0 {
        lemma_zero_run(g, i + 1);
    }
}

proof fn lemma_longest_run(g: Seq<nat>, i: int)
    requires
        0 <= i <= g.len(),
    ensures
        ({
            let r = longest_run(g, i);
            &&& i <= r.0
            &&& r.0 + r.1 <= g.len()
            &&& forall|j: int| r.0 <= j < r.0 + r.1 ==> #[trigger] g[j] == 0
        }),
    decreases g.len() - i,
{
    if i < g.len() {
        lemma_longest_run(g, i + 1);
        lemma_zero_run(g, i);
    }
}

proof fn lemma_groups_of(n: nat, count: nat)
    requires
        n < power(count),
    ensures
        groups_of(n, count).len() == count,
        forall|i: int| 0 <= i < count ==> #[trigger] groups_of(n, count)[i] < 0x10000,
        of_groups(groups_of(n, count)) == n,
    decreases count,
{
    if count > 0 {
        let less = (count - 1) as nat;
        assert(n / 0x10000 < power(less)) by {
            assert(power(count) == 0x10000 * power(less));
        }
        lemma_groups_of(n / 0x10000, less);
        let g = groups_of(n, count);
        let front = groups_of(n / 0x10000, less);
        assert(g.drop_last() =~= front);
        assert forall|i: int| 0 <= i < count implies #[trigger] g[i] < 0x10000 by {
            if i < less {
                assert(g[i] == front[i]);
            }
        }
    }
}

proof fn lemma_zero_groups(k: nat)
    ensures
        of_groups(zeros(k)) == 0,
    decreases k,
{
    if k > 0 {
        assert(zeros(k).drop_last() =~= zeros((k - 1) as nat));
        lemma_zero_groups((k - 1) as nat);
    }
}

proof fn lemma_first(s: Seq<char>, at: int)
    requires
        first_at(s, double_colon(), at),
    ensures
        v6_reads(s) == (match (colon_groups(s.take(at), false), colon_groups(s.skip(at + 2), true)) {
            (Some(a), Some(b)) => if a.len() + b.len() <= 7 {
                Some(of_groups(a + zeros((8 - a.len() - b.len()) as nat) + b))
            } else {
                None
            },
            _ => None,
        }),
{
    let chosen = choose|x: int| first_at(s, double_colon(), x);
    assert(first_at(s, double_colon(), chosen));
    if chosen < at {
        assert(!occurs(s, double_colon(), chosen));
    } else if at < chosen {
        assert(!occurs(s, double_colon(), at));
    }
}

#[verifier::rlimit(80)]
#[verifier::spinoff_prover]
proof fn lemma_mapped(n: nat)
    requires
        n / 0x100000000 == 0xffff,
    ensures
        v6_reads(v6_text(n)) == Some(n),
        v6_text(n).contains(':'),
{
    let m = n % 0x100000000;
    let v = v4_text(m);
    let s = v6_text(n);
    reveal_strlit("::ffff:");
    assert("::ffff:"@ =~= seq![':', ':', 'f', 'f', 'f', 'f', ':']);
    lemma_v4(m);
    let four = seq!['f', 'f', 'f', 'f'];
    assert(s == "::ffff:"@ + v);
    assert(s[0] == ':');
    assert(occurs(s, double_colon(), 0)) by {
        assert(s.subrange(0, 2) =~= double_colon());
    }
    assert(first_at(s, double_colon(), 0));
    lemma_first(s, 0);
    assert(s.take(0) =~= Seq::<char>::empty());
    let p = seq![four, v];
    assert(s.skip(2) =~= join(p, seq![':'])) by {
        reveal_with_fuel(join, 2);
        assert(p.drop_last() =~= seq![four]);
        assert(join(seq![four], seq![':']) == four);
    }
    assert(seq![':'].contains(':')) by {
        assert(seq![':'][0] == ':');
    }
    assert(free_of(four, seq![':']));
    law_split_undoes_join(p, ':', seq![':']);
    assert(group(four) == Some(0xffffnat)) by {
        reveal_with_fuel(hex_num, 5);
        assert(four.drop_last() =~= seq!['f', 'f', 'f']);
        assert(seq!['f', 'f', 'f'].drop_last() =~= seq!['f', 'f']);
        assert(seq!['f', 'f'].drop_last() =~= seq!['f']);
        assert(seq!['f'].drop_last() =~= Seq::<char>::empty());
        assert(hex_num(seq!['f']) == 15);
        assert(hex_num(seq!['f', 'f']) == 255);
        assert(hex_num(seq!['f', 'f', 'f']) == 4095);
    }
    assert(group(v) is None) by {
        let i = choose|i: int| 0 <= i < v.len() && v[i] == '.';
        assert(hex_digit(v[i]) is None);
    }
    let none = Seq::<nat>::empty();
    let one = none.push(0xffffnat);
    let b = one.push(m / 0x10000).push(m % 0x10000);
    assert(groups(p, true) == Some(b)) by {
        assert(p.drop_last() =~= seq![four]);
        assert(seq![four].drop_last() =~= Seq::<Seq<char>>::empty());
        assert(groups(Seq::<Seq<char>>::empty(), false) == Some(none));
        assert(groups(seq![four], false) == Some(one));
    }
    let z = zeros(5);
    lemma_zero_groups(5);
    let x1 = z.push(0xffffnat);
    let x2 = x1.push(m / 0x10000);
    let x3 = x2.push(m % 0x10000);
    assert(none + z + b =~= x3);
    assert(x1.drop_last() =~= z);
    assert(x2.drop_last() =~= x1);
    assert(x3.drop_last() =~= x2);
    assert(of_groups(x1) == 0xffff);
    assert(of_groups(x2) == 0xffff * 0x10000 + m / 0x10000);
    assert(of_groups(x3) == (0xffff * 0x10000 + m / 0x10000) * 0x10000 + m % 0x10000);
}

proof fn lemma_power8()
    ensures
        power(8) == 0x1_0000_0000_0000_0000_0000_0000_0000_0000,
{
    reveal_with_fuel(power, 9);
}

#[verifier::rlimit(60)]
#[verifier::spinoff_prover]
proof fn lemma_shortened(g: Seq<nat>, from: int, len: nat)
    requires
        g.len() == 8,
        forall|i: int| 0 <= i < g.len() ==> #[trigger] g[i] < 0x10000,
        0 <= from,
        from + len <= 8,
        len > 1,
        forall|j: int| from <= j < from + len ==> #[trigger] g[j] == 0,
    ensures
        ({
            let s = colon_text(g.take(from)) + "::"@ + colon_text(g.skip(from + len));
            &&& v6_reads(s) == Some(of_groups(g))
            &&& s.contains(':')
        }),
{
    let a = g.take(from);
    let b = g.skip(from + len);
    let x = colon_text(a);
    let y = colon_text(b);
    let s = x + "::"@ + y;
    let at = x.len() as int;
    assert(forall|i: int| 0 <= i < a.len() ==> #[trigger] a[i] == g[i]);
    assert(forall|i: int| 0 <= i < b.len() ==> #[trigger] b[i] == g[from + len + i]);
    lemma_colon_text(a, false);
    lemma_colon_text(b, true);
    reveal_strlit("::");
    assert("::"@ =~= double_colon());
    assert(s[at] == ':');
    assert(s.subrange(at, at + 2) =~= double_colon());
    assert forall|j: int| 0 <= j < at implies !#[trigger] occurs(s, double_colon(), j) by {
        if occurs(s, double_colon(), j) {
            assert(s.subrange(j, j + 2)[0] == ':');
            assert(s[j] == ':' && s[j] == x[j]);
            if j + 1 < at {
                assert(x.subrange(j, j + 2) =~= s.subrange(j, j + 2));
                assert(occurs(x, double_colon(), j));
            } else {
                assert(x.last() == x[j]);
            }
        }
    }
    lemma_first(s, at);
    assert(s.take(at) =~= x);
    assert(s.skip(at + 2) =~= y);
    assert(a + zeros((8 - a.len() - b.len()) as nat) + b =~= g);
}

proof fn lemma_v6(n: nat)
    requires
        n <= u128::MAX,
    ensures
        v6_reads(v6_text(n)) == Some(n),
        v6_text(n).contains(':'),
{
    let g = groups_of(n, 8);
    let run = longest_run(g, 0);
    lemma_power8();
    lemma_groups_of(n, 8);
    lemma_longest_run(g, 0);
    if n / 0x100000000 == 0xffff {
        lemma_mapped(n);
    } else if run.1 > 1 {
        lemma_shortened(g, run.0, run.1);
    } else {
        let s = v6_text(n);
        lemma_colon_text(g, true);
        assert(!exists|at: int| first_at(s, double_colon(), at)) by {
            if exists|at: int| first_at(s, double_colon(), at) {
                let at = choose|at: int| first_at(s, double_colon(), at);
                assert(!occurs(s, double_colon(), at));
            }
        }
    }
}

/// An address that is written reads back.
#[verifier::rlimit(60)]
#[verifier::spinoff_prover]
pub proof fn law_addresses_read_back(a: Address)
    ensures
        reads(address_text(a)) == Some(a),
{
    match a {
        Address::V4(n) => {
            lemma_v4(n as nat);
        },
        Address::V6(n) => {
            lemma_v6(n as nat);
            lemma_colon_is_no_v4(v6_text(n as nat));
        },
    }
}

}
