//! What a machine's disks are, where they live and how much room they take.
use vstd::prelude::*;
use vstd::string::*;

use crate::scan::{after, contains, holds, strip, trim, trimmed_chars, up_to};
use crate::text::{
    all_digits, chars_of, dec, decimal_wide, digits_value, is_all_digits, is_digit, num, part, same,
    split, split_text, texts,
};

verus! {

pub const GIB: u64 = 0x4000_0000;

/// Buses that a disk may hang on, and volumes that a full clone copies just as
/// it copies the disks on the buses.
pub open spec fn buses() -> Seq<Seq<char>> {
    seq!["virtio"@, "scsi"@, "sata"@, "ide"@, "efidisk"@, "tpmstate"@, "unused"@]
}

/// The first of these that a key starts with decides: what follows it has to
/// be a number.
pub open spec fn numbered(key: Seq<char>, buses: Seq<Seq<char>>) -> bool
    decreases buses.len(),
{
    if buses.len() == 0 {
        false
    } else {
        match after(key, buses[0]) {
            Some(rest) => all_digits(rest),
            None => numbered(key, buses.skip(1)),
        }
    }
}

/// Disk keys, and only disk keys. `virtio0` is one; `virtiofs0` is not, and
/// neither is anything else that merely starts with a bus name.
pub open spec fn disk_key(key: Seq<char>) -> bool {
    numbered(key, buses())
}

pub fn is_disk_key(key: &str) -> (r: bool)
    ensures
        r == disk_key(key@),
{
    let all: [&'static str; 7] = [
        "virtio",
        "scsi",
        "sata",
        "ide",
        "efidisk",
        "tpmstate",
        "unused",
    ];
    let ghost b = buses();
    assert(b.skip(0) =~= b);
    let mut i: usize = 0;
    while i < 7
        invariant
            i <= 7,
            b == buses(),
            forall|j: int| 0 <= j < 7 ==> (#[trigger] all@[j])@ == b[j],
            disk_key(key@) == numbered(key@, b.skip(i as int)),
        decreases 7 - i,
    {
        assert(all@[i as int]@ == b[i as int]);
        assert(b.skip(i as int)[0] == b[i as int]);
        match strip(key, all[i]) {
            Some(rest) => {
                return is_all_digits(&chars_of(rest.as_str()));
            },
            None => {},
        }
        assert(b.skip(i as int).skip(1) =~= b.skip(i + 1));
        i += 1;
    }
    assert(b.skip(7).len() == 0);
    false
}

// ---------------------------------------------------------------------------
// Sizes
// ---------------------------------------------------------------------------

pub open spec fn power10(n: nat) -> nat
    decreases n,
{
    if n == 0 {
        1
    } else {
        10 * power10((n - 1) as nat)
    }
}

/// A decimal number: its digits before the point and behind it.
pub struct Parts<T> {
    pub whole: T,
    pub fraction: T,
}

/// Where the first of two characters stands, or the length where neither does.
pub open spec fn first_at(s: Seq<char>, a: char, b: char) -> int
    decreases s.len(),
{
    if s.len() == 0 || s[0] == a || s[0] == b {
        0
    } else {
        1 + first_at(s.skip(1), a, b)
    }
}

/// The digits of a decimal number. A point may stand among them; at least one
/// digit has to be there.
pub open spec fn decimal_parts(d: Seq<char>) -> Option<Parts<Seq<char>>> {
    let at = first_at(d, '.', '.');
    let whole = d.take(at);
    let fraction = if at < d.len() {
        d.skip(at + 1)
    } else {
        Seq::empty()
    };
    if whole.len() + fraction.len() > 0 && (whole.len() == 0 || all_digits(whole)) && (
    fraction.len() == 0 || all_digits(fraction)) {
        Some(Parts { whole, fraction })
    } else {
        None
    }
}

/// A number as it may be written: with a sign, and with an exponent that moves
/// the point to the right, or `down` to the left, by so many places.
pub struct Amount<T> {
    pub negative: bool,
    pub parts: Parts<T>,
    pub down: bool,
    pub places: T,
}

/// Whether a minus sign stands in front, and what stands behind the sign.
pub open spec fn signed(s: Seq<char>) -> (bool, Seq<char>) {
    if s.len() > 0 && s[0] == '-' {
        (true, s.skip(1))
    } else if s.len() > 0 && s[0] == '+' {
        (false, s.skip(1))
    } else {
        (false, s)
    }
}

pub open spec fn amount(s: Seq<char>) -> Option<Amount<Seq<char>>> {
    let (negative, d) = signed(s);
    let at = first_at(d, 'e', 'E');
    match decimal_parts(d.take(at)) {
        None => None,
        Some(parts) => if at >= d.len() {
            Some(Amount { negative, parts, down: false, places: Seq::empty() })
        } else {
            let (down, places) = signed(d.skip(at + 1));
            if all_digits(places) {
                Some(Amount { negative, parts, down, places })
            } else {
                None
            }
        },
    }
}

pub open spec fn zeros(n: nat) -> Seq<char> {
    Seq::new(n, |i: int| '0')
}

/// The same digits with the point moved.
pub open spec fn moved(p: Parts<Seq<char>>, down: bool, places: nat) -> Parts<Seq<char>> {
    if down {
        let all = zeros(places) + p.whole + p.fraction;
        Parts {
            whole: all.take(p.whole.len() as int),
            fraction: all.skip(p.whole.len() as int),
        }
    } else {
        let all = p.whole + p.fraction + zeros(places);
        Parts {
            whole: all.take((p.whole.len() + places) as int),
            fraction: all.skip((p.whole.len() + places) as int),
        }
    }
}

/// How many bytes a unit letter stands for.
pub open spec fn scale_of(c: char) -> Option<nat> {
    if c == 'K' || c == 'k' {
        Some(0x400)
    } else if c == 'M' || c == 'm' {
        Some(0x10_0000)
    } else if c == 'G' || c == 'g' {
        Some(0x4000_0000)
    } else if c == 'T' || c == 't' {
        Some(0x100_0000_0000)
    } else {
        None
    }
}

/// `n / d`, rounded up.
pub open spec fn ceiling(n: int, d: int) -> int {
    (n + d - 1) / d
}

/// The largest size that is believed.
pub const MAX_SIZE: u64 = 0x8000_0000_0000_0000;

/// So many units in bytes, rounded up, unless that is beyond belief.
pub open spec fn scaled(p: Parts<Seq<char>>, scale: nat) -> Option<nat> {
    let n = ceiling(
        (num(p.whole + p.fraction) * scale) as int,
        power10(p.fraction.len()) as int,
    );
    if n <= MAX_SIZE {
        Some(n as nat)
    } else {
        None
    }
}

/// So many units in bytes. Nothing is less than no bytes.
pub open spec fn counted(n: Amount<Seq<char>>, scale: nat) -> Option<nat> {
    if n.negative && num(n.parts.whole + n.parts.fraction) > 0 {
        None
    } else {
        scaled(moved(n.parts, n.down, num(n.places)), scale)
    }
}

/// The bytes that `8G`, `512M`, `1T`, `4.5G` or a bare count stand for.
pub open spec fn size_of(text: Seq<char>) -> Option<nat> {
    if text.len() == 0 {
        None
    } else {
        let (digits, scale) = match scale_of(text.last()) {
            Some(k) => (text.drop_last(), k),
            None => (text, 1nat),
        };
        match amount(trim(digits)) {
            Some(n) => counted(n, scale),
            None => None,
        }
    }
}

proof fn lemma_num_front(d: char, g: Seq<char>)
    requires
        is_digit(d),
        forall|i: int| 0 <= i < g.len() ==> is_digit(#[trigger] g[i]),
    ensures
        num(seq![d] + g) == (d as int - 48) * power10(g.len()) + num(g),
    decreases g.len(),
{
    let s = seq![d] + g;
    if g.len() == 0 {
        reveal_with_fuel(num, 2);
        assert(s.drop_last() =~= Seq::empty());
        assert(s.last() == d);
        assert(power10(0) == 1);
        let v = d as int - 48;
        assert(v * 1 == v) by (nonlinear_arith);
    } else {
        let h = g.drop_last();
        assert(forall|i: int| 0 <= i < h.len() ==> h[i] == g[i]);
        lemma_num_front(d, h);
        assert(s.drop_last() =~= seq![d] + h);
        assert(s.last() == g.last());
        let v = d as int - 48;
        let p = power10(h.len()) as int;
        assert(v * (10 * p) == 10 * (v * p)) by (nonlinear_arith);
        assert(is_digit(g[g.len() - 1]));
    }
}

proof fn lemma_num_append(w: Seq<char>, f: Seq<char>)
    requires
        forall|i: int| 0 <= i < w.len() ==> is_digit(#[trigger] w[i]),
        forall|i: int| 0 <= i < f.len() ==> is_digit(#[trigger] f[i]),
    ensures
        num(w + f) == num(w) * power10(f.len()) + num(f),
    decreases f.len(),
{
    if f.len() == 0 {
        assert(w + f =~= w);
        assert(num(f) == 0);
        assert(power10(0) == 1);
        let a = num(w) as int;
        assert(a * 1 == a) by (nonlinear_arith);
    } else {
        let g = f.drop_last();
        assert(forall|i: int| 0 <= i < g.len() ==> g[i] == f[i]);
        lemma_num_append(w, g);
        assert((w + f).drop_last() =~= w + g);
        assert((w + f).last() == f.last());
        assert(is_digit(f[f.len() - 1]));
        let a = num(w) as int;
        let p = power10(g.len()) as int;
        assert(a * (10 * p) == 10 * (a * p)) by (nonlinear_arith);
    }
}

proof fn lemma_power10(n: nat)
    ensures
        power10(n) >= 1,
    decreases n,
{
    if n > 0 {
        lemma_power10((n - 1) as nat);
    }
}

/// One more digit in front of a fraction: what is whole in its tenth, and what
/// is left over.
proof fn lemma_fraction_step(d: int, t: int, rest: int, p: int, scale: int, g: int)
    requires
        0 <= d < 10,
        0 <= t,
        0 <= rest < p,
        p >= 1,
        g * scale == t * p + rest,
        0 < scale,
    ensures
        (d * p + g) * scale == ((d * scale + t) / 10) * (10 * p) + (((d * scale + t) % 10) * p
            + rest),
        0 <= ((d * scale + t) % 10) * p + rest < 10 * p,
{
    let m = d * scale + t;
    let q = m / 10;
    let k = m % 10;
    assert(m == 10 * q + k);
    assert((d * p + g) * scale == d * scale * p + g * scale) by (nonlinear_arith);
    assert(d * scale * p + t * p == m * p) by (nonlinear_arith)
        requires
            m == d * scale + t,
    ;
    assert(m * p == q * (10 * p) + k * p) by (nonlinear_arith)
        requires
            m == 10 * q + k,
    ;
    assert(0 <= k * p <= 9 * p) by (nonlinear_arith)
        requires
            0 <= k <= 9,
            p >= 1,
    ;
}

/// The bytes in the digits behind the point, rounded up.
fn fraction_bytes(f: &[char], scale: u64) -> (r: u64)
    requires
        forall|i: int| 0 <= i < f@.len() ==> is_digit(#[trigger] f@[i]),
        1 <= scale <= 0x100_0000_0000,
    ensures
        r == ceiling((num(f@) * scale) as int, power10(f@.len()) as int),
        r <= scale,
{
    let mut i: usize = f.len();
    let mut t: u64 = 0;
    let mut left: bool = false;
    let ghost mut rest: int = 0;
    assert(f@.skip(i as int) =~= Seq::empty());
    while i > 0
        invariant
            i <= f@.len(),
            1 <= scale <= 0x100_0000_0000,
            forall|j: int| 0 <= j < f@.len() ==> is_digit(#[trigger] f@[j]),
            t < scale || (t == 0 && i == f@.len()),
            num(f@.skip(i as int)) * scale == t * power10((f@.len() - i) as nat) + rest,
            0 <= rest < power10((f@.len() - i) as nat),
            left == (rest != 0),
        decreases i,
    {
        let ghost g = f@.skip(i as int);
        i -= 1;
        let c = f[i];
        assert(is_digit(f@[i as int]));
        let d: u64 = (c as u32 - 48) as u64;
        proof {
            assert(f@.skip(i as int) =~= seq![c] + g);
            assert(forall|j: int| 0 <= j < g.len() ==> g[j] == f@[i + 1 + j]);
            lemma_num_front(c, g);
            lemma_power10(g.len());
            lemma_fraction_step(
                d as int,
                t as int,
                rest,
                power10(g.len()) as int,
                scale as int,
                num(g) as int,
            );
            assert(d * scale <= 9 * scale) by (nonlinear_arith)
                requires
                    d <= 9,
                    scale >= 1,
            ;
        }
        let m: u64 = d * scale + t;
        proof {
            rest = ((m as int) % 10) * power10(g.len()) + rest;
            let k = (m as int) % 10;
            let p = power10(g.len()) as int;
            assert(k > 0 ==> k * p > 0) by (nonlinear_arith)
                requires
                    p >= 1,
            ;
            assert(k == 0 ==> k * p == 0) by (nonlinear_arith);
            assert(k >= 0 ==> k * p >= 0) by (nonlinear_arith)
                requires
                    p >= 1,
            ;
        }
        left = left || m % 10 != 0;
        t = m / 10;
    }
    proof {
        assert(f@.skip(0) =~= f@);
        lemma_power10(f@.len());
        let p = power10(f@.len()) as int;
        let n = num(f@) * scale;
        assert(n == t * p + rest);
        lemma_ceiling(n as int, p, t as int, rest);
    }
    if left {
        t + 1
    } else {
        t
    }
}

proof fn lemma_ceiling(n: int, p: int, t: int, rest: int)
    requires
        p >= 1,
        n == t * p + rest,
        0 <= rest < p,
    ensures
        ceiling(n, p) == (if rest == 0 {
            t
        } else {
            t + 1
        }),
{
    if rest == 0 {
        assert((t * p + (p - 1)) / p == t) by (nonlinear_arith)
            requires
                p >= 1,
        ;
    } else {
        assert((t * p + rest + p - 1) / p == t + 1) by (nonlinear_arith)
            requires
                p >= 1,
                0 < rest < p,
        ;
    }
}

proof fn lemma_ceiling_shift(n: int, p: int, whole: int)
    requires
        p >= 1,
        n >= 0,
    ensures
        ceiling(whole * p + n, p) == whole + ceiling(n, p),
{
    assert((whole * p + n + p - 1) / p == whole + (n + p - 1) / p) by (nonlinear_arith)
        requires
            p >= 1,
    ;
}

fn first_of(s: &[char], a: char, b: char) -> (r: usize)
    ensures
        r == first_at(s@, a, b),
        r <= s@.len(),
{
    let mut i: usize = 0;
    assert(s@.skip(0) =~= s@);
    while i < s.len() && s[i] != a && s[i] != b
        invariant
            i <= s@.len(),
            first_at(s@, a, b) == i + first_at(s@.skip(i as int), a, b),
        decreases s@.len() - i,
    {
        assert(s@.skip(i as int).skip(1) =~= s@.skip(i + 1));
        i += 1;
    }
    i
}

fn read_decimal(d: &[char]) -> (r: Option<Parts<Vec<char>>>)
    ensures
        match r {
            Some(p) => decimal_parts(d@) == Some(
                Parts { whole: p.whole@, fraction: p.fraction@ },
            ) && p.whole@.len() + p.fraction@.len() <= d@.len(),
            None => decimal_parts(d@) is None,
        },
{
    let at = first_of(d, '.', '.');
    assert(d@.subrange(0, at as int) =~= d@.take(at as int));
    let whole = part(d, 0, at);
    let fraction = if at < d.len() {
        assert(d@.subrange(at + 1, d@.len() as int) =~= d@.skip(at + 1));
        part(d, at + 1, d.len())
    } else {
        Vec::new()
    };
    assert(at >= d@.len() ==> fraction@ =~= Seq::empty());
    if (whole.len() > 0 || fraction.len() > 0) && (whole.len() == 0 || is_all_digits(&whole)) && (
    fraction.len() == 0 || is_all_digits(&fraction)) {
        Some(Parts { whole, fraction })
    } else {
        None
    }
}

fn read_sign(s: &[char]) -> (r: (bool, Vec<char>))
    ensures
        (r.0, r.1@) == signed(s@),
        r.1@.len() <= s@.len(),
{
    if s.len() > 0 && (s[0] == '-' || s[0] == '+') {
        assert(s@.subrange(1, s@.len() as int) =~= s@.skip(1));
        (s[0] == '-', part(s, 1, s.len()))
    } else {
        assert(s@.subrange(0, s@.len() as int) =~= s@);
        (false, part(s, 0, s.len()))
    }
}

pub open spec fn amount_view(n: Amount<Vec<char>>) -> Amount<Seq<char>> {
    Amount {
        negative: n.negative,
        parts: Parts { whole: n.parts.whole@, fraction: n.parts.fraction@ },
        down: n.down,
        places: n.places@,
    }
}

/// The digits of a number are digits, and not too many for their count.
spec fn in_digits(n: Amount<Seq<char>>) -> bool {
    &&& n.parts.whole.len() == 0 || all_digits(n.parts.whole)
    &&& n.parts.fraction.len() == 0 || all_digits(n.parts.fraction)
    &&& n.places.len() == 0 || all_digits(n.places)
    &&& n.parts.whole.len() + n.parts.fraction.len() + n.places.len() <= usize::MAX
}

fn read_amount(s: &[char]) -> (r: Option<Amount<Vec<char>>>)
    ensures
        match r {
            Some(n) => amount(s@) == Some(amount_view(n)) && in_digits(amount_view(n)),
            None => amount(s@) is None,
        },
{
    let (negative, d) = read_sign(s);
    let at = first_of(&d, 'e', 'E');
    assert(d@.subrange(0, at as int) =~= d@.take(at as int));
    let mantissa = part(&d, 0, at);
    let parts = match read_decimal(&mantissa) {
        Some(p) => p,
        None => {
            return None;
        },
    };
    if at >= d.len() {
        let places: Vec<char> = Vec::new();
        assert(places@ =~= Seq::empty());
        return Some(Amount { negative, parts, down: false, places });
    }
    assert(d@.subrange(at + 1, d@.len() as int) =~= d@.skip(at + 1));
    let exponent = part(&d, at + 1, d.len());
    let (down, places) = read_sign(&exponent);
    if is_all_digits(&places) {
        Some(Amount { negative, parts, down, places })
    } else {
        None
    }
}

fn scale_up(p: &Parts<Vec<char>>, scale: u64) -> (r: Option<u64>)
    requires
        p.whole@.len() == 0 || all_digits(p.whole@),
        p.fraction@.len() == 0 || all_digits(p.fraction@),
        1 <= scale <= 0x100_0000_0000,
    ensures
        match r {
            Some(n) => scaled(Parts { whole: p.whole@, fraction: p.fraction@ }, scale as nat)
                == Some(n as nat),
            None => scaled(
                Parts { whole: p.whole@, fraction: p.fraction@ },
                scale as nat,
            ) is None,
        },
{
    let ghost w = num(p.whole@) as int;
    let ghost f = num(p.fraction@) as int;
    let ghost q = power10(p.fraction@.len()) as int;
    proof {
        lemma_num_append(p.whole@, p.fraction@);
        lemma_power10(p.fraction@.len());
        assert(num(p.whole@ + p.fraction@) * scale == (w * scale) * q + f * scale)
            by (nonlinear_arith)
            requires
                num(p.whole@ + p.fraction@) == w * q + f,
        ;
        assert(f * scale >= 0) by (nonlinear_arith)
            requires
                f >= 0,
                scale >= 1,
        ;
        lemma_ceiling_shift(f * scale, q, w * scale);
    }
    let part_bytes: u64 = fraction_bytes(&p.fraction, scale);
    let whole: u64 = if p.whole.len() == 0 {
        0
    } else {
        match digits_value(&p.whole, MAX_SIZE) {
            Some(n) => n,
            None => {
                proof {
                    assert(w * scale >= w) by (nonlinear_arith)
                        requires
                            w >= 0,
                            scale >= 1,
                    ;
                }
                return None;
            },
        }
    };
    assert(p.whole@.len() == 0 ==> num(p.whole@) == 0);
    proof {
        assert(whole * scale <= MAX_SIZE * 0x100_0000_0000) by (nonlinear_arith)
            requires
                whole <= MAX_SIZE,
                scale <= 0x100_0000_0000,
        ;
    }
    let total: u128 = whole as u128 * scale as u128 + part_bytes as u128;
    if total <= MAX_SIZE as u128 {
        Some(total as u64)
    } else {
        None
    }
}

proof fn lemma_zeros(n: nat)
    ensures
        num(zeros(n)) == 0,
    decreases n,
{
    if n > 0 {
        assert(zeros(n).drop_last() =~= zeros((n - 1) as nat));
        lemma_zeros((n - 1) as nat);
    }
}

/// So many digits stand for less than a one with so many zeros.
proof fn lemma_num_bound(s: Seq<char>)
    requires
        forall|i: int| 0 <= i < s.len() ==> is_digit(#[trigger] s[i]),
    ensures
        num(s) < power10(s.len()),
    decreases s.len(),
{
    if s.len() > 0 {
        let g = s.drop_last();
        assert(forall|i: int| 0 <= i < g.len() ==> g[i] == s[i]);
        lemma_num_bound(g);
        assert(is_digit(s[s.len() - 1]));
    }
}

proof fn lemma_power10_sum(a: nat, b: nat)
    ensures
        power10(a + b) == power10(a) * power10(b),
    decreases a,
{
    let q = power10(b) as int;
    if a == 0 {
        assert(1 * q == q) by (nonlinear_arith);
    } else {
        lemma_power10_sum((a - 1) as nat, b);
        let p = power10((a - 1) as nat) as int;
        assert(power10(a + b) == 10 * power10((a - 1) as nat + b));
        assert(10 * (p * q) == (10 * p) * q) by (nonlinear_arith);
    }
}

/// Twenty places are more than any size that is believed, and more than any
/// unit.
proof fn lemma_twenty()
    ensures
        power10(20) == 100_000_000_000_000_000_000,
        power10(19) == 10_000_000_000_000_000_000,
{
    reveal_with_fuel(power10, 21);
}

/// Digits that are not all zeros, moved up by far, are beyond belief.
proof fn lemma_far_up(p: Parts<Seq<char>>, places: nat, scale: nat)
    requires
        p.whole.len() == 0 || all_digits(p.whole),
        p.fraction.len() == 0 || all_digits(p.fraction),
        places >= p.fraction.len() + 20,
        1 <= scale,
    ensures
        scaled(moved(p, false, places), scale) == (if num(p.whole + p.fraction) == 0 {
            Some(0nat)
        } else {
            None
        }),
{
    let m = moved(p, false, places);
    let n = num(p.whole + p.fraction) as int;
    let all = p.whole + p.fraction + zeros(places);
    assert(m.whole + m.fraction =~= all);
    lemma_zeros(places);
    lemma_num_append(p.whole + p.fraction, zeros(places));
    let f = p.fraction.len();
    assert(m.fraction.len() == f);
    lemma_power10(f);
    lemma_power10_sum((places - f) as nat, f);
    lemma_power10_sum((places - f - 20) as nat, 20);
    lemma_power10((places - f - 20) as nat);
    lemma_twenty();
    let q = power10(f) as int;
    let far = power10((places - f) as nat) as int;
    let beyond = power10((places - f - 20) as nat) as int;
    assert(far >= 100_000_000_000_000_000_000) by (nonlinear_arith)
        requires
            far == beyond * 100_000_000_000_000_000_000,
            beyond >= 1,
    ;
    let top = (num(all) * scale) as int;
    assert(num(all) == n * (far * q));
    if n == 0 {
        assert(top == 0) by (nonlinear_arith)
            requires
                top == num(all) * scale,
                num(all) == 0 * (far * q),
        ;
        assert((0 + q - 1) / q == 0) by (nonlinear_arith)
            requires
                q >= 1,
        ;
    } else {
        let k = n * far * scale;
        assert(top == k * q) by (nonlinear_arith)
            requires
                top == num(all) * scale,
                num(all) == n * (far * q),
                k == n * far * scale,
        ;
        assert((k * q + q - 1) / q == k) by (nonlinear_arith)
            requires
                q >= 1,
        ;
        assert(k >= far) by (nonlinear_arith)
            requires
                k == n * far * scale,
                n >= 1,
                scale >= 1,
                far >= 1,
        ;
    }
}

/// Digits that are not all zeros, moved down by far, are a part of one byte.
proof fn lemma_far_down(p: Parts<Seq<char>>, places: nat, scale: nat)
    requires
        p.whole.len() == 0 || all_digits(p.whole),
        p.fraction.len() == 0 || all_digits(p.fraction),
        places >= p.whole.len() + p.fraction.len() + 20,
        1 <= scale <= 0x100_0000_0000,
    ensures
        scaled(moved(p, true, places), scale) == Some(
            if num(p.whole + p.fraction) == 0 {
                0nat
            } else {
                1
            },
        ),
{
    let m = moved(p, true, places);
    let d = p.whole + p.fraction;
    let n = num(d) as int;
    let all = zeros(places) + p.whole + p.fraction;
    assert(m.whole + m.fraction =~= all);
    assert(all =~= zeros(places) + d);
    lemma_zeros(places);
    lemma_num_append(zeros(places), d);
    assert(num(all) == n) by {
        let q = power10(d.len()) as int;
        assert(0 * q == 0) by (nonlinear_arith);
    }
    lemma_num_bound(d);
    let f = m.fraction.len();
    assert(f == places + p.fraction.len());
    lemma_power10(f);
    lemma_power10_sum((f - 20) as nat, 20);
    lemma_power10_sum(d.len(), (f - 20 - d.len()) as nat);
    lemma_power10((f - 20 - d.len()) as nat);
    lemma_power10(d.len());
    lemma_twenty();
    let q = power10(f) as int;
    let a = power10(d.len()) as int;
    let b = power10((f - 20 - d.len()) as nat) as int;
    let rest = (num(all) * scale) as int;
    assert(rest < q) by (nonlinear_arith)
        requires
            rest == n * scale,
            0 <= n < a,
            1 <= scale <= 0x100_0000_0000,
            q == (a * b) * 100_000_000_000_000_000_000,
            a >= 1,
            b >= 1,
    ;
    assert(rest >= 0 && (rest == 0) == (n == 0)) by (nonlinear_arith)
        requires
            rest == n * scale,
            n >= 0,
            scale >= 1,
    ;
    assert(rest == 0 * q + rest) by (nonlinear_arith);
    lemma_ceiling(rest, q, 0, rest);
}

fn is_zero(s: &[char]) -> (r: bool)
    requires
        forall|i: int| 0 <= i < s@.len() ==> is_digit(#[trigger] s@[i]),
    ensures
        r == (num(s@) == 0),
{
    let mut zero: bool = true;
    let mut i: usize = 0;
    while i < s.len()
        invariant
            i <= s@.len(),
            forall|j: int| 0 <= j < s@.len() ==> is_digit(#[trigger] s@[j]),
            zero == (num(s@.take(i as int)) == 0),
        decreases s@.len() - i,
    {
        assert(s@.take(i + 1).drop_last() =~= s@.take(i as int));
        assert(is_digit(s@[i as int]));
        zero = zero && s[i] == '0';
        i += 1;
    }
    assert(s@.take(s@.len() as int) =~= s@);
    zero
}

fn add_zeros(out: &mut Vec<char>, n: u64)
    ensures
        final(out)@ == old(out)@ + zeros(n as nat),
{
    let ghost was = out@;
    let mut i: u64 = 0;
    assert(out@ =~= was + zeros(0));
    while i < n
        invariant
            i <= n,
            out@ == was + zeros(i as nat),
        decreases n - i,
    {
        out.push('0');
        i += 1;
        assert(out@ =~= was + zeros(i as nat));
    }
}

fn move_point(p: &Parts<Vec<char>>, down: bool, places: u64) -> (r: Parts<Vec<char>>)
    requires
        p.whole@.len() == 0 || all_digits(p.whole@),
        p.fraction@.len() == 0 || all_digits(p.fraction@),
    ensures
        (Parts { whole: r.whole@, fraction: r.fraction@ }) == moved(
            Parts { whole: p.whole@, fraction: p.fraction@ },
            down,
            places as nat,
        ),
        r.whole@.len() == 0 || all_digits(r.whole@),
        r.fraction@.len() == 0 || all_digits(r.fraction@),
{
    let ghost w = p.whole@.len() as int;
    let mut all: Vec<char> = Vec::new();
    if down {
        add_zeros(&mut all, places);
        append(&mut all, &p.whole);
        append(&mut all, &p.fraction);
        assert(all@ =~= zeros(places as nat) + p.whole@ + p.fraction@);
        assert(all@.subrange(0, w) =~= all@.take(w));
        assert(all@.subrange(w, all@.len() as int) =~= all@.skip(w));
        Parts {
            whole: part(&all, 0, p.whole.len()),
            fraction: part(&all, p.whole.len(), all.len()),
        }
    } else {
        append(&mut all, &p.whole);
        append(&mut all, &p.fraction);
        add_zeros(&mut all, places);
        assert(all@ =~= p.whole@ + p.fraction@ + zeros(places as nat));
        let at: usize = all.len() - p.fraction.len();
        assert(at == w + places);
        assert(all@.subrange(0, at as int) =~= all@.take(at as int));
        assert(all@.subrange(at as int, all@.len() as int) =~= all@.skip(at as int));
        Parts { whole: part(&all, 0, at), fraction: part(&all, at, all.len()) }
    }
}

fn append(out: &mut Vec<char>, more: &[char])
    ensures
        final(out)@ == old(out)@ + more@,
{
    let ghost was = out@;
    let mut i: usize = 0;
    assert(out@ =~= was + more@.take(0));
    while i < more.len()
        invariant
            i <= more@.len(),
            out@ == was + more@.take(i as int),
        decreases more@.len() - i,
    {
        out.push(more[i]);
        i += 1;
        assert(out@ =~= was + more@.take(i as int));
    }
    assert(more@.take(more@.len() as int) =~= more@);
}

fn count(n: &Amount<Vec<char>>, scale: u64) -> (r: Option<u64>)
    requires
        in_digits(amount_view(*n)),
        1 <= scale <= 0x100_0000_0000,
    ensures
        match r {
            Some(x) => counted(amount_view(*n), scale as nat) == Some(x as nat),
            None => counted(amount_view(*n), scale as nat) is None,
        },
{
    let ghost p = amount_view(*n).parts;
    let mut digits: Vec<char> = Vec::new();
    append(&mut digits, &n.parts.whole);
    append(&mut digits, &n.parts.fraction);
    assert(digits@ =~= p.whole + p.fraction);
    let zero = is_zero(&digits);
    if n.negative && !zero {
        return None;
    }
    let most: u128 = digits.len() as u128 + 20;
    let places = if n.places.len() == 0 {
        Some(0)
    } else {
        digits_value(&n.places, u64::MAX)
    };
    match places {
        Some(k) if (k as u128) < most => scale_up(&move_point(&n.parts, n.down, k), scale),
        _ => {
            proof {
                if places is None {
                    lemma_num_bound(n.places@);
                    lemma_twenty();
                    if n.places@.len() < 20 {
                        lemma_power10_sum(n.places@.len(), (19 - n.places@.len()) as nat);
                        lemma_power10((19 - n.places@.len()) as nat);
                        let a = power10(n.places@.len()) as int;
                        let b = power10((19 - n.places@.len()) as nat) as int;
                        assert(a <= a * b) by (nonlinear_arith)
                            requires
                                a >= 0,
                                b >= 1,
                        ;
                    }
                }
                if n.down {
                    lemma_far_down(p, num(n.places@), scale as nat);
                } else {
                    lemma_far_up(p, num(n.places@), scale as nat);
                }
            }
            if zero {
                Some(0)
            } else if n.down {
                Some(1)
            } else {
                None
            }
        },
    }
}

/// `8G`, `512M`, `1T`, `4.5G`, or a bare byte count. What is not whole counts
/// in full, so that a disk never costs less than it takes.
pub fn parse_size(text: &str) -> (r: Option<u64>)
    ensures
        match r {
            Some(n) => size_of(text@) == Some(n as nat),
            None => size_of(text@) is None,
        },
{
    let v = chars_of(text);
    if v.len() == 0 {
        return None;
    }
    let scale: u64 = match v[v.len() - 1] {
        'K' => 0x400,
        'k' => 0x400,
        'M' => 0x10_0000,
        'm' => 0x10_0000,
        'G' => GIB,
        'g' => GIB,
        'T' => 0x100_0000_0000,
        't' => 0x100_0000_0000,
        _ => 1,
    };
    let digits = if scale == 1 {
        assert(v@.subrange(0, v@.len() as int) =~= v@);
        part(&v, 0, v.len())
    } else {
        assert(v@.subrange(0, v@.len() - 1) =~= v@.drop_last());
        part(&v, 0, v.len() - 1)
    };
    match read_amount(&trimmed_chars(&digits)) {
        Some(n) => count(&n, scale),
        None => None,
    }
}

/// So many bytes in gibibytes, to one place, a tie going to the even digit.
pub open spec fn gib_text(bytes: nat) -> Seq<char> {
    let n = bytes * 10;
    let q = n / 0x4000_0000;
    let left = n % 0x4000_0000;
    let tenths = if 2 * left > 0x4000_0000 || (2 * left == 0x4000_0000 && q % 2 == 1) {
        q + 1
    } else {
        q
    };
    dec(tenths / 10) + "."@ + dec(tenths % 10) + " GiB"@
}

/// So many bytes in gibibytes, however many.
#[verifier::rlimit(80)]
#[verifier::spinoff_prover]
pub fn gib_wide(bytes: u128) -> (r: String)
    ensures
        r@ == gib_text(bytes as nat),
{
    let whole: u128 = bytes / 0x4000_0000;
    let rest: u128 = (bytes % 0x4000_0000) * 10;
    let q: u128 = whole * 10 + rest / 0x4000_0000;
    let left: u128 = rest % 0x4000_0000;
    proof {
        let n = bytes * 10;
        assert(n == 0x4000_0000 * q + left);
        assert(n / 0x4000_0000 == q && n % 0x4000_0000 == left);
    }
    let tenths: u128 = if 2 * left > 0x4000_0000 || (2 * left == 0x4000_0000 && q % 2 == 1) {
        q + 1
    } else {
        q
    };
    decimal_wide(tenths / 10).concat(".").concat(decimal_wide(tenths % 10).as_str()).concat(" GiB")
}

pub fn gib(bytes: u64) -> (r: String)
    ensures
        r@ == gib_text(bytes as nat),
{
    gib_wide(bytes as u128)
}

// ---------------------------------------------------------------------------
// Disk specifications
// ---------------------------------------------------------------------------

/// The size that the first part of a specification to name one names.
pub open spec fn named_size(parts: Seq<Seq<char>>) -> Option<nat>
    decreases parts.len(),
{
    if parts.len() == 0 {
        None
    } else {
        match after(parts[0], "size="@) {
            Some(text) => size_of(text),
            None => named_size(parts.skip(1)),
        }
    }
}

/// The storage a disk lives on, and how much room it takes. A `cdrom` is not a
/// disk that gets copied, and `none` or `cloudinit` entries have no size.
pub open spec fn priced(spec: Seq<char>) -> Option<(Seq<char>, nat)> {
    let storage = split(spec, seq![':'])[0];
    if contains(spec, "media=cdrom"@) || storage.len() == 0 || storage == "none"@ {
        None
    } else {
        match named_size(split(spec, seq![','])) {
            Some(n) => Some((storage, n)),
            None => None,
        }
    }
}

/// The storage a disk lives on, and how much room it takes.
///
/// A spec reads `storage:vm-9001-disk-0,iothread=1,size=8G`. A `cdrom` is not a
/// disk that gets copied, and `none`/`cloudinit` entries have no size at all.
pub fn disk_storage_and_size(spec: &str) -> (r: Option<(String, u64)>)
    ensures
        match r {
            Some((s, n)) => priced(spec@) == Some((s@, n as nat)),
            None => priced(spec@) is None,
        },
{
    if holds(spec, "media=cdrom") {
        return None;
    }
    let storage = up_to(spec, ':');
    if storage.as_str().is_empty() || same(storage.as_str(), "none") {
        return None;
    }
    let comma: [char; 1] = [','];
    assert(comma@ =~= seq![',']);
    let parts = split_text(spec, &comma);
    let ghost all = split(spec@, seq![',']);
    assert(all.skip(0) =~= all);
    let mut i: usize = 0;
    while i < parts.len()
        invariant
            i <= parts@.len(),
            all == texts(parts@),
            all == split(spec@, seq![',']),
            storage@ == split(spec@, seq![':'])[0],
            !contains(spec@, "media=cdrom"@) && storage@.len() > 0 && storage@ != "none"@,
            named_size(all) == named_size(all.skip(i as int)),
        decreases parts@.len() - i,
    {
        assert(all.skip(i as int)[0] == parts@[i as int]@);
        match strip(parts[i].as_str(), "size=") {
            Some(text) => {
                return match parse_size(text.as_str()) {
                    Some(n) => Some((storage, n)),
                    None => None,
                };
            },
            None => {},
        }
        assert(all.skip(i as int).skip(1) =~= all.skip(i + 1));
        i += 1;
    }
    None
}

/// No disk is believed to be larger than the largest size there is.
pub proof fn lemma_priced_bound(spec: Seq<char>)
    ensures
        priced(spec) is Some ==> (priced(spec)->0).1 <= MAX_SIZE,
{
    lemma_named_bound(split(spec, seq![',']));
}

proof fn lemma_named_bound(parts: Seq<Seq<char>>)
    ensures
        named_size(parts) is Some ==> named_size(parts)->0 <= MAX_SIZE,
    decreases parts.len(),
{
    if parts.len() > 0 {
        lemma_named_bound(parts.skip(1));
        match after(parts[0], "size="@) {
            Some(text) => {
                lemma_size_bound(text);
            },
            None => {},
        }
    }
}

proof fn lemma_size_bound(text: Seq<char>)
    ensures
        size_of(text) is Some ==> size_of(text)->0 <= MAX_SIZE,
{
    if size_of(text) is Some {
        let (digits, scale) = match scale_of(text.last()) {
            Some(k) => (text.drop_last(), k),
            None => (text, 1nat),
        };
        let x = amount(trim(digits))->0;
        let p = moved(x.parts, x.down, num(x.places));
        let n = (num(p.whole + p.fraction) * scale) as int;
        let d = power10(p.fraction.len()) as int;
        lemma_power10(p.fraction.len());
        assert((n + d - 1) / d >= 0) by (nonlinear_arith)
            requires
                n >= 0,
                d >= 1,
        ;
    }
}

}
