//! Duration strings, as they appear in manifests and site configuration.
//!
//! `30s`, `10m`, `2h`, `7d`. Deliberately narrow: a TTL is a human-scale
//! quantity and accepting `1.5h` or `90 minutes` buys nothing but ways to be
//! surprised.
use vstd::prelude::*;
use vstd::string::*;

use crate::text::{
    all_digits, chars_of, debug_text, dec, dec2, decimal, decimal2, digits_value, is_all_digits,
    law_decimal_reads_back, num, part, quoted,
};
use crate::time::Duration;

verus! {

/// Why a text is not a duration.
#[derive(Debug, PartialEq, Eq)]
pub struct ParseError {
    input: String,
    reason: String,
}

/// Ten years, the longest duration that is accepted, in seconds.
pub const MAX_SECS: u64 = 315_360_000;

/// How many seconds a unit stands for.
pub open spec fn unit_secs(unit: char) -> Option<nat> {
    if unit == 's' {
        Some(1)
    } else if unit == 'm' {
        Some(60)
    } else if unit == 'h' {
        Some(3600)
    } else if unit == 'd' {
        Some(86400)
    } else {
        None
    }
}

/// The seconds a duration string stands for, or why it stands for none: a
/// whole number and a unit, not zero and not beyond ten years.
pub open spec fn reading(s: Seq<char>) -> Result<nat, Seq<char>> {
    let amount = s.drop_last();
    if s.len() == 0 || unit_secs(s.last()) is None {
        Err("unknown or missing unit"@)
    } else if !all_digits(amount) {
        Err("the amount is not a whole number"@)
    } else if num(amount) > u64::MAX {
        Err("the amount is too large"@)
    } else if num(amount) == 0 {
        Err("zero"@)
    } else if num(amount) * unit_secs(s.last())->0 > u64::MAX {
        Err("the amount is too large"@)
    } else if num(amount) * unit_secs(s.last())->0 > MAX_SECS {
        Err("longer than ten years, which is a typo, not a plan"@)
    } else {
        Ok(num(amount) * unit_secs(s.last())->0)
    }
}

/// What is said of a text that is not a duration.
pub open spec fn complaint(input: Seq<char>, reason: Seq<char>) -> Seq<char> {
    debug_text(input) + " is not a duration ("@ + reason
        + "); expected a whole number followed by s, m, h or d"@
}

impl ParseError {
    /// The text that was refused, and the reason.
    pub closed spec fn view(&self) -> (Seq<char>, Seq<char>) {
        (self.input@, self.reason@)
    }

    pub fn message(&self) -> (r: String)
        ensures
            r@ == complaint(self@.0, self@.1),
    {
        quoted(self.input.as_str()).concat(" is not a duration (").concat(
            self.reason.as_str(),
        ).concat("); expected a whole number followed by s, m, h or d")
    }
}

fn refuse(input: &str, reason: &str) -> (r: ParseError)
    ensures
        r@ == (input@, reason@),
{
    ParseError { input: input.to_string(), reason: reason.to_string() }
}

/// Parse a duration string. Zero is rejected: every duration in this project is
/// a deadline or a cadence, and both mean something else entirely at zero.
pub fn parse(s: &str) -> (r: Result<Duration, ParseError>)
    ensures
        match r {
            Ok(d) => reading(s@) is Ok && d@ == reading(s@)->Ok_0 * 1_000_000_000,
            Err(e) => reading(s@) is Err && e@ == (s@, reading(s@)->Err_0),
        },
{
    let v = chars_of(s);
    if v.len() == 0 {
        return Err(refuse(s, "unknown or missing unit"));
    }
    let per: u64 = match v[v.len() - 1] {
        's' => 1,
        'm' => 60,
        'h' => 3600,
        'd' => 86400,
        _ => {
            return Err(refuse(s, "unknown or missing unit"));
        },
    };
    let digits = part(&v, 0, v.len() - 1);
    assert(digits@ =~= s@.drop_last());
    if !is_all_digits(&digits) {
        return Err(refuse(s, "the amount is not a whole number"));
    }
    let amount: u64 = match digits_value(&digits, u64::MAX) {
        Some(n) => n,
        None => {
            return Err(refuse(s, "the amount is too large"));
        },
    };
    if amount == 0 {
        return Err(refuse(s, "zero"));
    }
    let secs: u64 = match amount.checked_mul(per) {
        Some(n) => n,
        None => {
            return Err(refuse(s, "the amount is too large"));
        },
    };
    if secs > MAX_SECS {
        return Err(refuse(s, "longer than ten years, which is a typo, not a plan"));
    }
    Ok(Duration::from_secs(secs))
}

/// So many seconds in the largest unit that divides them.
pub open spec fn exact(secs: nat) -> Seq<char> {
    if secs % 86400 == 0 && secs >= 86400 {
        dec(secs / 86400) + "d"@
    } else if secs % 3600 == 0 && secs >= 3600 {
        dec(secs / 3600) + "h"@
    } else if secs % 60 == 0 && secs >= 60 {
        dec(secs / 60) + "m"@
    } else {
        dec(secs) + "s"@
    }
}

/// So many seconds in the two largest units that matter to a reader.
pub open spec fn rough(secs: nat) -> Seq<char> {
    if secs < 60 {
        dec(secs) + "s"@
    } else if secs < 3600 {
        dec(secs / 60) + "m"@ + dec2(secs % 60) + "s"@
    } else {
        dec(secs / 3600) + "h"@ + dec2((secs % 3600) / 60) + "m"@
    }
}

/// Render a duration the way a person reads a remaining-time column: the
/// largest unit that divides it exactly, so `2h` round-trips rather than
/// becoming `7200s`.
pub fn format(d: Duration) -> (r: String)
    ensures
        r@ == exact((d@ / 1_000_000_000) as nat),
{
    let s: u64 = d.as_secs();
    if s % 86400 == 0 && s >= 86400 {
        decimal(s / 86400).concat("d")
    } else if s % 3600 == 0 && s >= 3600 {
        decimal(s / 3600).concat("h")
    } else if s % 60 == 0 && s >= 60 {
        decimal(s / 60).concat("m")
    } else {
        decimal(s).concat("s")
    }
}

/// Render a duration approximately, for display only -- `1h47m`, `3m12s`.
/// Never round-trips, and is not used anywhere a value is stored.
pub fn format_rough(d: Duration) -> (r: String)
    ensures
        r@ == rough((d@ / 1_000_000_000) as nat),
{
    let s: u64 = d.as_secs();
    if s < 60 {
        decimal(s).concat("s")
    } else if s < 3600 {
        decimal(s / 60).concat("m").concat(decimal2(s % 60).as_str()).concat("s")
    } else {
        decimal(s / 3600).concat("h").concat(decimal2((s % 3600) / 60).as_str()).concat("m")
    }
}

proof fn lemma_amount_and_unit(n: nat, unit: Seq<char>, per: nat)
    requires
        unit.len() == 1,
        unit_secs(unit[0]) == Some(per),
        0 < n,
        n * per <= MAX_SECS,
        n <= n * per,
    ensures
        reading(dec(n) + unit) == Ok::<nat, Seq<char>>(n * per),
{
    law_decimal_reads_back(n);
    let s = dec(n) + unit;
    assert(s.drop_last() =~= dec(n));
    assert(s.last() == unit[0]);
}

/// Every duration that can be configured reads back from what it is rendered
/// as.
pub proof fn law_exact_durations_read_back(secs: nat)
    requires
        1 <= secs <= MAX_SECS,
    ensures
        reading(exact(secs)) == Ok::<nat, Seq<char>>(secs),
{
    reveal_strlit("d");
    reveal_strlit("h");
    reveal_strlit("m");
    reveal_strlit("s");
    if secs % 86400 == 0 && secs >= 86400 {
        lemma_amount_and_unit(secs / 86400, "d"@, 86400);
    } else if secs % 3600 == 0 && secs >= 3600 {
        lemma_amount_and_unit(secs / 3600, "h"@, 3600);
    } else if secs % 60 == 0 && secs >= 60 {
        lemma_amount_and_unit(secs / 60, "m"@, 60);
    } else {
        lemma_amount_and_unit(secs, "s"@, 1);
    }
}

/// Whatever is accepted as a duration lasts at least a second and at most ten
/// years.
pub proof fn law_durations_are_bounded(s: Seq<char>)
    requires
        reading(s) is Ok,
    ensures
        1 <= reading(s)->Ok_0 <= MAX_SECS,
{
    let n = num(s.drop_last());
    let per = unit_secs(s.last())->0;
    assert(n >= 1 && per >= 1 ==> n * per >= 1) by (nonlinear_arith);
}

}
