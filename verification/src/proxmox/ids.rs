//! Machine identifiers, and the range guard.
//!
//! Proxmox names virtual machines with small integers, shared across the whole
//! cluster -- so the identifiers reaper is allowed to touch are a *range*, and
//! everything outside it belongs to somebody else. The token's permissions
//! already stop most mistakes, but a permission error arrives after the request
//! and reads like a bug. This refuses first, and says why.
use vstd::prelude::*;
use vstd::string::*;
use std::ops::RangeInclusive;

use crate::provider::{MachineRef, ProviderError};
use crate::text::{debug_text, dec, decimal, quoted, read_unsigned, unsigned};

verus! {

/// The identifiers this provider may touch.
#[derive(Debug, Clone, Copy, PartialEq, Eq, Structural)]
pub struct IdRange {
    low: u32,
    high: u32,
}

/// The identifier stands in the range.
pub open spec fn in_range(ids: (u32, u32), id: int) -> bool {
    ids.0 <= id <= ids.1
}

/// The range as it is written.
pub open spec fn range_text(ids: (u32, u32)) -> Seq<char> {
    dec(ids.0 as nat) + "-"@ + dec(ids.1 as nat)
}

/// What a machine reference is as an identifier that may be acted on, or why
/// it is refused.
pub open spec fn checked(ids: (u32, u32), raw: Seq<char>) -> Result<u32, ProviderError<Seq<char>>> {
    match unsigned(raw, u32::MAX as nat) {
        None => Err(
            ProviderError::Refused(
                debug_text(raw) + " is not a machine identifier this provider issued"@,
            ),
        ),
        Some(id) => if in_range(ids, id as int) {
            Ok(id as u32)
        } else {
            Err(
                ProviderError::Refused(
                    "machine "@ + dec(id) + " is outside the range this provider may touch ("@
                        + range_text(ids) + "); refusing before contacting the API"@,
                ),
            )
        },
    }
}

impl IdRange {
    #[verifier::type_invariant]
    spec fn sound(self) -> bool {
        100 <= self.low <= self.high
    }

    /// The lowest and the highest identifier.
    pub closed spec fn view(&self) -> (u32, u32) {
        (self.low, self.high)
    }

    pub fn new(low: u32, high: u32) -> (r: Result<IdRange, String>)
        ensures
            match r {
                Ok(ids) => 100 <= low <= high && ids@ == (low, high),
                Err(m) => if low < 100 {
                    m@ == dec(low as nat)
                        + " is below the lowest identifier Proxmox allows (100)"@
                } else {
                    low > high && m@ == "range "@ + dec(low as nat) + "-"@ + dec(high as nat)
                        + " is inverted"@
                },
            },
    {
        // Proxmox itself will not accept an identifier below 100.
        if low < 100 {
            return Err(
                decimal(low as u64).concat(
                    " is below the lowest identifier Proxmox allows (100)",
                ),
            );
        }
        if low > high {
            return Err(
                "range ".to_string().concat(decimal(low as u64).as_str()).concat("-").concat(
                    decimal(high as u64).as_str(),
                ).concat(" is inverted"),
            );
        }
        Ok(IdRange { low, high })
    }

    pub fn contains(&self, id: u32) -> (r: bool)
        ensures
            r == in_range(self@, id as int),
    {
        self.low <= id && id <= self.high
    }

    pub fn iter(&self) -> (r: RangeInclusive<u32>)
        ensures
            r@.start == self@.0,
            r@.end == self@.1,
            !r@.exhausted,
    {
        RangeInclusive::new(self.low, self.high)
    }

    /// The lowest identifier and the highest are a range.
    pub fn bounds(&self) -> (r: (u32, u32))
        ensures
            r == self@,
            100 <= r.0 <= r.1,
    {
        proof {
            use_type_invariant(self);
        }
        (self.low, self.high)
    }

    /// The range as it is written.
    pub fn text(&self) -> (r: String)
        ensures
            r@ == range_text(self@),
    {
        decimal(self.low as u64).concat("-").concat(decimal(self.high as u64).as_str())
    }

    /// Read a machine reference as an identifier this provider may act on.
    ///
    /// Every operation calls this before touching the network, which is the
    /// point: an out-of-range identifier must never reach the API, whether it
    /// came from a stale session file, a typo, or a bug here.
    pub fn check(&self, machine: &MachineRef) -> (r: Result<u32, ProviderError>)
        ensures
            match r {
                Ok(id) => checked(self@, machine@.0) == Ok::<u32, ProviderError<Seq<char>>>(id),
                Err(e) => checked(self@, machine@.0) == Err::<u32, ProviderError<Seq<char>>>(e@),
            },
    {
        let raw = machine.as_str();
        match read_unsigned(raw, 0xffff_ffff) {
            None => Err(
                ProviderError::Refused(
                    quoted(raw).concat(" is not a machine identifier this provider issued"),
                ),
            ),
            Some(n) => {
                let id: u32 = n as u32;
                if self.contains(id) {
                    Ok(id)
                } else {
                    Err(
                        ProviderError::Refused(
                            "machine ".to_string().concat(decimal(n).as_str()).concat(
                                " is outside the range this provider may touch (",
                            ).concat(self.text().as_str()).concat(
                                "); refusing before contacting the API",
                            ),
                        ),
                    )
                }
            },
        }
    }
}

/// The only identifiers that are ever accepted are in the range, and every
/// identifier in the range is accepted as it is written.
pub proof fn law_only_the_range_is_accepted(ids: (u32, u32), raw: Seq<char>, id: u32)
    ensures
        checked(ids, raw) is Ok ==> in_range(ids, checked(ids, raw)->Ok_0 as int),
        checked(ids, raw) is Err ==> checked(ids, raw)->Err_0 is Refused,
        in_range(ids, id as int) ==> checked(ids, dec(id as nat)) == Ok::<
            u32,
            ProviderError<Seq<char>>,
        >(id),
{
    crate::text::law_unsigned_reads_back(id as nat, u32::MAX as nat);
}

}
