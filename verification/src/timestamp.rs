//! An absolute point in naive (zone-less) time.

use vstd::prelude::*;
use vstd::arithmetic::div_mod::{lemma_fundamental_div_mod, lemma_fundamental_div_mod_converse};

verus! {

/// Nanoseconds in one second.
pub const NANOS_PER_SEC: u32 = 1_000_000_000;

/// An absolute point in naive time: signed seconds since the Unix epoch
/// plus a nanosecond fraction that always counts forward from `secs`,
/// even when `secs` is negative.
#[derive(Clone, Copy, Debug, PartialEq, Eq, Structural)]
pub struct Timestamp {
    pub secs: i64,
    pub nanos: u32,
}

impl Timestamp {
    /// Well-formed: the fraction stays below one second.
    pub open spec fn wf(self) -> bool {
        self.nanos < NANOS_PER_SEC
    }

    /// The whole value in nanoseconds since the epoch.
    pub open spec fn as_nanos(self) -> int {
        self.secs * (NANOS_PER_SEC as int) + self.nanos
    }

    pub fn new(secs: i64, nanos: u32) -> (r: Timestamp)
        requires
            nanos < NANOS_PER_SEC,
        ensures
            r == (Timestamp { secs, nanos }),
    {
        Timestamp { secs, nanos }
    }
}

/// The timestamp whose value is `total` nanoseconds since the epoch:
/// seconds are the quotient (rounding towards minus infinity) and the
/// fraction is the nonnegative remainder.
pub open spec fn timestamp_from_nanos(total: int) -> Timestamp {
    Timestamp {
        secs: (total / (NANOS_PER_SEC as int)) as i64,
        nanos: (total % (NANOS_PER_SEC as int)) as u32,
    }
}

/// `total` decomposes into seconds that fit an `i64` plus a fraction.
pub open spec fn nanos_representable(total: int) -> bool {
    i64::MIN * (NANOS_PER_SEC as int) <= total <= i64::MAX * (NANOS_PER_SEC as int) + (
    NANOS_PER_SEC - 1)
}

/// Splits a nanosecond count into a well-formed timestamp.
pub fn split_nanos(total: i128) -> (r: Timestamp)
    requires
        nanos_representable(total as int),
    ensures
        r == timestamp_from_nanos(total as int),
        r.wf(),
        r.as_nanos() == total,
{
    let nps: i128 = NANOS_PER_SEC as i128;
    if total >= 0 {
        let m = total as u128;
        let q = m / (NANOS_PER_SEC as u128);
        let rem = m % (NANOS_PER_SEC as u128);
        proof {
            lemma_fundamental_div_mod(m as int, NANOS_PER_SEC as int);
            lemma_fundamental_div_mod_converse(
                total as int,
                NANOS_PER_SEC as int,
                q as int,
                rem as int,
            );
        }
        Timestamp { secs: q as i64, nanos: rem as u32 }
    } else {
        let m = (-total) as u128;
        let qm = m / (NANOS_PER_SEC as u128);
        let rm = m % (NANOS_PER_SEC as u128);
        proof {
            lemma_fundamental_div_mod(m as int, NANOS_PER_SEC as int);
        }
        if rm == 0 {
            proof {
                lemma_fundamental_div_mod_converse(
                    total as int,
                    NANOS_PER_SEC as int,
                    -(qm as int),
                    0,
                );
            }
            Timestamp { secs: -(qm as i128) as i64, nanos: 0 }
        } else {
            proof {
                lemma_fundamental_div_mod_converse(
                    total as int,
                    NANOS_PER_SEC as int,
                    -(qm as int) - 1,
                    NANOS_PER_SEC - rm,
                );
            }
            Timestamp { secs: (-(qm as i128) - 1) as i64, nanos: (NANOS_PER_SEC as u128 - rm) as u32 }
        }
    }
}

} // verus!
