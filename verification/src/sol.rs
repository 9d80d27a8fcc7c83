//! Exact SOL amounts.
//!
//! Balances arrive in lamports, the smallest unit of the native token. A gauge
//! shows SOL. The amount is kept as a whole part and a fractional part of nine
//! decimal digits, so that no precision is lost on the way to the gauge.

use vstd::prelude::*;

verus! {

/// Lamports in one SOL.
pub const LAMPORTS_PER_SOL: u64 = 1_000_000_000;

/// An amount of SOL: `whole` SOL and `nanos` billionths of one.
#[derive(Clone, Copy, Debug, PartialEq, Eq, Structural)]
pub struct SolAmount {
    pub whole: u64,
    pub nanos: u32,
}

impl SolAmount {
    /// The fractional part stays below one SOL.
    pub open spec fn wf(self) -> bool {
        self.nanos < LAMPORTS_PER_SOL
    }

    /// The amount in lamports.
    pub open spec fn lamports_spec(self) -> int {
        self.whole * LAMPORTS_PER_SOL + self.nanos
    }

    /// The SOL amount that `lamports` lamports make.
    pub open spec fn of_lamports(lamports: u64) -> SolAmount {
        SolAmount {
            whole: (lamports / LAMPORTS_PER_SOL) as u64,
            nanos: (lamports % LAMPORTS_PER_SOL) as u32,
        }
    }

    /// Converts lamports to SOL: the quotient and the remainder by 10^9.
    pub fn from_lamports(lamports: u64) -> (amount: SolAmount)
        ensures
            amount == Self::of_lamports(lamports),
            amount.wf(),
            amount.lamports_spec() == lamports,
    {
        SolAmount {
            whole: lamports / LAMPORTS_PER_SOL,
            nanos: (lamports % LAMPORTS_PER_SOL) as u32,
        }
    }

    /// The amount in lamports, `None` where it does not fit in 64 bits.
    pub fn lamports(&self) -> (total: Option<u64>)
        ensures
            total is Some <==> self.lamports_spec() <= u64::MAX,
            total matches Some(l) ==> l == self.lamports_spec(),
    {
        match self.whole.checked_mul(LAMPORTS_PER_SOL) {
            Some(base) => base.checked_add(self.nanos as u64),
            None => None,
        }
    }
}

} // verus!
