//! The weight table shared by all engines, and construction and validation
//! of the companion (doubled) table the paired engine needs.

use vstd::prelude::*;

use crate::model::companion_of;
use crate::model::doubled;

verus! {

/// A weight table: a fixed mapping from each byte value to its 64-bit
/// weight, indexed directly by the byte.  Immutable after construction and
/// shared read-only by all engines.  The companion table the paired engine
/// takes has the same shape.
pub type Table = [u64; 256];

/// One entry of a companion table: the base entry shifted left one bit
/// modulo 2^64.
fn doubled_entry(w: u64) -> (r: u64)
    ensures
        r == doubled(w),
{
    w.wrapping_mul(2)
}

/// Builds the companion table of `table`, so that the pair satisfies the
/// paired engine's precondition by construction.
pub fn companion_table(table: &Table) -> (c: Table)
    ensures
        companion_of(c@, table@),
{
    let mut c: Table = [0u64; 256];
    let mut i: usize = 0;
    while i < 256
        invariant
            i <= 256,
            forall|j: int| 0 <= j < i ==> c@[j] == doubled(table@[j]),
        decreases 256 - i,
    {
        c[i] = doubled_entry(table[i]);
        i = i + 1;
    }
    c
}

/// Checks that `companion` really is the companion of `table`, entry by
/// entry, for callers that receive the two tables separately.
pub fn check_companion(table: &Table, companion: &Table) -> (ok: bool)
    ensures
        ok == companion_of(companion@, table@),
{
    let mut i: usize = 0;
    while i < 256
        invariant
            i <= 256,
            forall|j: int| 0 <= j < i ==> companion@[j] == doubled(table@[j]),
        decreases 256 - i,
    {
        if companion[i] != doubled_entry(table[i]) {
            return false;
        }
        i = i + 1;
    }
    true
}

} // verus!
