//! Laws of the boundary-detection contract, proved for all inputs.

use vstd::prelude::*;

use crate::model::boundary_at;
use crate::model::engine_post;
use crate::model::lemma_boundary_split;
use crate::model::lemma_roll_concat;
use crate::model::roll;

verus! {

/// Equivalence and determinism: the engine contract pins its output down.
/// Any two calls satisfying `engine_post` on the same starting hash, table,
/// buffer and mask — whichever engines made them, reference, paired (any
/// mask, bit 63 set included) or quad — report the same boundary and leave
/// the same hash.
pub proof fn lemma_engines_agree(
    h0: u64,
    table: Seq<u64>,
    bytes: Seq<u8>,
    mask: u64,
    r1: Option<usize>,
    h1: u64,
    r2: Option<usize>,
    h2: u64,
)
    requires
        engine_post(h0, table, bytes, mask, r1, h1),
        engine_post(h0, table, bytes, mask, r2, h2),
    ensures
        r1 == r2,
        h1 == h2,
{
    match r1 {
        Some(n1) => {
            match r2 {
                Some(n2) => {
                    if n1 < n2 {
                        assert(!boundary_at(h0, table, bytes, mask, n1 - 1));
                    }
                    if n2 < n1 {
                        assert(!boundary_at(h0, table, bytes, mask, n2 - 1));
                    }
                },
                None => {
                    assert(!boundary_at(h0, table, bytes, mask, n1 - 1));
                },
            }
        },
        None => {
            match r2 {
                Some(n2) => {
                    assert(!boundary_at(h0, table, bytes, mask, n2 - 1));
                },
                None => {},
            }
        },
    }
}

/// Resumability: processing `a + b` in one call reaches the same hash as
/// processing `a`, carrying the hash over, then processing `b`; and the
/// boundary positions of the whole are the boundary positions of `a`
/// followed by those of `b` shifted by `a.len()`.
pub proof fn lemma_resumable(h0: u64, table: Seq<u64>, a: Seq<u8>, b: Seq<u8>, mask: u64)
    ensures
        roll(h0, table, a + b) == roll(roll(h0, table, a), table, b),
        forall|j: int|
            0 <= j < a.len() ==> ((#[trigger] boundary_at(h0, table, a + b, mask, j))
                <==> boundary_at(h0, table, a, mask, j)),
        forall|j: int|
            0 <= j < b.len() ==> (boundary_at(h0, table, a + b, mask, a.len() + j)
                <==> (#[trigger] boundary_at(roll(h0, table, a), table, b, mask, j))),
{
    lemma_roll_concat(h0, table, a, b);
    assert forall|j: int| 0 <= j < a.len() implies ((#[trigger] boundary_at(
        h0,
        table,
        a + b,
        mask,
        j,
    )) <==> boundary_at(h0, table, a, mask, j)) by {
        assert((a + b).take(j + 1) =~= a.take(j + 1));
    }
    assert forall|j: int| 0 <= j < b.len() implies (boundary_at(h0, table, a + b, mask, a.len() + j)
        <==> (#[trigger] boundary_at(roll(h0, table, a), table, b, mask, j))) by {
        assert((a + b).take(a.len() as int) =~= a);
        assert((a + b).skip(a.len() as int) =~= b);
        lemma_boundary_split(h0, table, a + b, mask, a.len() as int, j);
    }
}

/// An all-ones mask matches exactly when the rolling hash is zero.
pub proof fn lemma_all_ones_mask(h0: u64, table: Seq<u64>, bytes: Seq<u8>, i: int)
    ensures
        boundary_at(h0, table, bytes, 0xffff_ffff_ffff_ffffu64, i) <==> roll(
            h0,
            table,
            bytes.take(i + 1),
        ) == 0,
{
    let x = roll(h0, table, bytes.take(i + 1));
    assert((x & 0xffff_ffff_ffff_ffffu64 == 0) <==> x == 0) by (bit_vector);
}

/// A zero mask matches at every position.
pub proof fn lemma_zero_mask(h0: u64, table: Seq<u64>, bytes: Seq<u8>, i: int)
    ensures
        boundary_at(h0, table, bytes, 0u64, i),
{
    let x = roll(h0, table, bytes.take(i + 1));
    assert(x & 0u64 == 0) by (bit_vector);
}

/// With a zero mask, every engine reports the boundary right after the
/// first byte of any non-empty buffer.
pub proof fn lemma_zero_mask_first_byte(
    h0: u64,
    table: Seq<u64>,
    bytes: Seq<u8>,
    r: Option<usize>,
    h1: u64,
)
    requires
        bytes.len() > 0,
        engine_post(h0, table, bytes, 0u64, r, h1),
    ensures
        r == Some(1usize),
        h1 == roll(h0, table, bytes.take(1)),
{
    lemma_zero_mask(h0, table, bytes, 0);
    match r {
        Some(n) => {
            if n > 1 {
                assert(!boundary_at(h0, table, bytes, 0u64, 0));
            }
        },
        None => {
            assert(!boundary_at(h0, table, bytes, 0u64, 0));
        },
    }
}

} // verus!
