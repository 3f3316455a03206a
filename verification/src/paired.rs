//! The paired engine: two bytes per iteration, fusing two recurrence steps
//! with a companion (doubled) weight table.
//!
//! The fused probe tests the doubled hash against the doubled mask, which
//! discards bit 63 of both; when the caller's mask has bit 63 set the probe
//! could not tell a match from a non-match, so the engine falls back to the
//! reference engine for that class of mask.  For every other mask the probe
//! is proved exact, and the engine reports exactly what the reference
//! engine would.

use vstd::arithmetic::div_mod::lemma_fundamental_div_mod;
use vstd::prelude::*;
use vstd::slice::slice_subrange;

use crate::model::boundary_at;
use crate::model::companion_of;
use crate::model::doubled;
use crate::model::engine_post;
use crate::model::lemma_doubled_exec;
use crate::model::lemma_doubled_mask_test;
use crate::model::lemma_post_extend_absent;
use crate::model::lemma_post_extend_found;
use crate::model::lemma_roll_take_step;
use crate::model::lemma_scale2_doubled;
use crate::model::lemma_wrap_add_doubled;
use crate::model::roll;
use crate::model::step;
use crate::scalar::add_sh;
use crate::scalar::add_sh2;
use crate::scalar::next_match;
use crate::table::Table;

verus! {

/// Paired engine: consumes two bytes per iteration.  For each pair it
/// computes the fused two-step value in one scale-and-add on the companion
/// table, probes it against the doubled mask, and only on a probe hit
/// recomputes the true single-step hash.  Masks with bit 63 set are
/// delegated to the reference engine.  Reports exactly what the reference
/// engine would on every input.
pub fn next_match_paired(
    hash: &mut u64,
    table: &Table,
    companion: &Table,
    buf: &[u8],
    mask: u64,
) -> (r: Option<usize>)
    requires
        companion_of(companion@, table@),
    ensures
        engine_post(*old(hash), table@, buf@, mask, r, *final(hash)),
{
    if mask & 0x8000_0000_0000_0000u64 != 0 {
        return next_match(hash, table, buf, mask);
    }
    let mut h: u64 = *hash;
    let len: usize = buf.len();
    let pairs: usize = len / 2;
    proof {
        lemma_fundamental_div_mod(len as int, 2);
    }
    let mask2: u64 = mask.wrapping_mul(2);
    proof {
        lemma_doubled_exec(mask);
    }
    let mut p: usize = 0;
    while p < pairs
        invariant
            p <= pairs,
            pairs == len / 2,
            2 * pairs <= len,
            len == buf@.len(),
            mask & 0x8000_0000_0000_0000u64 == 0,
            mask2 == doubled(mask),
            companion_of(companion@, table@),
            h == roll(*old(hash), table@, buf@.take(2 * p as int)),
            forall|j: int| 0 <= j < 2 * p ==> !boundary_at(*old(hash), table@, buf@, mask, j),
            *hash == *old(hash),
        decreases pairs - p,
    {
        let base: usize = p * 2;
        let b1: u8 = buf[base];
        let b2: u8 = buf[base + 1];
        let hash_orig: u64 = h;
        let cw: u64 = companion[b1 as usize];
        let probe: u64 = add_sh2(hash_orig, cw);
        proof {
            lemma_scale2_doubled(hash_orig, table@[b1 as int]);
            lemma_roll_take_step(*old(hash), table@, buf@, base as int);
            lemma_doubled_mask_test(step(hash_orig, table@[b1 as int]), mask);
        }
        if probe & mask2 == 0 {
            let w1: u64 = table[b1 as usize];
            let h1: u64 = add_sh(hash_orig, w1);
            *hash = h1;
            return Some(base + 1);
        }
        let w2: u64 = table[b2 as usize];
        let h2: u64 = probe.wrapping_add(w2);
        proof {
            lemma_wrap_add_doubled(step(hash_orig, table@[b1 as int]), w2);
            lemma_roll_take_step(*old(hash), table@, buf@, base as int + 1);
        }
        if h2 & mask == 0 {
            *hash = h2;
            return Some(base + 2);
        }
        h = h2;
        p = p + 1;
    }
    let done: usize = pairs * 2;
    let odd: &[u8] = slice_subrange(buf, done, len);
    *hash = h;
    proof {
        assert(odd@ =~= buf@.skip(done as int));
    }
    let r: Option<usize> = next_match(hash, table, odd, mask);
    match r {
        Some(j) => {
            proof {
                lemma_post_extend_found(*old(hash), table@, buf@, mask, done as int, h, j, *hash);
            }
            Some(done + j)
        },
        None => {
            proof {
                lemma_post_extend_absent(*old(hash), table@, buf@, mask, done as int, h, *hash);
            }
            None
        },
    }
}

} // verus!
