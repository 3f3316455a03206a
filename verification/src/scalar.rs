//! The reference engine and the quad engine.
//!
//! `next_match` consumes one byte per iteration and is the correctness
//! oracle: every other engine is proved against the same contract.
//! `next_match2` consumes four bytes per iteration as two independent
//! two-step scale-and-add computations, shortening the serial dependency
//! chain, and delegates tail bytes to `next_match`.

use vstd::arithmetic::div_mod::lemma_fundamental_div_mod;
use vstd::prelude::*;
use vstd::slice::slice_subrange;

use crate::model::boundary_at;
use crate::model::engine_post;
use crate::model::lemma_post_extend_absent;
use crate::model::lemma_post_extend_found;
use crate::model::lemma_roll_take_step;
use crate::model::lemma_scale2_exec;
use crate::model::lemma_scale2_fuses;
use crate::model::lemma_step_exec;
use crate::model::roll;
use crate::model::scale2;
use crate::model::step;
use crate::table::Table;

verus! {

/// One recurrence step as a fused scale-and-add: `b + 2a` modulo 2^64.
#[inline]
pub(crate) fn add_sh(a: u64, b: u64) -> (out: u64)
    ensures
        out == step(a, b),
{
    proof {
        lemma_step_exec(a, b);
    }
    b.wrapping_add(a.wrapping_mul(2))
}

/// Two recurrence shifts as one fused scale-and-add: `b + 4a` modulo 2^64.
#[inline]
pub(crate) fn add_sh2(a: u64, b: u64) -> (out: u64)
    ensures
        out == scale2(a, b),
{
    proof {
        lemma_scale2_exec(a, b);
    }
    b.wrapping_add(a.wrapping_mul(4))
}

/// Reference engine: scans `buf` one byte at a time, updating `*hash` by
/// the recurrence, and returns the 1-based count of bytes consumed up to
/// the first position where `hash & mask == 0`, or `None` when the whole
/// slice was consumed without a match.
pub fn next_match(hash: &mut u64, table: &Table, buf: &[u8], mask: u64) -> (r: Option<usize>)
    ensures
        engine_post(*old(hash), table@, buf@, mask, r, *final(hash)),
{
    let mut h: u64 = *hash;
    let mut i: usize = 0;
    while i < buf.len()
        invariant
            i <= buf.len(),
            h == roll(*old(hash), table@, buf@.take(i as int)),
            forall|j: int| 0 <= j < i ==> !boundary_at(*old(hash), table@, buf@, mask, j),
            *hash == *old(hash),
        decreases buf.len() - i,
    {
        let b: u8 = buf[i];
        let w: u64 = table[b as usize];
        proof {
            lemma_roll_take_step(*old(hash), table@, buf@, i as int);
        }
        h = add_sh(h, w);
        if h & mask == 0 {
            *hash = h;
            return Some(i + 1);
        }
        i = i + 1;
    }
    *hash = h;
    proof {
        assert(buf@.take(buf@.len() as int) =~= buf@);
    }
    None
}

/// Quad engine: consumes four bytes per iteration as two independent
/// two-byte groups, each a single step followed by a fused double step on
/// the group's combined weight; tail bytes go through the reference
/// engine.  Reports exactly what the reference engine would.
pub fn next_match2(hash: &mut u64, table: &Table, buf: &[u8], mask: u64) -> (r: Option<usize>)
    ensures
        engine_post(*old(hash), table@, buf@, mask, r, *final(hash)),
{
    let mut h: u64 = *hash;
    let len: usize = buf.len();
    let groups: usize = len / 4;
    proof {
        lemma_fundamental_div_mod(len as int, 4);
    }
    let mut g: usize = 0;
    while g < groups
        invariant
            g <= groups,
            groups == len / 4,
            4 * groups <= len,
            len == buf@.len(),
            h == roll(*old(hash), table@, buf@.take(4 * g as int)),
            forall|j: int| 0 <= j < 4 * g ==> !boundary_at(*old(hash), table@, buf@, mask, j),
            *hash == *old(hash),
        decreases groups - g,
    {
        let base: usize = g * 4;
        let b1: u8 = buf[base];
        let b2: u8 = buf[base + 1];
        let b3: u8 = buf[base + 2];
        let b4: u8 = buf[base + 3];
        let hash_orig: u64 = h;
        let w1: u64 = table[b1 as usize];
        let w2: u64 = table[b2 as usize];
        let w3: u64 = table[b3 as usize];
        let w4: u64 = table[b4 as usize];

        let h1: u64 = add_sh(hash_orig, w1);
        let w1w2: u64 = add_sh(w1, w2);
        proof {
            lemma_roll_take_step(*old(hash), table@, buf@, base as int);
        }
        if h1 & mask == 0 {
            *hash = h1;
            return Some(base + 1);
        }
        let h2: u64 = add_sh2(hash_orig, w1w2);
        proof {
            lemma_scale2_fuses(hash_orig, w1, w2);
            lemma_roll_take_step(*old(hash), table@, buf@, base as int + 1);
        }
        if h2 & mask == 0 {
            *hash = h2;
            return Some(base + 2);
        }

        let hash_orig2: u64 = h2;
        let h3: u64 = add_sh(hash_orig2, w3);
        let w3w4: u64 = add_sh(w3, w4);
        proof {
            lemma_roll_take_step(*old(hash), table@, buf@, base as int + 2);
        }
        if h3 & mask == 0 {
            *hash = h3;
            return Some(base + 3);
        }
        let h4: u64 = add_sh2(hash_orig2, w3w4);
        proof {
            lemma_scale2_fuses(hash_orig2, w3, w4);
            lemma_roll_take_step(*old(hash), table@, buf@, base as int + 3);
        }
        if h4 & mask == 0 {
            *hash = h4;
            return Some(base + 4);
        }
        h = h4;
        g = g + 1;
    }
    let done: usize = groups * 4;
    let remainder: &[u8] = slice_subrange(buf, done, len);
    *hash = h;
    proof {
        assert(remainder@ =~= buf@.skip(done as int));
    }
    let r: Option<usize> = next_match(hash, table, remainder, mask);
    match r {
        Some(j) => {
            proof {
                lemma_post_extend_found(
                    *old(hash),
                    table@,
                    buf@,
                    mask,
                    done as int,
                    h,
                    j,
                    *hash,
                );
            }
            Some(done + j)
        },
        None => {
            proof {
                lemma_post_extend_absent(*old(hash), table@, buf@, mask, done as int, h, *hash);
            }
            None
        },
    }
}

} // verus!
