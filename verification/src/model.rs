//! The mathematical model of the rolling hash: the per-byte recurrence, the
//! fused variants of it, the hash of a whole byte sequence, and the boundary
//! condition every engine reports on.

use vstd::arithmetic::div_mod::lemma_add_mod_noop_right;
use vstd::arithmetic::div_mod::lemma_mod_bound;
use vstd::arithmetic::div_mod::lemma_mod_sub_multiples_vanish;
use vstd::arithmetic::div_mod::lemma_mul_mod_noop_right;
use vstd::arithmetic::div_mod::lemma_small_mod;
use vstd::prelude::*;
use vstd::wrapping::u64_specs;

verus! {

/// One step of the rolling-hash recurrence: `(2h + w) mod 2^64`, where `w`
/// is the weight of the byte just consumed.
pub open spec fn step(h: u64, w: u64) -> u64 {
    ((2 * h + w) % 0x1_0000_0000_0000_0000) as u64
}

/// Two recurrence shifts fused into one scale-and-add: `(4h + w) mod 2^64`.
/// Feeding it the combined weight of two bytes advances the hash two steps.
pub open spec fn scale2(h: u64, w: u64) -> u64 {
    ((4 * h + w) % 0x1_0000_0000_0000_0000) as u64
}

/// A value shifted left by one bit modulo 2^64: `(2x) mod 2^64`.
pub open spec fn doubled(x: u64) -> u64 {
    ((2 * x) % 0x1_0000_0000_0000_0000) as u64
}

/// The rolling hash after consuming `bytes` in order, starting from `h0`,
/// one `step` per byte, each byte's weight looked up in `table`.
pub open spec fn roll(h0: u64, table: Seq<u64>, bytes: Seq<u8>) -> u64
    decreases bytes.len(),
{
    if bytes.len() == 0 {
        h0
    } else {
        step(roll(h0, table, bytes.drop_last()), table[bytes.last() as int])
    }
}

/// A boundary lies at 0-based index `i` of `bytes` when the hash right after
/// consuming `bytes[i]` satisfies the mask condition.
pub open spec fn boundary_at(h0: u64, table: Seq<u64>, bytes: Seq<u8>, mask: u64, i: int) -> bool {
    roll(h0, table, bytes.take(i + 1)) & mask == 0
}

/// What every engine ensures: `r` is the 1-based count of bytes consumed up
/// to the first boundary, or `None` when no index of `bytes` is a boundary,
/// and `h1` is the hash after exactly the consumed prefix.
pub open spec fn engine_post(
    h0: u64,
    table: Seq<u64>,
    bytes: Seq<u8>,
    mask: u64,
    r: Option<usize>,
    h1: u64,
) -> bool {
    match r {
        Some(n) => {
            &&& 1 <= n <= bytes.len()
            &&& boundary_at(h0, table, bytes, mask, n - 1)
            &&& forall|j: int| 0 <= j < n - 1 ==> !boundary_at(h0, table, bytes, mask, j)
            &&& h1 == roll(h0, table, bytes.take(n as int))
        },
        None => {
            &&& forall|j: int| 0 <= j < bytes.len() ==> !boundary_at(h0, table, bytes, mask, j)
            &&& h1 == roll(h0, table, bytes)
        },
    }
}

/// `c` is the companion of weight table `t`: same 256-entry shape, each
/// entry the matching base entry shifted left one bit modulo 2^64.
pub open spec fn companion_of(c: Seq<u64>, t: Seq<u64>) -> bool {
    &&& c.len() == 256
    &&& t.len() == 256
    &&& forall|i: int| 0 <= i < 256 ==> c[i] == doubled(t[i])
}

/// Consuming one more byte advances the rolling hash by one `step`.
pub proof fn lemma_roll_take_step(h0: u64, table: Seq<u64>, bytes: Seq<u8>, i: int)
    requires
        0 <= i < bytes.len(),
    ensures
        roll(h0, table, bytes.take(i + 1)) == step(
            roll(h0, table, bytes.take(i)),
            table[bytes[i] as int],
        ),
{
    assert(bytes.take(i + 1).drop_last() =~= bytes.take(i));
    assert(bytes.take(i + 1).last() == bytes[i]);
}

/// A wrapping add of `b` onto an already reduced value `x mod 2^64`
/// computes `(x + b) mod 2^64`.
pub proof fn lemma_wrap_add_reduced(x: int, b: u64)
    requires
        x >= 0,
    ensures
        u64_specs::wrapping_add(b, ((x % 0x1_0000_0000_0000_0000) as u64)) == ((x + b)
            % 0x1_0000_0000_0000_0000) as u64,
{
    let m: int = 0x1_0000_0000_0000_0000;
    let t: int = x % m;
    lemma_mod_bound(x, m);
    lemma_add_mod_noop_right(b as int, x, m);
    if b + t > u64::MAX {
        lemma_mod_sub_multiples_vanish(b + t, m);
        lemma_small_mod((b + t - m) as nat, m as nat);
    } else {
        lemma_small_mod((b + t) as nat, m as nat);
    }
}

/// The wrapping composition `b + 2a` computes one recurrence step.
pub proof fn lemma_step_exec(a: u64, b: u64)
    ensures
        u64_specs::wrapping_add(b, u64_specs::wrapping_mul(a, 2)) == step(a, b),
{
    assert(u64_specs::wrapping_mul(a, 2) == ((2 * a) % 0x1_0000_0000_0000_0000) as u64);
    lemma_wrap_add_reduced(2 * a, b);
}

/// The wrapping composition `b + 4a` computes the fused double step.
pub proof fn lemma_scale2_exec(a: u64, b: u64)
    ensures
        u64_specs::wrapping_add(b, u64_specs::wrapping_mul(a, 4)) == scale2(a, b),
{
    assert(u64_specs::wrapping_mul(a, 4) == ((4 * a) % 0x1_0000_0000_0000_0000) as u64);
    lemma_wrap_add_reduced(4 * a, b);
}

/// A wrapping mul by 2 computes `doubled`.
pub proof fn lemma_doubled_exec(x: u64)
    ensures
        u64_specs::wrapping_mul(x, 2) == doubled(x),
{
}

/// Adding a weight to a doubled hash completes one recurrence step: the
/// shift of the step was already folded into the doubling.
pub proof fn lemma_wrap_add_doubled(s: u64, w: u64)
    ensures
        u64_specs::wrapping_add(doubled(s), w) == step(s, w),
{
    let m: int = 0x1_0000_0000_0000_0000;
    lemma_mod_bound(2 * s, m);
    assert(u64_specs::wrapping_add(doubled(s), w) == u64_specs::wrapping_add(
        w,
        ((2 * s) % m) as u64,
    ));
    lemma_wrap_add_reduced(2 * s, w);
}

/// Fusing two steps: the fused double step applied to the combined weight
/// of two bytes equals the two sequential single steps.
pub proof fn lemma_scale2_fuses(h: u64, w1: u64, w2: u64)
    ensures
        scale2(h, step(w1, w2)) == step(step(h, w1), w2),
{
    let m: int = 0x1_0000_0000_0000_0000;
    lemma_add_mod_noop_right(4 * h, 2 * w1 + w2, m);
    assert(scale2(h, step(w1, w2)) == ((4 * h + 2 * w1 + w2) % m) as u64);
    let s1: int = (2 * h + w1) % m;
    lemma_mul_mod_noop_right(2, 2 * h + w1, m);
    lemma_add_mod_noop_right(w2 as int, 2 * s1, m);
    lemma_add_mod_noop_right(w2 as int, 2 * (2 * h + w1), m);
    assert(step(step(h, w1), w2) == ((2 * s1 + w2) % m) as u64);
    assert((2 * s1 + w2) % m == (2 * (2 * h + w1) + w2) % m);
}

/// The paired probe value: the fused double step fed a doubled weight is
/// the doubling of one ordinary step.
pub proof fn lemma_scale2_doubled(h: u64, w: u64)
    ensures
        scale2(h, doubled(w)) == doubled(step(h, w)),
{
    let m: int = 0x1_0000_0000_0000_0000;
    lemma_add_mod_noop_right(4 * h, 2 * w, m);
    assert(scale2(h, doubled(w)) == ((4 * h + 2 * w) % m) as u64);
    lemma_mul_mod_noop_right(2, 2 * h + w, m);
    assert(doubled(step(h, w)) == ((2 * (2 * h + w)) % m) as u64);
}

/// Testing a doubled hash against a doubled mask is exact whenever bit 63
/// of the mask is clear: that bit is the only information the doubling
/// discards.
pub proof fn lemma_doubled_mask_test(s: u64, mask: u64)
    requires
        mask & 0x8000_0000_0000_0000 == 0,
    ensures
        (doubled(s) & doubled(mask) == 0) <==> (s & mask == 0),
{
    assert((((2 * s) % 0x1_0000_0000_0000_0000) as u64 & ((2 * mask)
        % 0x1_0000_0000_0000_0000) as u64 == 0) <==> (s & mask == 0)) by (bit_vector)
        requires
            mask & 0x8000_0000_0000_0000 == 0,
    ;
}

/// Consuming a concatenation is consuming the first part, then the second
/// from the hash the first part produced.
pub proof fn lemma_roll_concat(h0: u64, table: Seq<u64>, a: Seq<u8>, b: Seq<u8>)
    ensures
        roll(h0, table, a + b) == roll(roll(h0, table, a), table, b),
    decreases b.len(),
{
    if b.len() == 0 {
        assert(a + b =~= a);
    } else {
        lemma_roll_concat(h0, table, a, b.drop_last());
        assert((a + b).drop_last() =~= a + b.drop_last());
        assert((a + b).last() == b.last());
    }
}

/// A boundary past a cut point is a boundary of the suffix, started from
/// the hash the prefix produced.
pub proof fn lemma_boundary_split(
    h0: u64,
    table: Seq<u64>,
    bytes: Seq<u8>,
    mask: u64,
    cut: int,
    j: int,
)
    requires
        0 <= cut <= bytes.len(),
        0 <= j < bytes.len() - cut,
    ensures
        boundary_at(h0, table, bytes, mask, cut + j) <==> boundary_at(
            roll(h0, table, bytes.take(cut)),
            table,
            bytes.skip(cut),
            mask,
            j,
        ),
{
    let a = bytes.take(cut);
    let b = bytes.skip(cut);
    assert(bytes.take(cut + j + 1) =~= a + b.take(j + 1));
    lemma_roll_concat(h0, table, a, b.take(j + 1));
}

/// An engine that found a boundary in the suffix, after a prefix with no
/// boundary, found the boundary of the whole buffer.
pub proof fn lemma_post_extend_found(
    h0: u64,
    table: Seq<u64>,
    bytes: Seq<u8>,
    mask: u64,
    cut: int,
    hmid: u64,
    n: usize,
    h1: u64,
)
    requires
        0 <= cut <= bytes.len(),
        bytes.len() <= usize::MAX,
        hmid == roll(h0, table, bytes.take(cut)),
        forall|j: int| 0 <= j < cut ==> !boundary_at(h0, table, bytes, mask, j),
        engine_post(hmid, table, bytes.skip(cut), mask, Some(n), h1),
    ensures
        engine_post(h0, table, bytes, mask, Some((cut + n) as usize), h1),
{
    let a = bytes.take(cut);
    let b = bytes.skip(cut);
    lemma_boundary_split(h0, table, bytes, mask, cut, n - 1);
    assert forall|j: int| 0 <= j < cut + n - 1 implies !boundary_at(
        h0,
        table,
        bytes,
        mask,
        j,
    ) by {
        if j >= cut {
            lemma_boundary_split(h0, table, bytes, mask, cut, j - cut);
        }
    }
    assert(bytes.take(cut + n) =~= a + b.take(n as int));
    lemma_roll_concat(h0, table, a, b.take(n as int));
}

/// An engine that found no boundary in the suffix, after a prefix with no
/// boundary, found none in the whole buffer.
pub proof fn lemma_post_extend_absent(
    h0: u64,
    table: Seq<u64>,
    bytes: Seq<u8>,
    mask: u64,
    cut: int,
    hmid: u64,
    h1: u64,
)
    requires
        0 <= cut <= bytes.len(),
        bytes.len() <= usize::MAX,
        hmid == roll(h0, table, bytes.take(cut)),
        forall|j: int| 0 <= j < cut ==> !boundary_at(h0, table, bytes, mask, j),
        engine_post(hmid, table, bytes.skip(cut), mask, None, h1),
    ensures
        engine_post(h0, table, bytes, mask, None, h1),
{
    let a = bytes.take(cut);
    let b = bytes.skip(cut);
    assert forall|j: int| 0 <= j < bytes.len() implies !boundary_at(h0, table, bytes, mask, j) by {
        if j >= cut {
            lemma_boundary_split(h0, table, bytes, mask, cut, j - cut);
        }
    }
    assert(bytes =~= a + b);
    lemma_roll_concat(h0, table, a, b);
}

} // verus!
