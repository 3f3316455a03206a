use rollhash::paired::next_match_paired;
use rollhash::scalar::next_match;
use rollhash::scalar::next_match2;
use rollhash::table::check_companion;
use rollhash::table::companion_table;
use rollhash::Table;

/// An independent oracle for the reference recurrence, written directly
/// with shift-and-add so the library is checked against a second reading
/// of the contract.
fn oracle(hash: &mut u64, table: &Table, buf: &[u8], mask: u64) -> Option<usize> {
    let mut h = *hash;
    for (i, b) in buf.iter().enumerate() {
        h = (h << 1).wrapping_add(table[*b as usize]);
        if h & mask == 0 {
            *hash = h;
            return Some(i + 1);
        }
    }
    *hash = h;
    None
}

fn const_table(w: u64) -> Table {
    [w; 256]
}

#[test]
fn empty_buffer_returns_none() {
    let table = const_table(1);
    let companion = companion_table(&table);
    for mask in [0u64, 1, 0xff, u64::MAX] {
        let mut h = 7u64;
        assert_eq!(next_match(&mut h, &table, &[], mask), None);
        assert_eq!(h, 7);
        assert_eq!(next_match2(&mut h, &table, &[], mask), None);
        assert_eq!(h, 7);
        assert_eq!(next_match_paired(&mut h, &table, &companion, &[], mask), None);
        assert_eq!(h, 7);
    }
}

#[test]
fn concrete_three_bytes() {
    // table[b] = b, hash 0, bytes [1, 2, 3], mask 0b11:
    // h1 = 0*2 + 1 = 1 (1 & 3 != 0), h2 = 1*2 + 2 = 4 (4 & 3 == 0) -> Some(2).
    let mut table = [0u64; 256];
    for b in 0..256 {
        table[b] = b as u64;
    }
    let companion = companion_table(&table);
    let buf = [1u8, 2, 3];

    let mut h = 0u64;
    assert_eq!(next_match(&mut h, &table, &buf, 0b11), Some(2));
    assert_eq!(h, 4);

    let mut h = 0u64;
    assert_eq!(next_match2(&mut h, &table, &buf, 0b11), Some(2));
    assert_eq!(h, 4);

    let mut h = 0u64;
    assert_eq!(next_match_paired(&mut h, &table, &companion, &buf, 0b11), Some(2));
    assert_eq!(h, 4);
}

#[test]
fn all_ones_table_low_bit_mask_never_matches() {
    // With table[b] = 1 and hash 0, the hash after k bytes is 2^k - 1,
    // always odd, so mask 0b1 never matches.
    let table = const_table(1);
    let companion = companion_table(&table);
    let buf = [0u8; 16];

    let mut h = 0u64;
    assert_eq!(next_match(&mut h, &table, &buf, 0b1), None);
    assert_eq!(h, 65535);

    let mut h = 0u64;
    assert_eq!(next_match2(&mut h, &table, &buf, 0b1), None);
    assert_eq!(h, 65535);

    let mut h = 0u64;
    assert_eq!(next_match_paired(&mut h, &table, &companion, &buf, 0b1), None);
    assert_eq!(h, 65535);
}

#[test]
fn all_ones_table_bit_one_mask_matches_first_byte() {
    // Same table, mask 0b10: the first-byte hash is 1 and 1 & 2 == 0.
    let table = const_table(1);
    let companion = companion_table(&table);
    let buf = [9u8, 9, 9];

    let mut h = 0u64;
    assert_eq!(next_match(&mut h, &table, &buf, 0b10), Some(1));
    assert_eq!(h, 1);

    let mut h = 0u64;
    assert_eq!(next_match2(&mut h, &table, &buf, 0b10), Some(1));
    assert_eq!(h, 1);

    let mut h = 0u64;
    assert_eq!(next_match_paired(&mut h, &table, &companion, &buf, 0b10), Some(1));
    assert_eq!(h, 1);
}

#[test]
fn zero_mask_matches_every_first_byte() {
    let mut table = [0u64; 256];
    for b in 0..256 {
        table[b] = (b as u64).wrapping_mul(0x9e37_79b9_7f4a_7c15);
    }
    let companion = companion_table(&table);
    let buf = [42u8, 17, 99, 3, 250];

    let mut h = 123u64;
    assert_eq!(next_match(&mut h, &table, &buf, 0), Some(1));
    let mut h = 123u64;
    assert_eq!(next_match2(&mut h, &table, &buf, 0), Some(1));
    let mut h = 123u64;
    assert_eq!(next_match_paired(&mut h, &table, &companion, &buf, 0), Some(1));
}

#[test]
fn all_ones_mask_matches_only_hash_zero() {
    // Zero weights keep the hash at zero, which the all-ones mask accepts
    // immediately; weight 1 keeps it nonzero, which it never accepts.
    let zero_table = const_table(0);
    let one_table = const_table(1);
    let zc = companion_table(&zero_table);
    let oc = companion_table(&one_table);
    let buf = [5u8; 11];

    let mut h = 0u64;
    assert_eq!(next_match(&mut h, &zero_table, &buf, u64::MAX), Some(1));
    assert_eq!(h, 0);
    let mut h = 0u64;
    assert_eq!(next_match2(&mut h, &zero_table, &buf, u64::MAX), Some(1));
    let mut h = 0u64;
    assert_eq!(next_match_paired(&mut h, &zero_table, &zc, &buf, u64::MAX), Some(1));

    let mut h = 0u64;
    assert_eq!(next_match(&mut h, &one_table, &buf, u64::MAX), None);
    let mut h = 0u64;
    assert_eq!(next_match2(&mut h, &one_table, &buf, u64::MAX), None);
    let mut h = 0u64;
    assert_eq!(next_match_paired(&mut h, &one_table, &oc, &buf, u64::MAX), None);
}

#[test]
fn boundary_in_tail_of_each_length() {
    // table[0] = 1, table[1] = 2, mask 0b11.  From hash 0, bytes of value 0
    // give hashes 1, 3, 7, ... (never 0 mod 4); a final byte of value 1
    // lands exactly on a multiple of 4.  The boundary falls on the last
    // byte for every buffer length, covering tails of the quad engine
    // (lengths 5, 6, 7) and the odd tail of the paired engine.
    let mut table = [0u64; 256];
    table[0] = 1;
    table[1] = 2;
    let companion = companion_table(&table);
    for len in 2usize..=9 {
        let mut buf = vec![0u8; len];
        buf[len - 1] = 1;
        // Hash after len-1 zero bytes is 2^(len-1) - 1; the final byte of
        // weight 2 brings it to exactly 2^len, a multiple of 4.
        let expect_hash = 1u64 << len;

        let mut h = 0u64;
        assert_eq!(next_match(&mut h, &table, &buf, 0b11), Some(len));
        assert_eq!(h, expect_hash);

        let mut h = 0u64;
        assert_eq!(next_match2(&mut h, &table, &buf, 0b11), Some(len));
        assert_eq!(h, expect_hash);

        let mut h = 0u64;
        assert_eq!(next_match_paired(&mut h, &table, &companion, &buf, 0b11), Some(len));
        assert_eq!(h, expect_hash);
    }
}

#[test]
fn matches_oracle_on_short_lengths() {
    // Every length 0..=9 against the independent oracle, with a mask that
    // hits often, so boundaries landing in tails are position-checked.
    let mut table = [0u64; 256];
    let mut x = 0x0123_4567_89ab_cdefu64;
    for b in 0..256 {
        x = x.wrapping_mul(6364136223846793005).wrapping_add(1442695040888963407);
        table[b] = x;
    }
    let companion = companion_table(&table);
    for len in 0usize..=9 {
        for mask in [0x1u64, 0x3, 0x7, 0xf] {
            let mut bytes = vec![0u8; len];
            for (i, b) in bytes.iter_mut().enumerate() {
                *b = (i as u8).wrapping_mul(37).wrapping_add(11);
            }
            let mut h_oracle = 5u64;
            let expected = oracle(&mut h_oracle, &table, &bytes, mask);

            let mut h = 5u64;
            assert_eq!(next_match(&mut h, &table, &bytes, mask), expected);
            assert_eq!(h, h_oracle);

            let mut h = 5u64;
            assert_eq!(next_match2(&mut h, &table, &bytes, mask), expected);
            assert_eq!(h, h_oracle);

            let mut h = 5u64;
            assert_eq!(next_match_paired(&mut h, &table, &companion, &bytes, mask), expected);
            assert_eq!(h, h_oracle);
        }
    }
}

#[test]
fn companion_table_doubles_with_wraparound() {
    let mut table = [0u64; 256];
    table[0] = 0x8000_0000_0000_0001;
    table[1] = u64::MAX;
    table[2] = 7;
    let c = companion_table(&table);
    assert_eq!(c[0], 2);
    assert_eq!(c[1], u64::MAX - 1);
    assert_eq!(c[2], 14);
    assert!(check_companion(&table, &c));
}

#[test]
fn check_companion_rejects_wrong_entry() {
    let mut table = [0u64; 256];
    for b in 0..256 {
        table[b] = (b as u64).wrapping_mul(0x2545_f491_4f6c_dd1d);
    }
    let mut c = companion_table(&table);
    assert!(check_companion(&table, &c));
    c[100] ^= 1;
    assert!(!check_companion(&table, &c));
}

#[test]
fn determinism_same_inputs_same_outputs() {
    let mut table = [0u64; 256];
    for b in 0..256 {
        table[b] = (b as u64).wrapping_mul(0x9e37_79b9_7f4a_7c15).wrapping_add(b as u64);
    }
    let companion = companion_table(&table);
    let bytes: Vec<u8> = (0..200u32).map(|i| (i * 31 % 251) as u8).collect();
    for mask in [0x3fu64, 0x7ff, 1 << 63 | 0xff] {
        let mut h1 = 99u64;
        let mut h2 = 99u64;
        let r1 = next_match_paired(&mut h1, &table, &companion, &bytes, mask);
        let r2 = next_match_paired(&mut h2, &table, &companion, &bytes, mask);
        assert_eq!(r1, r2);
        assert_eq!(h1, h2);
        let mut h3 = 99u64;
        let mut h4 = 99u64;
        let r3 = next_match2(&mut h3, &table, &bytes, mask);
        let r4 = next_match2(&mut h4, &table, &bytes, mask);
        assert_eq!(r3, r4);
        assert_eq!(h3, h4);
    }
}
