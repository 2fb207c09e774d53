//! Allocation bitmaps: one bit per block or inode of a group, bit `k` of
//! byte `j` standing for entry `8 * j + k`.
use vstd::prelude::*;

verus! {

/// Whether bit `k` of `x` is set.
pub open spec fn bit_is_set(x: u8, k: u32) -> bool {
    x & (1u8 << k) != 0
}

/// Whether entry `n` of the bitmap is in use.
pub open spec fn entry_used(bm: Seq<u8>, n: int) -> bool {
    bit_is_set(bm[n / 8], (n % 8) as u32)
}

/// The first free entry of a bitmap, if any: every entry before it is in
/// use.
pub open spec fn is_first_free(bm: Seq<u8>, n: int) -> bool {
    &&& 0 <= n < bm.len() * 8
    &&& !entry_used(bm, n)
    &&& forall|m: int| 0 <= m < n ==> #[trigger] entry_used(bm, m)
}

/// Setting and clearing a bit leaves the other bits as they were.
pub proof fn lemma_bit_ops(x: u8, k: u32, j: u32)
    requires
        k < 8,
        j < 8,
    ensures
        bit_is_set(x | (1u8 << k), j) == (j == k || bit_is_set(x, j)),
        bit_is_set(x & !(1u8 << k), j) == (j != k && bit_is_set(x, j)),
{
    assert(((x | (1u8 << k)) & (1u8 << j) != 0) == (j == k || x & (1u8 << j) != 0)) by (bit_vector)
        requires
            k < 8,
            j < 8,
    ;
    assert(((x & !(1u8 << k)) & (1u8 << j) != 0) == (j != k && x & (1u8 << j) != 0)) by (bit_vector)
        requires
            k < 8,
            j < 8,
    ;
}

/// A byte whose eight bits are all set is 0xFF.
proof fn lemma_full_byte(x: u8)
    requires
        bit_is_set(x, 0) && bit_is_set(x, 1) && bit_is_set(x, 2) && bit_is_set(x, 3),
        bit_is_set(x, 4) && bit_is_set(x, 5) && bit_is_set(x, 6) && bit_is_set(x, 7),
    ensures
        x == 0xFF,
{
    assert(x & 1u8 != 0 && x & 2u8 != 0 && x & 4u8 != 0 && x & 8u8 != 0 && x & 16u8 != 0 && x & 32u8 != 0
        && x & 64u8 != 0 && x & 128u8 != 0 ==> x == 0xFF) by (bit_vector);
    assert(1u8 << 0u32 == 1u8 && 1u8 << 1u32 == 2u8 && 1u8 << 2u32 == 4u8 && 1u8 << 3u32 == 8u8) by (bit_vector);
    assert(1u8 << 4u32 == 16u8 && 1u8 << 5u32 == 32u8 && 1u8 << 6u32 == 64u8 && 1u8 << 7u32 == 128u8) by (bit_vector);
}

/// Whether `x` has all eight bits set exactly when it is 0xFF.
proof fn lemma_ff_full(x: u8, k: u32)
    requires
        x == 0xFF,
        k < 8,
    ensures
        bit_is_set(x, k),
{
    assert(0xFFu8 & (1u8 << k) != 0) by (bit_vector)
        requires
            k < 8,
    ;
}

/// Finds the first free entry of a bitmap: the first byte that is not 0xFF
/// and in it the lowest clear bit; gives its byte and bit.
pub fn first_free_bit(bm: &[u8]) -> (r: Option<(usize, u32)>)
    ensures
        match r {
            Some((byte, bit)) => byte < bm@.len() && bit < 8 && is_first_free(bm@, byte * 8 + bit),
            None => forall|n: int| 0 <= n < bm@.len() * 8 ==> #[trigger] entry_used(bm@, n),
        },
{
    let mut byte: usize = 0;
    while byte < bm.len()
        invariant
            byte <= bm@.len(),
            forall|j: int| 0 <= j < byte ==> #[trigger] bm@[j] == 0xFF,
        decreases bm@.len() - byte,
    {
        if bm[byte] != 0xFF {
            let x = bm[byte];
            let mut bit: u32 = 0;
            while bit < 8
                invariant
                    bit <= 8,
                    byte < bm@.len(),
                    forall|j: int| 0 <= j < byte ==> #[trigger] bm@[j] == 0xFF,
                    x == bm@[byte as int],
                    x != 0xFF,
                    forall|k: u32| k < bit ==> #[trigger] bit_is_set(x, k),
                decreases 8 - bit,
            {
                if x & (1u8 << bit) == 0 {
                    proof {
                        assert forall|m: int| 0 <= m < byte * 8 + bit implies #[trigger] entry_used(bm@, m) by {
                            if m < byte * 8 {
                                assert(bm@[m / 8] == 0xFF);
                                lemma_ff_full(bm@[m / 8], (m % 8) as u32);
                            } else {
                                assert(m / 8 == byte);
                                assert(bit_is_set(x, (m % 8) as u32));
                            }
                        }
                        assert((byte * 8 + bit) / 8 == byte);
                        assert((byte * 8 + bit) % 8 == bit);
                        assert(!entry_used(bm@, byte * 8 + bit));
                    }
                    return Some((byte, bit));
                }
                bit = bit + 1;
            }
            proof {
                assert(bit_is_set(x, 0) && bit_is_set(x, 1) && bit_is_set(x, 2) && bit_is_set(x, 3));
                assert(bit_is_set(x, 4) && bit_is_set(x, 5) && bit_is_set(x, 6) && bit_is_set(x, 7));
                lemma_full_byte(x);
            }
        }
        byte = byte + 1;
    }
    proof {
        assert forall|n: int| 0 <= n < bm@.len() * 8 implies #[trigger] entry_used(bm@, n) by {
            assert(0 <= n / 8 < bm@.len());
            lemma_ff_full(bm@[n / 8], (n % 8) as u32);
        }
    }
    None
}

/// Marks entry `8 * byte + bit` in use; the other entries stay.
pub fn set_bit(bm: &mut Vec<u8>, byte: usize, bit: u32)
    requires
        byte < old(bm)@.len(),
        bit < 8,
    ensures
        final(bm)@.len() == old(bm)@.len(),
        entry_used(final(bm)@, byte * 8 + bit),
        forall|n: int| 0 <= n < old(bm)@.len() * 8 && n != byte * 8 + bit ==> #[trigger] entry_used(final(bm)@, n) == entry_used(old(bm)@, n),
{
    let x = bm[byte];
    bm.set(byte, x | (1u8 << bit));
    proof {
        assert((byte * 8 + bit) / 8 == byte && (byte * 8 + bit) % 8 == bit);
        lemma_bit_ops(x, bit, bit);
        assert forall|n: int| 0 <= n < old(bm)@.len() * 8 && n != byte * 8 + bit implies #[trigger] entry_used(bm@, n)
            == entry_used(old(bm)@, n) by {
            if n / 8 == byte {
                lemma_bit_ops(x, bit, (n % 8) as u32);
            }
        }
    }
}

/// Marks entry `8 * byte + bit` free; the other entries stay.
pub fn clear_bit(bm: &mut Vec<u8>, byte: usize, bit: u32)
    requires
        byte < old(bm)@.len(),
        bit < 8,
    ensures
        final(bm)@.len() == old(bm)@.len(),
        !entry_used(final(bm)@, byte * 8 + bit),
        forall|n: int| 0 <= n < old(bm)@.len() * 8 && n != byte * 8 + bit ==> #[trigger] entry_used(final(bm)@, n) == entry_used(old(bm)@, n),
{
    let x = bm[byte];
    bm.set(byte, x & !(1u8 << bit));
    proof {
        assert((byte * 8 + bit) / 8 == byte && (byte * 8 + bit) % 8 == bit);
        lemma_bit_ops(x, bit, bit);
        assert forall|n: int| 0 <= n < old(bm)@.len() * 8 && n != byte * 8 + bit implies #[trigger] entry_used(bm@, n)
            == entry_used(old(bm)@, n) by {
            if n / 8 == byte {
                lemma_bit_ops(x, bit, (n % 8) as u32);
            }
        }
    }
}

/// Whether entry `8 * byte + bit` is in use.
pub fn test_bit(bm: &[u8], byte: usize, bit: u32) -> (b: bool)
    requires
        byte < bm@.len(),
        bit < 8,
    ensures
        b == entry_used(bm@, byte * 8 + bit),
{
    proof {
        assert((byte * 8 + bit) / 8 == byte && (byte * 8 + bit) % 8 == bit);
    }
    bm[byte] & (1u8 << bit) != 0
}

/// Taking the first free entry and giving it back leaves the bitmap's
/// entries as they were.
pub proof fn lemma_alloc_free_restores(a: Seq<u8>, b: Seq<u8>, c: Seq<u8>, n: int)
    requires
        is_first_free(a, n),
        b.len() == a.len(),
        c.len() == a.len(),
        entry_used(b, n),
        forall|m: int| 0 <= m < a.len() * 8 && m != n ==> #[trigger] entry_used(b, m) == entry_used(a, m),
        !entry_used(c, n),
        forall|m: int| 0 <= m < a.len() * 8 && m != n ==> #[trigger] entry_used(c, m) == entry_used(b, m),
    ensures
        forall|m: int| 0 <= m < a.len() * 8 ==> #[trigger] entry_used(c, m) == entry_used(a, m),
{
    assert forall|m: int| 0 <= m < a.len() * 8 implies #[trigger] entry_used(c, m) == entry_used(a, m) by {
        if m != n {
            assert(entry_used(c, m) == entry_used(b, m));
        }
    }
}

} // verus!
