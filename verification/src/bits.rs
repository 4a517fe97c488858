//! Bytes as rows of eight bits.

use vstd::arithmetic::power2::{lemma2_to64, pow2};
use vstd::prelude::*;

verus! {

/// Bit `n` of a byte, bit 0 being the lowest. There is no bit outside `0..8`.
pub open spec fn bit(value: u8, n: int) -> bool {
    0 <= n < 8 && (value as nat / pow2(n as nat)) % 2 == 1
}

/// The eight bits of a byte, lowest first.
pub open spec fn bits_of(value: u8) -> Seq<bool> {
    Seq::new(8, |n: int| bit(value, n))
}

/// The eight bits of a byte, each as a quotient's remainder.
pub proof fn lemma_bits_by_division(value: u8)
    ensures
        bit(value, 0) == (value % 2 == 1),
        bit(value, 1) == ((value / 2) % 2 == 1),
        bit(value, 2) == ((value / 4) % 2 == 1),
        bit(value, 3) == ((value / 8) % 2 == 1),
        bit(value, 4) == ((value / 16) % 2 == 1),
        bit(value, 5) == ((value / 32) % 2 == 1),
        bit(value, 6) == ((value / 64) % 2 == 1),
        bit(value, 7) == ((value / 128) % 2 == 1),
{
    lemma2_to64();
    assert(pow2(0) == 1 && pow2(1) == 2 && pow2(2) == 4 && pow2(3) == 8);
    assert(pow2(4) == 16 && pow2(5) == 32 && pow2(6) == 64 && pow2(7) == 128);
    assert(value as nat / 1 == value);
}

/// Shifting a byte right by `n` and masking the lowest bit reads bit `n`.
pub proof fn lemma_shift_reads_bit(value: u8, n: u8)
    requires
        n < 8,
    ensures
        ((value >> n) & 1 == 1) == bit(value, n as int),
{
    lemma2_to64();
    assert(n == 0 ==> (((value >> n) & 1 == 1) == ((value / 1u8) % 2 == 1))) by (bit_vector);
    assert(n == 1 ==> (((value >> n) & 1 == 1) == ((value / 2u8) % 2 == 1))) by (bit_vector);
    assert(n == 2 ==> (((value >> n) & 1 == 1) == ((value / 4u8) % 2 == 1))) by (bit_vector);
    assert(n == 3 ==> (((value >> n) & 1 == 1) == ((value / 8u8) % 2 == 1))) by (bit_vector);
    assert(n == 4 ==> (((value >> n) & 1 == 1) == ((value / 16u8) % 2 == 1))) by (bit_vector);
    assert(n == 5 ==> (((value >> n) & 1 == 1) == ((value / 32u8) % 2 == 1))) by (bit_vector);
    assert(n == 6 ==> (((value >> n) & 1 == 1) == ((value / 64u8) % 2 == 1))) by (bit_vector);
    assert(n == 7 ==> (((value >> n) & 1 == 1) == ((value / 128u8) % 2 == 1))) by (bit_vector);
}

/// Two bytes with the same eight bits are the same byte.
pub proof fn lemma_bits_determine_byte(a: u8, b: u8)
    requires
        bits_of(a) == bits_of(b),
    ensures
        a == b,
{
    assert forall|n: u8| n < 8 implies ((a >> n) & 1 == 1) == ((b >> n) & 1 == 1) by {
        lemma_shift_reads_bit(a, n);
        lemma_shift_reads_bit(b, n);
        assert(bits_of(a)[n as int] == bit(a, n as int));
        assert(bits_of(b)[n as int] == bit(b, n as int));
    }
    assert(((a >> 0u8) & 1 == 1) == ((b >> 0u8) & 1 == 1));
    assert(((a >> 1u8) & 1 == 1) == ((b >> 1u8) & 1 == 1));
    assert(((a >> 2u8) & 1 == 1) == ((b >> 2u8) & 1 == 1));
    assert(((a >> 3u8) & 1 == 1) == ((b >> 3u8) & 1 == 1));
    assert(((a >> 4u8) & 1 == 1) == ((b >> 4u8) & 1 == 1));
    assert(((a >> 5u8) & 1 == 1) == ((b >> 5u8) & 1 == 1));
    assert(((a >> 6u8) & 1 == 1) == ((b >> 6u8) & 1 == 1));
    assert(((a >> 7u8) & 1 == 1) == ((b >> 7u8) & 1 == 1));
    assert(a == b) by (bit_vector)
        requires
            ((a >> 0u8) & 1 == 1) == ((b >> 0u8) & 1 == 1),
            ((a >> 1u8) & 1 == 1) == ((b >> 1u8) & 1 == 1),
            ((a >> 2u8) & 1 == 1) == ((b >> 2u8) & 1 == 1),
            ((a >> 3u8) & 1 == 1) == ((b >> 3u8) & 1 == 1),
            ((a >> 4u8) & 1 == 1) == ((b >> 4u8) & 1 == 1),
            ((a >> 5u8) & 1 == 1) == ((b >> 5u8) & 1 == 1),
            ((a >> 6u8) & 1 == 1) == ((b >> 6u8) & 1 == 1),
            ((a >> 7u8) & 1 == 1) == ((b >> 7u8) & 1 == 1),
    ;
}

/// Reads bit `n` of a byte.
pub fn test_bit(value: u8, n: u8) -> (set: bool)
    requires
        n < 8,
    ensures
        set == bit(value, n as int),
{
    proof {
        lemma_shift_reads_bit(value, n);
    }
    (value >> n) & 1 == 1
}

/// The eight bits of a byte as cells, lowest first.
pub fn unpack(value: u8) -> (cells: [bool; 8])
    ensures
        cells@ == bits_of(value),
{
    let mut cells = [false;8];
    for n in 0..8u8
        invariant
            forall|k: int| 0 <= k < n ==> cells@[k] == bit(value, k),
    {
        cells[n as usize] = test_bit(value, n);
    }
    assert(cells@ =~= bits_of(value));
    cells
}

/// The byte whose bits are the eight cells, lowest first.
pub fn pack(cells: &[bool; 8]) -> (value: u8)
    ensures
        bits_of(value) == cells@,
{
    let mut value: u8 = 0;
    proof {
        assert forall|k: u8| k < 8 implies !bit(value, k as int) by {
            lemma_shift_reads_bit(value, k);
            assert((0u8 >> k) & 1 == 0) by (bit_vector);
        }
    }
    for n in 0..8u8
        invariant
            forall|k: int| 0 <= k < n ==> bit(value, k) == cells@[k],
            forall|k: int| n <= k < 8 ==> !bit(value, k),
    {
        let level: u8 = if cells[n as usize] {
            1
        } else {
            0
        };
        let next: u8 = value | level << n;
        proof {
            assert forall|k: u8| k < 8 implies bit(next, k as int) == (if k == n {
                level == 1
            } else {
                bit(value, k as int)
            }) by {
                lemma_shift_reads_bit(value, k);
                lemma_shift_reads_bit(next, k);
                lemma_shift_reads_bit(value, n);
                assert(n < 8 && k < 8 && k != n && level <= 1 ==> (((value | level << n) >> k) & 1)
                    == ((value >> k) & 1)) by (bit_vector);
                assert(n < 8 && level <= 1 && (value >> n) & 1 != 1 ==> (((value | level << n)
                    >> n) & 1) == level) by (bit_vector);
            }
            assert forall|k: int| 0 <= k < n + 1 implies bit(next, k) == cells@[k] by {
                assert(bit(next, (k as u8) as int) == bit(next, k));
            }
            assert forall|k: int| n + 1 <= k < 8 implies !bit(next, k) by {
                assert(bit(next, (k as u8) as int) == bit(next, k));
            }
        }
        value = next;
    }
    assert(bits_of(value) =~= cells@);
    value
}

} // verus!
