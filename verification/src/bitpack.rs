//! Bytes read as one row of bits, most significant bit first, and the
//! fixed-width unsigned numbers packed into such a row without padding.
use vstd::prelude::*;
use vstd::arithmetic::power2::{
    lemma2_to64, lemma2_to64_rest, lemma_pow2_strictly_increases, lemma_pow2_unfold, pow2,
};

verus! {

/// Bit `i` of `byte`, where bit 0 is the most significant and bit 7 the least.
pub open spec fn bit_of(byte: u8, i: int) -> bool {
    (byte >> ((7 - i) as u8)) & 1 == 1
}

/// Bit `k` of `bytes` read as one row of bits.
pub open spec fn bit_at(bytes: Seq<u8>, k: int) -> bool {
    bit_of(bytes[k / 8], k % 8)
}

/// The number that the `width` bits of `bytes` from bit `start` on spell,
/// the first of them being the most significant.
pub open spec fn packed_value(bytes: Seq<u8>, start: int, width: nat) -> nat
    decreases width,
{
    if width == 0 {
        0
    } else {
        2 * packed_value(bytes, start, (width - 1) as nat) + if bit_at(bytes, start + width - 1) {
            1nat
        } else {
            0nat
        }
    }
}

/// `count` numbers of `width` bits each, packed back to back from the first
/// bit of `packed` on.
pub open spec fn unpacked(packed: Seq<u8>, width: nat, count: nat) -> Seq<u64> {
    Seq::new(count, |i: int| packed_value(packed, i * width, width) as u64)
}

/// The least number of whole bytes that hold `num_bits` bits.
pub open spec fn min_bytes(num_bits: nat) -> nat {
    (num_bits + 7) / 8
}

/// A number of `width` bits is below two to the `width`.
pub proof fn lemma_packed_value_bound(bytes: Seq<u8>, start: int, width: nat)
    ensures
        packed_value(bytes, start, width) < pow2(width),
    decreases width,
{
    if width == 0 {
        lemma2_to64();
    } else {
        lemma_packed_value_bound(bytes, start, (width - 1) as nat);
        lemma_pow2_unfold(width);
    }
}

/// The least number of whole bytes that hold `num_bits` bits.
pub fn bits_to_min_bytes(num_bits: usize) -> (n: usize)
    ensures
        n == min_bytes(num_bits as nat),
{
    if num_bits % 8 == 0 {
        num_bits / 8
    } else {
        num_bits / 8 + 1
    }
}

/// Reads the `width` bits of `packed` from bit `start` on as one number.
pub fn read_bits(packed: &Vec<u8>, start: usize, width: u8) -> (value: u64)
    requires
        width <= 64,
        start + width <= 8 * packed.len() <= usize::MAX,
    ensures
        value == packed_value(packed@, start as int, width as nat),
{
    let mut value: u64 = 0;
    let mut taken: u8 = 0;
    while taken < width
        invariant
            taken <= width <= 64,
            start + width <= 8 * packed.len() <= usize::MAX,
            value == packed_value(packed@, start as int, taken as nat),
        decreases width - taken,
    {
        let at: usize = start + taken as usize;
        let byte: u8 = packed[at / 8];
        let shift: u8 = 7 - (at % 8) as u8;
        let bit: u8 = (byte >> shift) & 1;
        proof {
            lemma_packed_value_bound(packed@, start as int, taken as nat);
            if taken < 63 {
                lemma_pow2_strictly_increases(taken as nat, 63);
            }
            lemma2_to64_rest();
            assert(bit == 0 || bit == 1) by (bit_vector)
                requires
                    bit == (byte >> shift) & 1,
            ;
            let wide = bit as u64;
            assert((value << 1) | wide == 2 * value + wide) by (bit_vector)
                requires
                    value < 0x8000_0000_0000_0000,
                    wide == 0 || wide == 1,
            ;
        }
        value = (value << 1) | (bit as u64);
        taken = taken + 1;
    }
    value
}

/// Unpacks `count` numbers of `width` bits each from the front of `packed`.
pub fn unpack(packed: &Vec<u8>, width: u8, count: usize) -> (values: Vec<u64>)
    requires
        width <= 64,
        width * count <= 8 * packed.len() <= usize::MAX,
    ensures
        values@ == unpacked(packed@, width as nat, count as nat),
{
    let mut values: Vec<u64> = Vec::new();
    let mut done: usize = 0;
    let mut start: usize = 0;
    while done < count
        invariant
            done <= count,
            width <= 64,
            width * count <= 8 * packed.len() <= usize::MAX,
            start == width * done,
            values@ == unpacked(packed@, width as nat, done as nat),
        decreases count - done,
    {
        proof {
            assert(width * (done + 1) <= width * count) by (nonlinear_arith)
                requires
                    done + 1 <= count,
            ;
            assert(width * (done + 1) == width * done + width) by (nonlinear_arith);
        }
        let value = read_bits(packed, start, width);
        assert(done * width == width * done) by (nonlinear_arith);
        values.push(value);
        start = start + width as usize;
        done = done + 1;
    }
    values
}

} // verus!
