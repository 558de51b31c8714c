//! Unsigned base-128 integers.
//!
//! An integer is written as up to ten groups of seven bits, least significant
//! group first, one group per byte. The top bit of a byte says that another
//! group follows.
use vstd::prelude::*;
use vstd::arithmetic::power2::{lemma2_to64, lemma2_to64_rest, lemma_pow2_adds, pow2};
use vstd::bits::lemma_u64_shl_is_mul;
use crate::source::ByteSource;
use crate::util::ReaderError;

verus! {

/// The most groups that an integer may take.
pub const MAX_GROUPS: usize = 10;

/// How many bytes at the front of `input` ask for another group.
pub open spec fn leading_continued(input: Seq<u8>) -> nat
    decreases input.len(),
{
    if input.len() > 0 && input[0] >= 0x80 {
        1 + leading_continued(input.skip(1))
    } else {
        0
    }
}

/// The number that the low seven bits of `groups` spell, the first group
/// being the least significant.
pub open spec fn groups_value(groups: Seq<u8>) -> nat
    decreases groups.len(),
{
    if groups.len() == 0 {
        0
    } else {
        groups_value(groups.drop_last()) + (groups.last() % 128) as nat * pow2(
            (7 * (groups.len() - 1)) as nat,
        )
    }
}

/// What stands at the front of a byte string that is read as an integer.
pub ghost enum Varint {
    /// The first `len` bytes spell `value`; what does not fit into 64 bits is
    /// dropped.
    Value { value: u64, len: nat },
    /// Every byte asks for another group, and there are fewer than ten.
    Cut,
    /// The tenth group still asks for another.
    Overlong,
}

/// Reads the front of `input` as an integer.
pub open spec fn parse_varint(input: Seq<u8>) -> Varint {
    let n = leading_continued(input);
    if n >= MAX_GROUPS {
        Varint::Overlong
    } else if n >= input.len() {
        Varint::Cut
    } else {
        Varint::Value {
            value: (groups_value(input.take((n + 1) as int)) % 0x1_0000_0000_0000_0000) as u64,
            len: n + 1,
        }
    }
}

/// The continued bytes at the front are continued, and the byte behind them,
/// if there is one, is not.
proof fn lemma_leading_continued_prefix(input: Seq<u8>)
    ensures
        leading_continued(input) <= input.len(),
        forall|i: int| 0 <= i < leading_continued(input) ==> input[i] >= 0x80,
        leading_continued(input) < input.len() ==> input[leading_continued(input) as int] < 0x80,
    decreases input.len(),
{
    if input.len() > 0 && input[0] >= 0x80 {
        lemma_leading_continued_prefix(input.skip(1));
        assert forall|i: int| 0 <= i < leading_continued(input) implies input[i] >= 0x80 by {
            if i > 0 {
                assert(input[i] == input.skip(1)[i - 1]);
            }
        }
    }
}

/// Counting the continued bytes may start behind `k` bytes that are known to
/// be continued.
proof fn lemma_leading_continued_split(input: Seq<u8>, k: nat)
    requires
        k <= input.len(),
        forall|i: int| 0 <= i < k ==> input[i] >= 0x80,
    ensures
        leading_continued(input) == k + leading_continued(input.skip(k as int)),
    decreases k,
{
    if k == 0 {
        assert(input.skip(0) == input);
    } else {
        lemma_leading_continued_split(input.skip(1), (k - 1) as nat);
        assert(input.skip(1).skip(k - 1) == input.skip(k as int));
    }
}

/// An integer is malformed exactly when each of its first ten bytes asks for
/// another group, however many bytes follow; and no integer is read from more
/// than ten bytes.
pub proof fn lemma_overlong(input: Seq<u8>)
    ensures
        parse_varint(input) is Overlong <==> input.len() >= MAX_GROUPS && forall|i: int|
            0 <= i < MAX_GROUPS ==> input[i] >= 0x80,
        parse_varint(input) matches Varint::Value { len, .. } ==> 1 <= len <= MAX_GROUPS && len
            <= input.len(),
{
    lemma_leading_continued_prefix(input);
    if input.len() >= MAX_GROUPS && forall|i: int| 0 <= i < MAX_GROUPS ==> input[i] >= 0x80 {
        lemma_leading_continued_split(input, MAX_GROUPS as nat);
    }
}

/// The number that groups spell takes no more than seven bits per group.
pub proof fn lemma_groups_value_bound(groups: Seq<u8>)
    ensures
        groups_value(groups) < pow2((7 * groups.len()) as nat),
    decreases groups.len(),
{
    if groups.len() == 0 {
        lemma2_to64();
    } else {
        let k = (groups.len() - 1) as nat;
        lemma_groups_value_bound(groups.drop_last());
        lemma_pow2_adds(7 * k, 7);
        lemma2_to64();
        let low = groups.last() % 128;
        let weight = pow2(7 * k);
        assert(low * weight <= 127 * weight) by (nonlinear_arith)
            requires
                low <= 127,
        ;
    }
}

/// One more group on top of `value`: in a 64-bit accumulator, or-ing the
/// shifted group in adds it, and bits beyond the 64th are dropped.
proof fn lemma_push_group(groups: Seq<u8>, value: u64, byte: u8)
    requires
        groups.len() < MAX_GROUPS,
        value == groups_value(groups),
    ensures
        (value | (((byte & 0x7f) as u64) << ((7 * groups.len()) as u64))) == groups_value(
            groups.push(byte),
        ) % 0x1_0000_0000_0000_0000,
        groups.len() + 1 < MAX_GROUPS ==> groups_value(groups.push(byte))
            < 0x8000_0000_0000_0000,
{
    let k = groups.len();
    let shift = (7 * k) as u64;
    let low = (byte & 0x7f) as u64;
    let more = groups.push(byte);
    assert(low == byte % 128) by (bit_vector)
        requires
            low == (byte & 0x7f) as u64,
    ;
    assert(more.drop_last() == groups);
    lemma_groups_value_bound(groups);
    lemma_groups_value_bound(more);
    lemma2_to64_rest();
    lemma_pow2_adds(shift as nat, (63 - shift) as nat);
    let weight = pow2(shift as nat);
    if k + 1 < MAX_GROUPS {
        lemma_pow2_adds((7 * (k + 1)) as nat, (63 - 7 * (k + 1)) as nat);
        assert(groups_value(more) < 0x8000_0000_0000_0000) by (nonlinear_arith)
            requires
                groups_value(more) < pow2((7 * (k + 1)) as nat),
                pow2((7 * (k + 1)) as nat) * pow2((63 - 7 * (k + 1)) as nat)
                    == 0x8000_0000_0000_0000,
                pow2((63 - 7 * (k + 1)) as nat) >= 1,
        ;
        lemma_u64_shl_is_mul(low, shift);
        assert(weight <= u64::MAX) by (nonlinear_arith)
            requires
                weight * pow2((63 - shift) as nat) == 0x8000_0000_0000_0000,
                pow2((63 - shift) as nat) >= 1,
        ;
        lemma_u64_shl_is_mul(1, shift);
        let shifted = low << shift;
        assert(value | shifted == value + shifted) by (bit_vector)
            requires
                shift <= 56,
                low < 128,
                value < (1u64 << shift),
                shifted == low << shift,
        ;
    } else {
        assert((value | (low << 63)) == (value + low * 0x8000_0000_0000_0000)
            % 0x1_0000_0000_0000_0000) by (bit_vector)
            requires
                value < 0x8000_0000_0000_0000,
                low < 128,
        ;
    }
}

/// Reads one integer from `src`. At the end of the input before the first
/// byte this is `None`, or the failure of the source. An integer that the end
/// of the input cuts short is an error, and so is one whose tenth byte asks
/// for an eleventh, which is not read.
pub fn decode_unsigned(src: &mut ByteSource) -> (r: Result<Option<u64>, ReaderError>)
    ensures
        old(src)@.len() == 0 ==> final(src)@ == old(src)@ && r == match old(src)@.close() {
            None => Ok::<Option<u64>, ReaderError>(None),
            Some(e) => Err(e),
        },
        old(src)@.len() > 0 ==> match parse_varint(old(src)@.bytes) {
            Varint::Value { value, len } => r == Ok::<Option<u64>, ReaderError>(Some(value))
                && final(src)@ == old(src)@.skip(len as int),
            Varint::Cut => r == Err::<Option<u64>, ReaderError>(old(src)@.cut_short())
                && final(src)@ == old(src)@.skip(old(src)@.len() as int),
            Varint::Overlong => r == Err::<Option<u64>, ReaderError>(
                ReaderError::MalformedVarint,
            ) && final(src)@ == old(src)@.skip(MAX_GROUPS as int),
        },
    no_unwind
{
    let ghost input = src@;
    let mut byte = match src.read() {
        Err(e) => {
            return Err(e);
        },
        Ok(None) => {
            return Ok(None);
        },
        Ok(Some(first)) => first,
    };
    let mut value: u64 = 0;
    let mut index: usize = 0;
    loop
        invariant
            input == old(src)@,
            index < MAX_GROUPS,
            index < input.len(),
            byte == input.bytes[index as int],
            src@ == input.skip(index + 1),
            forall|i: int| 0 <= i < index ==> input.bytes[i] >= 0x80,
            value == groups_value(input.bytes.take(index as int)),
        decreases MAX_GROUPS - index,
    {
        proof {
            lemma_push_group(input.bytes.take(index as int), value, byte);
            assert(input.bytes.take(index as int).push(byte) == input.bytes.take(index + 1));
            assert(byte & 0x80 == 0 <==> byte < 0x80) by (bit_vector);
            lemma_leading_continued_split(input.bytes, index as nat);
        }
        value = value | (((byte & 0x7f) as u64) << (7 * index as u64));
        if byte & 0x80 == 0 {
            return Ok(Some(value));
        }
        proof {
            lemma_leading_continued_split(input.bytes, (index + 1) as nat);
        }
        if index + 1 == MAX_GROUPS {
            return Err(ReaderError::MalformedVarint);
        }
        index = index + 1;
        byte = match src.read_promised() {
            Err(e) => {
                return Err(e);
            },
            Ok(next) => next,
        };
    }
}

} // verus!
