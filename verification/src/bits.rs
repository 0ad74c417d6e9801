//! Bit-level reading of a byte sequence, most significant bit first.

use vstd::arithmetic::power2::{lemma2_to64, lemma_pow2_unfold, pow2};
use vstd::prelude::*;

verus! {

/// The bit at position `i` of `data`. Position 0 is the most significant bit
/// of the first byte, position 7 its least significant bit, position 8 the
/// most significant bit of the second byte.
#[verifier::opaque]
pub open spec fn bit_at(data: Seq<u8>, i: int) -> bool {
    (data[i / 8] as nat / pow2((7 - i % 8) as nat)) % 2 == 1
}

/// The unsigned number written by the `n` bits of `data` that start at
/// position `start`, the first of them being the most significant.
pub open spec fn bits_value(data: Seq<u8>, start: int, n: nat) -> nat
    decreases n,
{
    if n == 0 {
        0
    } else {
        2 * bits_value(data, start, (n - 1) as nat) + if bit_at(data, start + n - 1) {
            1nat
        } else {
            0nat
        }
    }
}

/// Whether `data` holds the bits `bits` from position `start` on.
pub open spec fn holds_bits(data: Seq<u8>, start: int, bits: Seq<bool>) -> bool {
    &&& 0 <= start
    &&& start + bits.len() <= 8 * data.len()
    &&& forall|i: int| 0 <= i < bits.len() ==> bit_at(data, start + i) == #[trigger] bits[i]
}

/// The `width` binary digits of `value`, most significant first. Digits above
/// the width are left out.
pub open spec fn number_bits(value: nat, width: nat) -> Seq<bool>
    decreases width,
{
    if width == 0 {
        Seq::empty()
    } else {
        number_bits(value / 2, (width - 1) as nat).push(value % 2 == 1)
    }
}

/// The byte written by the eight bits of `bits` that start at `at`, the
/// first of them being the most significant.
pub open spec fn byte_of(bits: Seq<bool>, at: int) -> u8 {
    (128 * digit(bits[at]) + 64 * digit(bits[at + 1]) + 32 * digit(bits[at + 2]) + 16 * digit(
        bits[at + 3],
    ) + 8 * digit(bits[at + 4]) + 4 * digit(bits[at + 5]) + 2 * digit(bits[at + 6]) + digit(
        bits[at + 7],
    )) as u8
}

/// A bit as a number.
pub open spec fn digit(bit: bool) -> nat {
    if bit {
        1
    } else {
        0
    }
}

/// The bytes written by a run of bits that fills whole bytes.
pub open spec fn pack(bits: Seq<bool>) -> Seq<u8> {
    Seq::new(bits.len() / 8, |k: int| byte_of(bits, 8 * k))
}

/// A field of `n` bits holds a number below two to the `n`.
pub proof fn lemma_bits_value_bound(data: Seq<u8>, start: int, n: nat)
    ensures
        bits_value(data, start, n) < pow2(n),
    decreases n,
{
    if n == 0 {
        lemma2_to64();
    } else {
        lemma_bits_value_bound(data, start, (n - 1) as nat);
        lemma_pow2_unfold(n);
    }
}

/// A field of one bit holds 1 where the bit is set and 0 where it is clear.
pub proof fn lemma_bits_value_single(data: Seq<u8>, i: int)
    ensures
        bits_value(data, i, 1) == if bit_at(data, i) {
            1nat
        } else {
            0nat
        },
{
    reveal_with_fuel(bits_value, 2);
}

/// A field holds zero exactly when all its bits are clear.
pub proof fn lemma_bits_value_zero(data: Seq<u8>, start: int, n: nat)
    ensures
        bits_value(data, start, n) == 0 <==> forall|i: int|
            start <= i < start + n ==> !#[trigger] bit_at(data, i),
    decreases n,
{
    if n > 0 {
        lemma_bits_value_zero(data, start, (n - 1) as nat);
        if bits_value(data, start, n) == 0 {
            assert forall|i: int| start <= i < start + n implies !#[trigger] bit_at(data, i) by {
                if i < start + n - 1 {
                }
            }
        }
    }
}

/// Two byte sequences that agree on the bits of a field hold the same number
/// in it.
pub proof fn lemma_bits_value_agree(a: Seq<u8>, b: Seq<u8>, start: int, n: nat)
    requires
        forall|i: int| start <= i < start + n ==> #[trigger] bit_at(a, i) == bit_at(b, i),
    ensures
        bits_value(a, start, n) == bits_value(b, start, n),
    decreases n,
{
    if n > 0 {
        lemma_bits_value_agree(a, b, start, (n - 1) as nat);
    }
}

/// A field of `n` bits is its first `k` bits, shifted up, plus the `n - k`
/// bits after them.
pub proof fn lemma_bits_value_split(data: Seq<u8>, start: int, k: nat, n: nat)
    requires
        k <= n,
    ensures
        bits_value(data, start, n) == bits_value(data, start, k) * pow2((n - k) as nat)
            + bits_value(data, start + k, (n - k) as nat),
    decreases n,
{
    let hi = bits_value(data, start, k);
    if n == k {
        lemma2_to64();
        assert(bits_value(data, start + k, 0) == 0);
        assert(hi * 1 == hi);
    } else {
        let m = (n - 1) as nat;
        lemma_bits_value_split(data, start, k, m);
        lemma_pow2_unfold((n - k) as nat);
        let p = pow2((m - k) as nat);
        let lo = bits_value(data, start + k, (m - k) as nat);
        let last: nat = if bit_at(data, start + n - 1) {
            1
        } else {
            0
        };
        assert(bits_value(data, start, n) == 2 * (hi * p + lo) + last);
        assert(bits_value(data, start + k, (n - k) as nat) == 2 * lo + last) by {
            assert(((n - k) as nat - 1) as nat == (m - k) as nat);
            assert(start + k + (n - k) as nat - 1 == start + n - 1);
        }
        assert(pow2((n - k) as nat) == 2 * p);
        assert(2 * (hi * p) == hi * (2 * p)) by (nonlinear_arith);
    }
}

/// Dropping the first two bits of a ten-bit word leaves the number written by
/// its last eight bits.
pub proof fn lemma_low_byte_of_word(data: Seq<u8>, start: int)
    ensures
        bits_value(data, start, 10) % 256 == bits_value(data, start + 2, 8),
{
    lemma_bits_value_split(data, start, 2, 10);
    lemma_bits_value_bound(data, start + 2, 8);
    lemma2_to64();
    let hi = bits_value(data, start, 2);
    let lo = bits_value(data, start + 2, 8);
    assert((hi * 256 + lo) % 256 == lo) by (nonlinear_arith)
        requires
            lo < 256,
    ;
}

/// The first bytes of a sequence hold the same bits as the sequence does.
pub proof fn lemma_bit_at_take(data: Seq<u8>, m: int, i: int)
    requires
        0 <= m <= data.len(),
        0 <= i < 8 * m,
    ensures
        bit_at(data.take(m), i) == bit_at(data, i),
{
    reveal(bit_at);
}

/// A field whose bits are cut off by neither of two prefixes of a sequence
/// holds the same number in both.
pub proof fn lemma_bits_value_take(data: Seq<u8>, m: int, start: int, n: nat)
    requires
        0 <= m <= data.len(),
        0 <= start,
        start + n <= 8 * m,
    ensures
        bits_value(data.take(m), start, n) == bits_value(data, start, n),
{
    assert forall|i: int| start <= i < start + n implies #[trigger] bit_at(data.take(m), i)
        == bit_at(data, i) by {
        lemma_bit_at_take(data, m, i);
    }
    lemma_bits_value_agree(data.take(m), data, start, n);
}

/// The digits of a number have the width they were written with.
pub proof fn lemma_number_bits_len(value: nat, width: nat)
    ensures
        number_bits(value, width).len() == width,
    decreases width,
{
    if width > 0 {
        lemma_number_bits_len(value / 2, (width - 1) as nat);
    }
}

/// A field that holds the digits of a number that fits its width holds that
/// number.
pub proof fn lemma_bits_value_of_number(data: Seq<u8>, start: int, value: nat, width: nat)
    requires
        value < pow2(width),
        holds_bits(data, start, number_bits(value, width)),
    ensures
        bits_value(data, start, width) == value,
    decreases width,
{
    lemma_number_bits_len(value, width);
    if width == 0 {
        lemma2_to64();
    } else {
        let w = (width - 1) as nat;
        let front = number_bits(value / 2, w);
        lemma_number_bits_len(value / 2, w);
        lemma_pow2_unfold(width);
        assert(number_bits(value, width) == front.push(value % 2 == 1));
        assert forall|i: int| 0 <= i < front.len() implies bit_at(data, start + i)
            == #[trigger] front[i] by {
            assert(number_bits(value, width)[i] == front[i]);
        }
        lemma_bits_value_of_number(data, start, value / 2, w);
        assert(number_bits(value, width)[w as int] == (value % 2 == 1));
    }
}

/// Where a sequence holds two runs of bits joined together, it holds the
/// first where the whole starts and the second right after it.
pub proof fn lemma_holds_bits_joined(data: Seq<u8>, start: int, a: Seq<bool>, b: Seq<bool>)
    requires
        holds_bits(data, start, a + b),
    ensures
        holds_bits(data, start, a),
        holds_bits(data, start + a.len(), b),
{
    assert forall|i: int| 0 <= i < a.len() implies bit_at(data, start + i) == #[trigger] a[i] by {
        assert((a + b)[i] == a[i]);
    }
    assert forall|i: int| 0 <= i < b.len() implies bit_at(data, start + a.len() + i)
        == #[trigger] b[i] by {
        assert((a + b)[a.len() + i] == b[i]);
    }
}

/// Packed bits are held by the bytes they were packed into.
pub proof fn lemma_pack_holds(bits: Seq<bool>)
    requires
        bits.len() % 8 == 0,
    ensures
        pack(bits).len() * 8 == bits.len(),
        holds_bits(pack(bits), 0, bits),
{
    let data = pack(bits);
    assert forall|i: int| 0 <= i < bits.len() implies bit_at(data, 0 + i) == #[trigger] bits[i] by {
        let k = i / 8;
        let byte = byte_of(bits, 8 * k);
        assert(data[k] == byte);
        reveal(bit_at);
        lemma2_to64();
        if i % 8 == 0 {
            assert((byte as nat / 128) % 2 == digit(bits[i]));
        } else if i % 8 == 1 {
            assert((byte as nat / 64) % 2 == digit(bits[i]));
        } else if i % 8 == 2 {
            assert((byte as nat / 32) % 2 == digit(bits[i]));
        } else if i % 8 == 3 {
            assert((byte as nat / 16) % 2 == digit(bits[i]));
        } else if i % 8 == 4 {
            assert((byte as nat / 8) % 2 == digit(bits[i]));
        } else if i % 8 == 5 {
            assert((byte as nat / 4) % 2 == digit(bits[i]));
        } else if i % 8 == 6 {
            assert((byte as nat / 2) % 2 == digit(bits[i]));
        } else {
            assert((byte as nat / 1) % 2 == digit(bits[i]));
        }
    }
}

} // verus!
