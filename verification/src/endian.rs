//! Little-endian byte order.
use vstd::arithmetic::power2::{lemma2_to64, lemma_pow2_adds, lemma_pow2_pos, pow2};
use vstd::prelude::*;

verus! {

/// The weight of byte `i` of a little-endian number.
pub open spec fn weight(i: int) -> nat {
    pow2((8 * i) as nat)
}

/// The number that `bytes` stand for, least significant byte first.
pub open spec fn le_value(bytes: Seq<u8>) -> nat
    decreases bytes.len(),
{
    if bytes.len() == 0 {
        0
    } else {
        le_value(bytes.drop_last()) + bytes.last() as nat * weight(bytes.len() - 1)
    }
}

/// The `width` low bytes of `value`, least significant byte first.
pub open spec fn le_bytes(value: nat, width: nat) -> Seq<u8> {
    Seq::new(width, |i: int| (value / weight(i) % 256) as u8)
}

/// Each byte weighs 256 times as much as the one before it.
pub proof fn lemma_weight_step(i: int)
    requires
        0 <= i,
    ensures
        weight(i) > 0,
        weight(i + 1) == 256 * weight(i),
{
    lemma2_to64();
    lemma_pow2_pos((8 * i) as nat);
    lemma_pow2_adds((8 * i) as nat, 8);
}

/// The byte weights that fit a doubleword.
pub proof fn lemma_weights()
    ensures
        weight(0) == 0x1,
        weight(1) == 0x100,
        weight(2) == 0x1_0000,
        weight(3) == 0x100_0000,
        weight(4) == 0x1_0000_0000,
        weight(5) == 0x100_0000_0000,
        weight(6) == 0x1_0000_0000_0000,
        weight(7) == 0x100_0000_0000_0000,
        weight(8) == 0x1_0000_0000_0000_0000,
{
    lemma2_to64();
    lemma_weight_step(0);
    lemma_weight_step(1);
    lemma_weight_step(2);
    lemma_weight_step(3);
    lemma_weight_step(4);
    lemma_weight_step(5);
    lemma_weight_step(6);
    lemma_weight_step(7);
}

/// A number of `n` bytes is smaller than the weight of the byte after them.
pub proof fn lemma_le_value_bound(bytes: Seq<u8>)
    ensures
        le_value(bytes) < weight(bytes.len() as int),
    decreases bytes.len(),
{
    lemma_weights();
    if bytes.len() > 0 {
        let n = bytes.len() - 1;
        let b = bytes.last();
        lemma_le_value_bound(bytes.drop_last());
        lemma_weight_step(n);
        let w = weight(n);
        assert(b as nat * w <= 255 * w) by (nonlinear_arith)
            requires
                b <= 255,
        ;
    }
}

/// A number written out in bytes and read back is the number, cut to that many
/// bytes.
pub proof fn lemma_value_of_bytes(value: nat, width: nat)
    ensures
        le_value(le_bytes(value, width)) == value % weight(width as int),
    decreases width,
{
    lemma_weights();
    if width > 0 {
        let n = (width - 1) as nat;
        let w = weight(n as int);
        lemma_value_of_bytes(value, n);
        lemma_weight_step(n as int);
        assert(le_bytes(value, width).drop_last() =~= le_bytes(value, n));
        assert(value % (256 * w) == value % w + (value / w % 256) * w) by (nonlinear_arith)
            requires
                w > 0,
        {
            vstd::arithmetic::div_mod::lemma_mod_breakdown(value as int, w as int, 256);
            assert(w * 256 == 256 * w);
            assert(w * (value / w % 256) == (value / w % 256) * w);
        }
    } else {
        assert(value % 1 == 0);
    }
}

/// Bytes read as a number and written out again are the same bytes.
pub proof fn lemma_bytes_of_value(bytes: Seq<u8>)
    ensures
        le_bytes(le_value(bytes), bytes.len()) == bytes,
    decreases bytes.len(),
{
    if bytes.len() > 0 {
        let n = bytes.len() - 1;
        let low = bytes.drop_last();
        let w = weight(n);
        let b = bytes.last() as nat;
        let v = le_value(bytes);
        let lv = le_value(low);
        lemma_bytes_of_value(low);
        lemma_le_value_bound(low);
        lemma_weight_step(n);
        assert forall|i: int| 0 <= i < bytes.len() implies #[trigger] le_bytes(
            v,
            bytes.len(),
        )[i] == bytes[i] by {
            if i == n {
                assert(v / w == b) by (nonlinear_arith)
                    requires
                        v == lv + b * w,
                        lv < w,
                {
                    vstd::arithmetic::div_mod::lemma_fundamental_div_mod_converse(
                        v as int,
                        w as int,
                        b as int,
                        lv as int,
                    );
                }
            } else {
                lemma_weight_split(i, n);
                let wi = weight(i);
                let wr = weight(n - i - 1);
                assert((lv + b * w) / wi % 256 == lv / wi % 256) by (nonlinear_arith)
                    requires
                        w == wr * 256 * wi,
                        wi > 0,
                {
                    let k = b * wr * 256;
                    assert(b * w == k * wi);
                    vstd::arithmetic::div_mod::lemma_hoist_over_denominator(
                        lv as int,
                        k as int,
                        wi,
                    );
                    assert((lv + k * wi) / wi == lv / wi + k);
                    assert(k == 256 * (b * wr));
                    vstd::arithmetic::div_mod::lemma_mod_multiples_vanish(
                        (b * wr) as int,
                        (lv / wi) as int,
                        256,
                    );
                }
                assert(le_bytes(lv, low.len())[i] == low[i]);
            }
        }
        assert(le_bytes(v, bytes.len()) =~= bytes);
    } else {
        assert(le_bytes(le_value(bytes), 0) =~= bytes);
    }
}

/// The low bytes of a number do not depend on what lies above them.
pub proof fn lemma_bytes_of_low_part(value: nat, width: nat)
    ensures
        le_bytes(value % weight(width as int), width) == le_bytes(value, width),
{
    lemma_value_of_bytes(value, width);
    lemma_bytes_of_value(le_bytes(value, width));
}

proof fn lemma_weight_split(i: int, n: int)
    requires
        0 <= i < n,
    ensures
        weight(n) == weight(n - i - 1) * 256 * weight(i),
        weight(i) > 0,
{
    lemma_weight_step(i);
    lemma_pow2_adds((8 * (n - i - 1)) as nat, (8 * (i + 1)) as nat);
    let a = weight(n - i - 1);
    let b = weight(i);
    assert(a * (256 * b) == a * 256 * b) by (nonlinear_arith);
}

/// Appending a byte adds its weighted value.
pub proof fn lemma_le_value_push(bytes: Seq<u8>, byte: u8)
    ensures
        le_value(bytes.push(byte)) == le_value(bytes) + byte as nat * weight(
            bytes.len() as int,
        ),
{
    assert(bytes.push(byte).drop_last() =~= bytes);
}

/// Puts `byte` above the bytes `low` that `data` already holds.
pub(crate) fn join_byte(data: u64, byte: u8, i: u64, Ghost(low): Ghost<Seq<u8>>) -> (joined: u64)
    requires
        i < 8,
        low.len() == i,
        data == le_value(low),
    ensures
        joined == le_value(low.push(byte)),
        joined < weight(i + 1),
{
    let b: u64 = byte as u64;
    let shift: u64 = i * 8;
    proof {
        lemma_le_value_bound(low);
        lemma_le_value_push(low, byte);
        lemma_le_value_bound(low.push(byte));
        lemma_weights();
        assert(b <= 255 ==> {
            &&& data < 0x1 ==> data | (b << 0u64) == data + b * 0x1
            &&& data < 0x100 ==> data | (b << 8u64) == data + b * 0x100
            &&& data < 0x1_0000 ==> data | (b << 16u64) == data + b * 0x1_0000
            &&& data < 0x100_0000 ==> data | (b << 24u64) == data + b * 0x100_0000
            &&& data < 0x1_0000_0000 ==> data | (b << 32u64) == data + b * 0x1_0000_0000
            &&& data < 0x100_0000_0000 ==> data | (b << 40u64) == data + b * 0x100_0000_0000
            &&& data < 0x1_0000_0000_0000 ==> data | (b << 48u64) == data + b * 0x1_0000_0000_0000
            &&& data < 0x100_0000_0000_0000 ==> data | (b << 56u64) == data + b * 0x100_0000_0000_0000
        }) by (bit_vector);
        if i == 0 {
            assert(shift == 0u64 && weight(i as int) == 0x1);
        } else if i == 1 {
            assert(shift == 8u64 && weight(i as int) == 0x100);
        } else if i == 2 {
            assert(shift == 16u64 && weight(i as int) == 0x1_0000);
        } else if i == 3 {
            assert(shift == 24u64 && weight(i as int) == 0x100_0000);
        } else if i == 4 {
            assert(shift == 32u64 && weight(i as int) == 0x1_0000_0000);
        } else if i == 5 {
            assert(shift == 40u64 && weight(i as int) == 0x100_0000_0000);
        } else if i == 6 {
            assert(shift == 48u64 && weight(i as int) == 0x1_0000_0000_0000);
        } else {
            assert(shift == 56u64 && weight(i as int) == 0x100_0000_0000_0000);
        }
    }
    data | (b << shift)
}

/// Byte `i` of `value`.
pub(crate) fn nth_byte(value: u64, i: u64) -> (byte: u8)
    requires
        i < 8,
    ensures
        byte == le_bytes(value as nat, 8)[i as int],
        byte == value as nat / weight(i as int) % 256,
{
    let shift: u64 = i * 8;
    proof {
        lemma_weights();
        assert({
            &&& (value >> 0u64) & 0xff == value / 0x1 % 256
            &&& (value >> 8u64) & 0xff == value / 0x100 % 256
            &&& (value >> 16u64) & 0xff == value / 0x1_0000 % 256
            &&& (value >> 24u64) & 0xff == value / 0x100_0000 % 256
            &&& (value >> 32u64) & 0xff == value / 0x1_0000_0000 % 256
            &&& (value >> 40u64) & 0xff == value / 0x100_0000_0000 % 256
            &&& (value >> 48u64) & 0xff == value / 0x1_0000_0000_0000 % 256
            &&& (value >> 56u64) & 0xff == value / 0x100_0000_0000_0000 % 256
        }) by (bit_vector);
        if i == 0 {
            assert(shift == 0u64 && weight(i as int) == 0x1);
        } else if i == 1 {
            assert(shift == 8u64 && weight(i as int) == 0x100);
        } else if i == 2 {
            assert(shift == 16u64 && weight(i as int) == 0x1_0000);
        } else if i == 3 {
            assert(shift == 24u64 && weight(i as int) == 0x100_0000);
        } else if i == 4 {
            assert(shift == 32u64 && weight(i as int) == 0x1_0000_0000);
        } else if i == 5 {
            assert(shift == 40u64 && weight(i as int) == 0x100_0000_0000);
        } else if i == 6 {
            assert(shift == 48u64 && weight(i as int) == 0x1_0000_0000_0000);
        } else {
            assert(shift == 56u64 && weight(i as int) == 0x100_0000_0000_0000);
        }
    }
    ((value >> shift) & 0xff) as u8
}

} // verus!
