use vstd::prelude::*;
use vstd::slice::slice_to_vec;

use crate::util::exception::Exception;

verus! {

// ---------------------------------------------------------------------------
// The model: a data unit is a sequence of bytes. Its bits are numbered from
// the most significant bit of byte 0 (bit 0) to the least significant bit of
// the last byte, and a bit field is read most significant bit first.
// ---------------------------------------------------------------------------

/// 2 to the power of `n`.
pub open spec fn two_pow(n: nat) -> nat
    decreases n,
{
    if n == 0 {
        1
    } else {
        2 * two_pow((n - 1) as nat)
    }
}

/// Bit `i` of the byte sequence `s` (0 or 1), bit 0 being the most
/// significant bit of byte 0.
pub open spec fn bit_at(s: Seq<u8>, i: int) -> u8 {
    (s[i / 8] >> ((7 - i % 8) as u8)) & 1u8
}

/// The unsigned value of the `len` bits of `s` that start at bit `pos`,
/// most significant bit first.
pub open spec fn bits_value(s: Seq<u8>, pos: int, len: nat) -> nat
    decreases len,
{
    if len == 0 {
        0
    } else {
        (2 * bits_value(s, pos, (len - 1) as nat) + bit_at(s, pos + len - 1)) as nat
    }
}

/// The mask of bit `i` inside its byte.
pub open spec fn bit_mask(i: int) -> u8 {
    1u8 << ((7 - i % 8) as u8)
}

/// `s` with bit `i` set to `b` (0 clears it, any other value sets it).
pub open spec fn set_bit(s: Seq<u8>, i: int, b: u8) -> Seq<u8> {
    s.update(
        i / 8,
        if b == 0 {
            s[i / 8] & !bit_mask(i)
        } else {
            s[i / 8] | bit_mask(i)
        },
    )
}

/// `s` with the `len` bits that start at bit `pos` replaced by the `len`
/// least significant bits of `v`, most significant bit first.
pub open spec fn with_bits(s: Seq<u8>, pos: int, len: nat, v: nat) -> Seq<u8>
    decreases len,
{
    if len == 0 {
        s
    } else {
        with_bits(set_bit(s, pos + len - 1, (v % 2) as u8), pos, (len - 1) as nat, v / 2)
    }
}

/// The bit field lies inside the buffer.
pub open spec fn field_fits(s: Seq<u8>, pos: int, len: nat) -> bool {
    0 <= pos && pos + len <= 8 * s.len()
}

/// What reading a bit field of a data unit gives.
pub open spec fn get_bits_result(s: Seq<u8>, pos: int, len: nat) -> Result<u32, Exception> {
    if len > 32 {
        Err(Exception::FieldTooWide)
    } else if !field_fits(s, pos, len) {
        Err(Exception::FieldOutOfBuffer)
    } else {
        Ok(bits_value(s, pos, len) as u32)
    }
}

/// The error that writing `value` into a bit field reports, if any.
pub open spec fn set_bits_error(s: Seq<u8>, pos: int, len: nat, value: nat) -> Option<Exception> {
    if len > 32 {
        Some(Exception::FieldTooWide)
    } else if !field_fits(s, pos, len) {
        Some(Exception::FieldOutOfBuffer)
    } else if value >= two_pow(len) {
        Some(Exception::ValueOutOfRange)
    } else {
        None
    }
}

/// What reading a big-endian unsigned integer of `len` bytes at byte `pos` gives.
pub open spec fn get_unsigned_result(s: Seq<u8>, pos: int, len: nat) -> Result<u32, Exception> {
    if len > 4 {
        Err(Exception::FieldTooWide)
    } else {
        get_bits_result(s, 8 * pos, 8 * len)
    }
}

/// The error that writing `value` as a big-endian unsigned integer of `len`
/// bytes at byte `pos` reports, if any.
pub open spec fn set_unsigned_error(s: Seq<u8>, pos: int, len: nat, value: nat) -> Option<
    Exception,
> {
    if len > 4 {
        Some(Exception::FieldTooWide)
    } else {
        set_bits_error(s, 8 * pos, 8 * len, value)
    }
}

/// The `len` least significant bytes of `v`, most significant byte first.
pub open spec fn be_bytes(v: nat, len: nat) -> Seq<u8>
    decreases len,
{
    if len == 0 {
        Seq::empty()
    } else {
        be_bytes(v / 256, (len - 1) as nat).push((v % 256) as u8)
    }
}

/// `s` cut or extended with zero bytes to `n` bytes.
pub open spec fn resized(s: Seq<u8>, n: nat) -> Seq<u8> {
    Seq::new(n, |i: int| if i < s.len() { s[i] } else { 0u8 })
}

/// `s` with the bytes of `t` written from byte `pos` on.
pub open spec fn with_bytes(s: Seq<u8>, pos: int, t: Seq<u8>) -> Seq<u8> {
    Seq::new(s.len(), |i: int| if pos <= i < pos + t.len() { t[i - pos] } else { s[i] })
}

// ---------------------------------------------------------------------------
// Accessors
// ---------------------------------------------------------------------------

/// A bit field: its first bit and its number of bits.
#[derive(Clone, Copy, Debug, PartialEq, Eq, Structural)]
pub struct BitAccessor {
    pub bit_pos: usize,
    pub bit_length: usize,
}

/// A big-endian unsigned integer field: its first byte and its number of bytes.
#[derive(Clone, Copy, Debug, PartialEq, Eq, Structural)]
pub struct UnsignedAccessor {
    pub byte_pos: usize,
    pub byte_length: usize,
}

// ---------------------------------------------------------------------------
// Lemmas on the model
// ---------------------------------------------------------------------------

proof fn lemma_byte_bit(x: u8, sj: u8, sk: u8, b: u8)
    requires
        sj < 8,
        sk < 8,
    ensures
        ((if b == 0 { x & !(1u8 << sk) } else { x | (1u8 << sk) }) >> sj) & 1u8 == (if sj == sk {
            if b == 0 {
                0u8
            } else {
                1u8
            }
        } else {
            (x >> sj) & 1u8
        }),
{
    if b == 0 {
        assert(((x & !(1u8 << sk)) >> sj) & 1u8 == (if sj == sk {
            0u8
        } else {
            (x >> sj) & 1u8
        })) by (bit_vector)
            requires
                sj < 8,
                sk < 8,
        ;
    } else {
        assert(((x | (1u8 << sk)) >> sj) & 1u8 == (if sj == sk {
            1u8
        } else {
            (x >> sj) & 1u8
        })) by (bit_vector)
            requires
                sj < 8,
                sk < 8,
        ;
    }
}

/// A bit is 0 or 1.
pub proof fn lemma_bit_at_bound(s: Seq<u8>, i: int)
    ensures
        bit_at(s, i) <= 1,
{
    let x = s[i / 8];
    let sh = (7 - i % 8) as u8;
    assert((x >> sh) & 1u8 <= 1) by (bit_vector);
}

/// Setting one bit changes that bit only.
pub proof fn lemma_set_bit(s: Seq<u8>, i: int, b: u8, j: int)
    requires
        0 <= i < 8 * s.len(),
        0 <= j < 8 * s.len(),
    ensures
        set_bit(s, i, b).len() == s.len(),
        bit_at(set_bit(s, i, b), j) == (if i == j {
            if b == 0 {
                0u8
            } else {
                1u8
            }
        } else {
            bit_at(s, j)
        }),
        forall|k: int| 0 <= k < s.len() && k != i / 8 ==> #[trigger] set_bit(s, i, b)[k] == s[k],
{
    let t = set_bit(s, i, b);
    if j / 8 == i / 8 {
        let sj = (7 - j % 8) as u8;
        let sk = (7 - i % 8) as u8;
        lemma_byte_bit(s[i / 8], sj, sk, b);
        assert(i == j <==> sj == sk);
    }
}

/// Writing a bit field keeps the length of the buffer.
pub proof fn lemma_with_bits_len(s: Seq<u8>, pos: int, len: nat, v: nat)
    requires
        field_fits(s, pos, len),
    ensures
        with_bits(s, pos, len, v).len() == s.len(),
    decreases len,
{
    if len > 0 {
        let s1 = set_bit(s, pos + len - 1, (v % 2) as u8);
        lemma_set_bit(s, pos + len - 1, (v % 2) as u8, 0);
        lemma_with_bits_len(s1, pos, (len - 1) as nat, v / 2);
    }
}

/// Writing a bit field leaves every bit outside the field as it was.
pub proof fn lemma_with_bits_frame(s: Seq<u8>, pos: int, len: nat, v: nat, j: int)
    requires
        field_fits(s, pos, len),
        0 <= j < 8 * s.len(),
        j < pos || pos + len <= j,
    ensures
        bit_at(with_bits(s, pos, len, v), j) == bit_at(s, j),
    decreases len,
{
    if len > 0 {
        let s1 = set_bit(s, pos + len - 1, (v % 2) as u8);
        lemma_set_bit(s, pos + len - 1, (v % 2) as u8, j);
        lemma_with_bits_frame(s1, pos, (len - 1) as nat, v / 2, j);
    }
}

/// Writing a bit field leaves every byte that holds no bit of the field as it was.
pub proof fn lemma_with_bits_bytes_frame(s: Seq<u8>, pos: int, len: nat, v: nat, k: int)
    requires
        field_fits(s, pos, len),
        0 <= k < s.len(),
        8 * k + 8 <= pos || pos + len <= 8 * k,
    ensures
        with_bits(s, pos, len, v)[k] == s[k],
    decreases len,
{
    if len > 0 {
        let s1 = set_bit(s, pos + len - 1, (v % 2) as u8);
        lemma_set_bit(s, pos + len - 1, (v % 2) as u8, 0);
        assert(k != (pos + len - 1) / 8);
        lemma_with_bits_bytes_frame(s1, pos, (len - 1) as nat, v / 2, k);
    }
}

/// A bit field's value depends on the bits of the field only.
pub proof fn lemma_bits_value_congruent(s: Seq<u8>, t: Seq<u8>, pos: int, len: nat)
    requires
        forall|j: int| pos <= j < pos + len ==> bit_at(s, j) == bit_at(t, j),
    ensures
        bits_value(s, pos, len) == bits_value(t, pos, len),
    decreases len,
{
    if len > 0 {
        lemma_bits_value_congruent(s, t, pos, (len - 1) as nat);
        assert(bit_at(s, pos + len - 1) == bit_at(t, pos + len - 1));
    }
}

/// A field of `len` bits holds a value below 2 to the power of `len`.
pub proof fn lemma_bits_value_bound(s: Seq<u8>, pos: int, len: nat)
    ensures
        bits_value(s, pos, len) < two_pow(len),
    decreases len,
{
    if len > 0 {
        lemma_bits_value_bound(s, pos, (len - 1) as nat);
        lemma_bit_at_bound(s, pos + len - 1);
    }
}

/// 2 to the power of `n` grows with `n`.
pub proof fn lemma_two_pow_monotonic(a: nat, b: nat)
    requires
        a <= b,
    ensures
        two_pow(a) <= two_pow(b),
    decreases b,
{
    if a < b {
        lemma_two_pow_monotonic(a, (b - 1) as nat);
    }
}

/// 2 to the power of 32.
pub proof fn lemma_two_pow_32()
    ensures
        two_pow(32) == 0x1_0000_0000,
{
    reveal_with_fuel(two_pow, 33);
}

/// Reading a bit field gives back the value last written to it, if that
/// value fits into the field.
pub proof fn lemma_get_with_bits(s: Seq<u8>, pos: int, len: nat, v: nat)
    requires
        field_fits(s, pos, len),
        v < two_pow(len),
    ensures
        bits_value(with_bits(s, pos, len, v), pos, len) == v,
    decreases len,
{
    if len > 0 {
        let i = pos + len - 1;
        let s1 = set_bit(s, i, (v % 2) as u8);
        lemma_set_bit(s, i, (v % 2) as u8, i);
        let w = with_bits(s1, pos, (len - 1) as nat, v / 2);
        lemma_get_with_bits(s1, pos, (len - 1) as nat, v / 2);
        lemma_with_bits_frame(s1, pos, (len - 1) as nat, v / 2, i);
        assert(bit_at(w, i) == v % 2);
    }
}

/// Writing one bit field leaves the value of a disjoint bit field as it was.
pub proof fn lemma_with_bits_other_field(
    s: Seq<u8>,
    pos: int,
    len: nat,
    v: nat,
    pos2: int,
    len2: nat,
)
    requires
        field_fits(s, pos, len),
        field_fits(s, pos2, len2),
        pos2 + len2 <= pos || pos + len <= pos2,
    ensures
        bits_value(with_bits(s, pos, len, v), pos2, len2) == bits_value(s, pos2, len2),
{
    let t = with_bits(s, pos, len, v);
    assert forall|j: int| pos2 <= j < pos2 + len2 implies bit_at(t, j) == bit_at(s, j) by {
        lemma_with_bits_frame(s, pos, len, v, j);
    }
    lemma_bits_value_congruent(t, s, pos2, len2);
}

/// A bit field splits into its first `a` bits and its last `b` bits.
pub proof fn lemma_with_bits_split(s: Seq<u8>, p: int, a: nat, b: nat, v: nat)
    requires
        field_fits(s, p, a + b),
    ensures
        with_bits(s, p, a + b, v) == with_bits(
            with_bits(s, p + a, b, v % two_pow(b)),
            p,
            a,
            v / two_pow(b),
        ),
    decreases b,
{
    if b > 0 {
        let q = two_pow((b - 1) as nat);
        assert(two_pow(b) == 2 * q);
        let s1 = set_bit(s, p + a + b - 1, (v % 2) as u8);
        lemma_set_bit(s, p + a + b - 1, (v % 2) as u8, 0);
        assert(with_bits(s, p, a + b, v) == with_bits(s1, p, (a + b - 1) as nat, v / 2));
        lemma_with_bits_split(s1, p, a, (b - 1) as nat, v / 2);
        lemma_two_pow_positive((b - 1) as nat);
        vstd::arithmetic::div_mod::lemma_mod_mod(v as int, 2, q as int);
        vstd::arithmetic::div_mod::lemma_mod_breakdown(v as int, 2, q as int);
        vstd::arithmetic::div_mod::lemma_div_denominator(v as int, 2, q as int);
        assert((v % two_pow(b)) % 2 == v % 2);
        assert((v % two_pow(b)) / 2 == (v / 2) % q);
        assert((v / 2) / q == v / two_pow(b));
    } else {
        assert(v % 1 == 0);
        assert(v / 1 == v);
    }
}

/// 2 to the power of `n` is positive.
pub proof fn lemma_two_pow_positive(n: nat)
    ensures
        two_pow(n) > 0,
    decreases n,
{
    if n > 0 {
        lemma_two_pow_positive((n - 1) as nat);
    }
}

proof fn lemma_byte_from_bits(x: u8, b0: u8, b1: u8, b2: u8, b3: u8, b4: u8, b5: u8, b6: u8, b7: u8)
    requires
        b0 <= 1 && b1 <= 1 && b2 <= 1 && b3 <= 1 && b4 <= 1 && b5 <= 1 && b6 <= 1 && b7 <= 1,
    ensures
        ({
            let y1 = if b0 == 0 { x & !1u8 } else { x | 1u8 };
            let y2 = if b1 == 0 { y1 & !2u8 } else { y1 | 2u8 };
            let y3 = if b2 == 0 { y2 & !4u8 } else { y2 | 4u8 };
            let y4 = if b3 == 0 { y3 & !8u8 } else { y3 | 8u8 };
            let y5 = if b4 == 0 { y4 & !16u8 } else { y4 | 16u8 };
            let y6 = if b5 == 0 { y5 & !32u8 } else { y5 | 32u8 };
            let y7 = if b6 == 0 { y6 & !64u8 } else { y6 | 64u8 };
            let y8 = if b7 == 0 { y7 & !128u8 } else { y7 | 128u8 };
            y8 as int == b0 + 2 * b1 + 4 * b2 + 8 * b3 + 16 * b4 + 32 * b5 + 64 * b6 + 128 * b7
        }),
{
    assert({
        let y1 = if b0 == 0 { x & !1u8 } else { x | 1u8 };
        let y2 = if b1 == 0 { y1 & !2u8 } else { y1 | 2u8 };
        let y3 = if b2 == 0 { y2 & !4u8 } else { y2 | 4u8 };
        let y4 = if b3 == 0 { y3 & !8u8 } else { y3 | 8u8 };
        let y5 = if b4 == 0 { y4 & !16u8 } else { y4 | 16u8 };
        let y6 = if b5 == 0 { y5 & !32u8 } else { y5 | 32u8 };
        let y7 = if b6 == 0 { y6 & !64u8 } else { y6 | 64u8 };
        let y8 = if b7 == 0 { y7 & !128u8 } else { y7 | 128u8 };
        y8 as int == b0 + 2 * b1 + 4 * b2 + 8 * b3 + 16 * b4 + 32 * b5 + 64 * b6 + 128 * b7
    }) by (bit_vector)
        requires
            b0 <= 1 && b1 <= 1 && b2 <= 1 && b3 <= 1 && b4 <= 1 && b5 <= 1 && b6 <= 1 && b7 <= 1,
    ;
}

/// Writing the 8 bits of a byte sets the byte.
pub proof fn lemma_with_bits_byte(s: Seq<u8>, k: int, w: nat)
    requires
        0 <= k < s.len(),
        w < 256,
    ensures
        with_bits(s, 8 * k, 8, w) == s.update(k, w as u8),
{
    let p = 8 * k;
    let x = s[k];
    let w1 = w / 2;
    let w2 = w1 / 2;
    let w3 = w2 / 2;
    let w4 = w3 / 2;
    let w5 = w4 / 2;
    let w6 = w5 / 2;
    let w7 = w6 / 2;
    let b0 = (w % 2) as u8;
    let b1 = (w1 % 2) as u8;
    let b2 = (w2 % 2) as u8;
    let b3 = (w3 % 2) as u8;
    let b4 = (w4 % 2) as u8;
    let b5 = (w5 % 2) as u8;
    let b6 = (w6 % 2) as u8;
    let b7 = (w7 % 2) as u8;
    let s1 = set_bit(s, p + 7, b0);
    let s2 = set_bit(s1, p + 6, b1);
    let s3 = set_bit(s2, p + 5, b2);
    let s4 = set_bit(s3, p + 4, b3);
    let s5 = set_bit(s4, p + 3, b4);
    let s6 = set_bit(s5, p + 2, b5);
    let s7 = set_bit(s6, p + 1, b6);
    let s8 = set_bit(s7, p + 0, b7);
    assert(with_bits(s, p, 8, w) == with_bits(s1, p, 7, w1));
    assert(with_bits(s1, p, 7, w1) == with_bits(s2, p, 6, w2));
    assert(with_bits(s2, p, 6, w2) == with_bits(s3, p, 5, w3));
    assert(with_bits(s3, p, 5, w3) == with_bits(s4, p, 4, w4));
    assert(with_bits(s4, p, 4, w4) == with_bits(s5, p, 3, w5));
    assert(with_bits(s5, p, 3, w5) == with_bits(s6, p, 2, w6));
    assert(with_bits(s6, p, 2, w6) == with_bits(s7, p, 1, w7));
    assert(with_bits(s7, p, 1, w7) == with_bits(s8, p, 0, w7 / 2));
    assert(1u8 << 0u8 == 1u8 && 1u8 << 1u8 == 2u8 && 1u8 << 2u8 == 4u8 && 1u8 << 3u8 == 8u8
        && 1u8 << 4u8 == 16u8 && 1u8 << 5u8 == 32u8 && 1u8 << 6u8 == 64u8 && 1u8 << 7u8
        == 128u8) by (bit_vector);
    assert(bit_mask(p + 7) == 1u8 << 0u8);
    assert(bit_mask(p + 6) == 1u8 << 1u8);
    assert(bit_mask(p + 5) == 1u8 << 2u8);
    assert(bit_mask(p + 4) == 1u8 << 3u8);
    assert(bit_mask(p + 3) == 1u8 << 4u8);
    assert(bit_mask(p + 2) == 1u8 << 5u8);
    assert(bit_mask(p + 1) == 1u8 << 6u8);
    assert(bit_mask(p + 0) == 1u8 << 7u8);
    lemma_byte_from_bits(x, b0, b1, b2, b3, b4, b5, b6, b7);
    assert(s8 =~= s.update(k, w as u8));
}

/// `be_bytes(v, len)` has `len` bytes.
pub proof fn lemma_be_bytes_len(v: nat, len: nat)
    ensures
        be_bytes(v, len).len() == len,
    decreases len,
{
    if len > 0 {
        lemma_be_bytes_len(v / 256, (len - 1) as nat);
    }
}

/// Writing a bit field that covers whole bytes writes the big-endian bytes
/// of the value.
pub proof fn lemma_with_bits_be_bytes(s: Seq<u8>, pos: int, len: nat, v: nat)
    requires
        0 <= pos,
        pos + len <= s.len(),
    ensures
        with_bits(s, 8 * pos, 8 * len, v) == with_bytes(s, pos, be_bytes(v, len)),
    decreases len,
{
    if len == 0 {
        assert(with_bytes(s, pos, be_bytes(v, len)) =~= s);
    } else {
        let k = pos + len - 1;
        assert(two_pow(8) == 256) by {
            reveal_with_fuel(two_pow, 9);
        }
        lemma_with_bits_split(s, 8 * pos, 8 * (len - 1) as nat, 8, v);
        assert(8 * pos + 8 * (len - 1) == 8 * k);
        lemma_with_bits_byte(s, k, v % 256);
        let s1 = s.update(k, (v % 256) as u8);
        lemma_with_bits_be_bytes(s1, pos, (len - 1) as nat, v / 256);
        lemma_be_bytes_len(v / 256, (len - 1) as nat);
        assert(with_bytes(s1, pos, be_bytes(v / 256, (len - 1) as nat)) =~= with_bytes(
            s,
            pos,
            be_bytes(v, len),
        ));
    }
}

/// The value of a bit field is that of its first `a` bits followed by that
/// of its last `b` bits.
pub proof fn lemma_bits_value_split(s: Seq<u8>, pos: int, a: nat, b: nat)
    ensures
        bits_value(s, pos, a + b) == bits_value(s, pos, a) * two_pow(b) + bits_value(
            s,
            pos + a,
            b,
        ),
    decreases b,
{
    if b > 0 {
        lemma_bits_value_split(s, pos, a, (b - 1) as nat);
        let va = bits_value(s, pos, a);
        let q = two_pow((b - 1) as nat);
        assert(2 * (va * q) == va * (2 * q)) by (nonlinear_arith);
        assert(bits_value(s, pos, a + b) == 2 * bits_value(s, pos, (a + b - 1) as nat) + bit_at(
            s,
            pos + a + b - 1,
        ));
    } else {
        assert(bits_value(s, pos, a) * 1 == bits_value(s, pos, a));
    }
}

/// The 8 bits of a byte hold the byte's value.
pub proof fn lemma_bits_value_byte(s: Seq<u8>, k: int)
    requires
        0 <= k < s.len(),
    ensures
        bits_value(s, 8 * k, 8) == s[k],
{
    let x = s[k];
    let p = 8 * k;
    reveal_with_fuel(bits_value, 9);
    assert(bit_at(s, p) == (x >> 7u8) & 1u8);
    assert(bit_at(s, p + 1) == (x >> 6u8) & 1u8);
    assert(bit_at(s, p + 2) == (x >> 5u8) & 1u8);
    assert(bit_at(s, p + 3) == (x >> 4u8) & 1u8);
    assert(bit_at(s, p + 4) == (x >> 3u8) & 1u8);
    assert(bit_at(s, p + 5) == (x >> 2u8) & 1u8);
    assert(bit_at(s, p + 6) == (x >> 1u8) & 1u8);
    assert(bit_at(s, p + 7) == (x >> 0u8) & 1u8);
    assert(x as int == 2 * (2 * (2 * (2 * (2 * (2 * (2 * ((x >> 7u8) & 1u8) + ((x >> 6u8) & 1u8))
        + ((x >> 5u8) & 1u8)) + ((x >> 4u8) & 1u8)) + ((x >> 3u8) & 1u8)) + ((x >> 2u8) & 1u8))
        + ((x >> 1u8) & 1u8)) + ((x >> 0u8) & 1u8)) by (bit_vector);
}

/// A 16-bit field that covers bytes `k` and `k + 1` holds their big-endian value.
pub proof fn lemma_bits_value_u16(s: Seq<u8>, k: int)
    requires
        0 <= k,
        k + 1 < s.len(),
    ensures
        bits_value(s, 8 * k, 16) == 256 * s[k] + s[k + 1],
{
    lemma_bits_value_split(s, 8 * k, 8, 8);
    lemma_bits_value_byte(s, k);
    lemma_bits_value_byte(s, k + 1);
    assert(two_pow(8) == 256) by {
        reveal_with_fuel(two_pow, 9);
    }
    assert(8 * k + 8 == 8 * (k + 1));
}

// ---------------------------------------------------------------------------
// Laws of the bit and unsigned accessors
// ---------------------------------------------------------------------------

/// Writing a bit field keeps the size of the buffer, and reading the field
/// afterwards gives back the value written.
pub proof fn get_bits_after_set_bits(s: Seq<u8>, pos: int, len: nat, value: u32)
    requires
        set_bits_error(s, pos, len, value as nat) is None,
    ensures
        with_bits(s, pos, len, value as nat).len() == s.len(),
        get_bits_result(with_bits(s, pos, len, value as nat), pos, len) == Ok::<u32, Exception>(
            value,
        ),
{
    lemma_with_bits_len(s, pos, len, value as nat);
    lemma_get_with_bits(s, pos, len, value as nat);
}

/// Writing a bit field leaves what every disjoint bit field reads as it was.
pub proof fn set_bits_keeps_other_fields(
    s: Seq<u8>,
    pos: int,
    len: nat,
    value: u32,
    pos2: int,
    len2: nat,
)
    requires
        set_bits_error(s, pos, len, value as nat) is None,
        pos2 + len2 <= pos || pos + len <= pos2,
    ensures
        get_bits_result(with_bits(s, pos, len, value as nat), pos2, len2) == get_bits_result(
            s,
            pos2,
            len2,
        ),
{
    lemma_with_bits_len(s, pos, len, value as nat);
    if field_fits(s, pos2, len2) {
        lemma_with_bits_other_field(s, pos, len, value as nat, pos2, len2);
    }
}

/// Writing an unsigned integer field keeps the size of the buffer, and
/// reading the field afterwards gives back the value written.
pub proof fn get_unsigned_after_set_unsigned(s: Seq<u8>, pos: int, len: nat, value: u32)
    requires
        set_unsigned_error(s, pos, len, value as nat) is None,
    ensures
        with_bytes(s, pos, be_bytes(value as nat, len)).len() == s.len(),
        get_unsigned_result(with_bytes(s, pos, be_bytes(value as nat, len)), pos, len) == Ok::<
            u32,
            Exception,
        >(value),
{
    get_bits_after_set_bits(s, 8 * pos, 8 * len, value);
    lemma_with_bits_be_bytes(s, pos, len, value as nat);
}

// ---------------------------------------------------------------------------
// The buffer: owned, or borrowed read-only, or borrowed read-write
// ---------------------------------------------------------------------------

/// A byte buffer that a data unit either owns or borrows from its caller.
pub enum HybridVector<'a> {
    Owned(Vec<u8>),
    ReadOnly(&'a [u8]),
    ReadWrite(&'a mut [u8]),
}

impl<'a> HybridVector<'a> {
    /// The bytes of the buffer.
    pub open spec fn bytes(&self) -> Seq<u8> {
        match self {
            HybridVector::Owned(v) => v@,
            HybridVector::ReadOnly(r) => r@,
            HybridVector::ReadWrite(r) => r@,
        }
    }

    /// Once the buffer is done with, a caller's slice that it borrows
    /// read-write holds its bytes.
    pub proof fn lemma_resolved_writes_through(self)
        requires
            has_resolved(self),
        ensures
            self matches HybridVector::ReadWrite(r) ==> final(r)@ == self.bytes(),
    {
        match self {
            HybridVector::ReadWrite(r) => {
                assert(has_resolved(r));
            },
            _ => {},
        }
    }

    /// The buffer may be written.
    pub open spec fn writable(&self) -> bool {
        !(*self is ReadOnly)
    }

    /// A new owned buffer of `size` zero bytes.
    pub fn new_alloc(size: usize) -> (hv: HybridVector<'a>)
        ensures
            hv.bytes() == Seq::new(size as nat, |i: int| 0u8),
            hv.writable(),
    {
        let mut v: Vec<u8> = Vec::new();
        let mut i: usize = 0;
        while i < size
            invariant
                i <= size,
                v@ == Seq::new(i as nat, |k: int| 0u8),
            decreases size - i,
        {
            v.push(0u8);
            i = i + 1;
        }
        HybridVector::Owned(v)
    }

    /// A new owned buffer that holds a copy of `value`.
    pub fn new_clone(value: &Vec<u8>) -> (hv: HybridVector<'a>)
        ensures
            hv.bytes() == value@,
            hv.writable(),
    {
        HybridVector::Owned(slice_to_vec(value.as_slice()))
    }

    /// A buffer that takes ownership of `value`.
    pub fn new_owner(value: Vec<u8>) -> (hv: HybridVector<'a>)
        ensures
            hv.bytes() == value@,
            hv.writable(),
    {
        HybridVector::Owned(value)
    }

    /// A read-only buffer over the caller's bytes.
    pub fn new_read_only(reference: &'a [u8]) -> (hv: HybridVector<'a>)
        ensures
            hv.bytes() == reference@,
            !hv.writable(),
    {
        HybridVector::ReadOnly(reference)
    }

    /// A buffer that reads and writes the caller's bytes.
    pub fn new_read_write(reference: &'a mut [u8]) -> (hv: HybridVector<'a>)
        ensures
            hv.bytes() == old(reference)@,
            hv.writable(),
            hv matches HybridVector::ReadWrite(r) && final(r)@ == final(reference)@,
    {
        HybridVector::ReadWrite(reference)
    }

    /// The number of bytes.
    pub fn len(&self) -> (n: usize)
        ensures
            n == self.bytes().len(),
    {
        match self {
            HybridVector::Owned(v) => v.len(),
            HybridVector::ReadOnly(r) => r.len(),
            HybridVector::ReadWrite(r) => r.len(),
        }
    }

    /// The bytes as a slice.
    pub fn read_only(&self) -> (r: &[u8])
        ensures
            r@ == self.bytes(),
    {
        match self {
            HybridVector::Owned(v) => v.as_slice(),
            HybridVector::ReadOnly(r) => r,
            HybridVector::ReadWrite(r) => r,
        }
    }

    /// Cuts or extends the bytes with zero bytes to `new_size` bytes, in a
    /// buffer that the data unit owns from then on.
    pub fn resize(&mut self, new_size: usize)
        ensures
            final(self).bytes() == resized(old(self).bytes(), new_size as nat),
            final(self).writable(),
            *old(self) matches HybridVector::ReadWrite(r0) ==> final(r0)@ == old(self).bytes(),
    {
        let size = self.len();
        let mut v: Vec<u8> = Vec::new();
        let mut i: usize = 0;
        while i < new_size
            invariant
                size == self.bytes().len(),
                self.bytes() == old(self).bytes(),
                i <= new_size,
                v@ == resized(self.bytes(), new_size as nat).take(i as int),
            decreases new_size - i,
        {
            let b = if i < size {
                self.at(i)
            } else {
                0u8
            };
            v.push(b);
            i = i + 1;
            assert(v@ =~= resized(self.bytes(), new_size as nat).take(i as int));
        }
        assert(v@ =~= resized(old(self).bytes(), new_size as nat));
        *self = HybridVector::Owned(v);
    }

    /// The bytes as a mutable slice; what is written into it becomes the
    /// buffer's bytes.
    pub fn read_write(&mut self) -> (r: &mut [u8])
        requires
            old(self).writable(),
        ensures
            r@ == old(self).bytes(),
            final(self).bytes() == final(r)@,
            final(self).writable(),
            *old(self) matches HybridVector::ReadWrite(r0) ==> *final(self) matches HybridVector::ReadWrite(
                r1,
            ) && final(r1)@ == final(r0)@,
    {
        match self {
            HybridVector::Owned(v) => v.as_mut_slice(),
            HybridVector::ReadOnly(_) => vstd::pervasive::unreached(),
            HybridVector::ReadWrite(r) => r,
        }
    }

    /// The byte at `pos`.
    pub fn at(&self, pos: usize) -> (b: u8)
        requires
            pos < self.bytes().len(),
        ensures
            b == self.bytes()[pos as int],
    {
        match self {
            HybridVector::Owned(v) => v[pos],
            HybridVector::ReadOnly(r) => r[pos],
            HybridVector::ReadWrite(r) => r[pos],
        }
    }

    /// Sets the byte at `pos`.
    pub fn set_at(&mut self, pos: usize, b: u8)
        requires
            old(self).writable(),
            pos < old(self).bytes().len(),
        ensures
            final(self).bytes() == old(self).bytes().update(pos as int, b),
            final(self).writable(),
            *old(self) matches HybridVector::ReadWrite(r0) ==> *final(self) matches HybridVector::ReadWrite(
                r1,
            ) && final(r1)@ == final(r0)@,
    {
        match self {
            HybridVector::Owned(v) => {
                v.set(pos, b);
            },
            HybridVector::ReadOnly(_) => {},
            HybridVector::ReadWrite(r) => {
                r[pos] = b;
            },
        }
    }
}

// ---------------------------------------------------------------------------
// The data unit interface
// ---------------------------------------------------------------------------

/// The byte buffer of a data unit.
pub trait DUbuffer {
    /// The bytes of the data unit.
    spec fn bytes(&self) -> Seq<u8>;

    /// The buffer that holds the bytes.
    spec fn inner(&self) -> HybridVector<'_>;

    /// The data unit's buffer may be written.
    spec fn writable(&self) -> bool;

    /// The bytes as a slice.
    fn buffer_read_only(&self) -> (r: &[u8])
        ensures
            r@ == self.bytes(),
    ;

    /// The bytes as a mutable slice; what is written into it becomes the
    /// data unit's bytes.
    fn buffer_read_write(&mut self) -> (r: &mut [u8])
        requires
            old(self).writable(),
        ensures
            r@ == old(self).bytes(),
            final(self).bytes() == final(r)@,
            final(self).writable(),
            old(self).inner() matches HybridVector::ReadWrite(r0) ==> final(self).inner() matches HybridVector::ReadWrite(
                r1,
            ) && final(r1)@ == final(r0)@,
    ;

    /// The number of bytes.
    fn size(&self) -> (n: usize)
        ensures
            n == self.bytes().len(),
    ;

    /// The byte at `pos`.
    fn at(&self, pos: usize) -> (b: u8)
        requires
            pos < self.bytes().len(),
        ensures
            b == self.bytes()[pos as int],
    ;

    /// Sets the byte at `pos`.
    fn set_at(&mut self, pos: usize, b: u8)
        requires
            old(self).writable(),
            pos < old(self).bytes().len(),
        ensures
            final(self).bytes() == old(self).bytes().update(pos as int, b),
            final(self).writable(),
            old(self).inner() matches HybridVector::ReadWrite(r0) ==> final(self).inner() matches HybridVector::ReadWrite(
                r1,
            ) && final(r1)@ == final(r0)@,
    ;

    /// Cuts or extends the bytes with zero bytes to `new_size` bytes, in a
    /// buffer that the data unit owns from then on; a borrowed caller's slice
    /// keeps the bytes it held before.
    fn resize(&mut self, new_size: usize)
        ensures
            final(self).bytes() == resized(old(self).bytes(), new_size as nat),
            final(self).writable(),
            old(self).inner() matches HybridVector::ReadWrite(r0) ==> final(r0)@ == old(
                self,
            ).bytes(),
    ;

    /// The bytes are those of the buffer.
    proof fn lemma_bytes_of_inner(&self)
        ensures
            self.bytes() == self.inner().bytes(),
            self.writable() == self.inner().writable(),
    ;
}

/// A data unit: a byte buffer with bit field and unsigned integer accessors.
pub trait DUintf: DUbuffer {
    /// Reads the `bit_length` bits that start at bit `bit_pos` as an
    /// unsigned integer, most significant bit first.
    fn get_bits(&self, bit_pos: usize, bit_length: usize) -> (r: Result<u32, Exception>)
        ensures
            r == get_bits_result(self.bytes(), bit_pos as int, bit_length as nat),
    {
        let size = self.size();
        if bit_length > 32 {
            return Err(Exception::FieldTooWide);
        }
        if (bit_pos as u128) + (bit_length as u128) > 8 * (size as u128) {
            return Err(Exception::FieldOutOfBuffer);
        }
        Ok(read_bits(self, bit_pos as u128, bit_length))
    }

    /// Writes `value` into the `bit_length` bits that start at bit `bit_pos`,
    /// most significant bit first.
    fn set_bits(&mut self, bit_pos: usize, bit_length: usize, value: u32) -> (r: Result<
        (),
        Exception,
    >)
        requires
            old(self).writable() || set_bits_error(
                old(self).bytes(),
                bit_pos as int,
                bit_length as nat,
                value as nat,
            ) is Some,
        ensures
            final(self).writable() == old(self).writable(),
            old(self).inner() matches HybridVector::ReadWrite(r0) ==> final(self).inner() matches HybridVector::ReadWrite(
                r1,
            ) && final(r1)@ == final(r0)@,
            match set_bits_error(old(self).bytes(), bit_pos as int, bit_length as nat, value as nat) {
                Some(e) => r == Err::<(), Exception>(e) && final(self).bytes() == old(self).bytes(),
                None => r == Ok::<(), Exception>(()) && final(self).bytes() == with_bits(
                    old(self).bytes(),
                    bit_pos as int,
                    bit_length as nat,
                    value as nat,
                ),
            },
    {
        let size = self.size();
        if bit_length > 32 {
            return Err(Exception::FieldTooWide);
        }
        if (bit_pos as u128) + (bit_length as u128) > 8 * (size as u128) {
            return Err(Exception::FieldOutOfBuffer);
        }
        if (value as u64) >= two_pow_u64(bit_length) {
            return Err(Exception::ValueOutOfRange);
        }
        write_bits(self, bit_pos as u128, bit_length, value);
        Ok(())
    }

    /// Reads the bit field `acc`.
    fn get_bits_acc(&self, acc: BitAccessor) -> (r: Result<u32, Exception>)
        ensures
            r == get_bits_result(self.bytes(), acc.bit_pos as int, acc.bit_length as nat),
    {
        self.get_bits(acc.bit_pos, acc.bit_length)
    }

    /// Writes `value` into the bit field `acc`.
    fn set_bits_acc(&mut self, acc: BitAccessor, value: u32) -> (r: Result<(), Exception>)
        requires
            old(self).writable() || set_bits_error(
                old(self).bytes(),
                acc.bit_pos as int,
                acc.bit_length as nat,
                value as nat,
            ) is Some,
        ensures
            final(self).writable() == old(self).writable(),
            old(self).inner() matches HybridVector::ReadWrite(r0) ==> final(self).inner() matches HybridVector::ReadWrite(
                r1,
            ) && final(r1)@ == final(r0)@,
            match set_bits_error(
                old(self).bytes(),
                acc.bit_pos as int,
                acc.bit_length as nat,
                value as nat,
            ) {
                Some(e) => r == Err::<(), Exception>(e) && final(self).bytes() == old(self).bytes(),
                None => r == Ok::<(), Exception>(()) && final(self).bytes() == with_bits(
                    old(self).bytes(),
                    acc.bit_pos as int,
                    acc.bit_length as nat,
                    value as nat,
                ),
            },
    {
        self.set_bits(acc.bit_pos, acc.bit_length, value)
    }

    /// Reads the big-endian unsigned integer of `byte_length` bytes that
    /// starts at byte `byte_pos`.
    fn get_unsigned(&self, byte_pos: usize, byte_length: usize) -> (r: Result<u32, Exception>)
        ensures
            r == get_unsigned_result(self.bytes(), byte_pos as int, byte_length as nat),
    {
        if byte_length > 4 {
            return Err(Exception::FieldTooWide);
        }
        let size = self.size();
        if byte_pos > size || size - byte_pos < byte_length {
            return Err(Exception::FieldOutOfBuffer);
        }
        if byte_length == 0 {
            return Ok(0);
        }
        Ok(read_bits(self, 8 * (byte_pos as u128), 8 * byte_length))
    }

    /// Writes `value` as the big-endian unsigned integer of `byte_length`
    /// bytes that starts at byte `byte_pos`.
    fn set_unsigned(&mut self, byte_pos: usize, byte_length: usize, value: u32) -> (r: Result<
        (),
        Exception,
    >)
        requires
            old(self).writable() || set_unsigned_error(
                old(self).bytes(),
                byte_pos as int,
                byte_length as nat,
                value as nat,
            ) is Some,
        ensures
            final(self).writable() == old(self).writable(),
            old(self).inner() matches HybridVector::ReadWrite(r0) ==> final(self).inner() matches HybridVector::ReadWrite(
                r1,
            ) && final(r1)@ == final(r0)@,
            match set_unsigned_error(
                old(self).bytes(),
                byte_pos as int,
                byte_length as nat,
                value as nat,
            ) {
                Some(e) => r == Err::<(), Exception>(e) && final(self).bytes() == old(self).bytes(),
                None => r == Ok::<(), Exception>(()) && final(self).bytes() == with_bytes(
                    old(self).bytes(),
                    byte_pos as int,
                    be_bytes(value as nat, byte_length as nat),
                ),
            },
    {
        if byte_length > 4 {
            return Err(Exception::FieldTooWide);
        }
        let size = self.size();
        if byte_pos > size || size - byte_pos < byte_length {
            return Err(Exception::FieldOutOfBuffer);
        }
        if (value as u64) >= two_pow_u64(8 * byte_length) {
            return Err(Exception::ValueOutOfRange);
        }
        write_bits(self, 8 * (byte_pos as u128), 8 * byte_length, value);
        proof {
            lemma_with_bits_be_bytes(
                old(self).bytes(),
                byte_pos as int,
                byte_length as nat,
                value as nat,
            );
        }
        Ok(())
    }

    /// Reads the unsigned integer field `acc`.
    fn get_unsigned_acc(&self, acc: UnsignedAccessor) -> (r: Result<u32, Exception>)
        ensures
            r == get_unsigned_result(self.bytes(), acc.byte_pos as int, acc.byte_length as nat),
    {
        self.get_unsigned(acc.byte_pos, acc.byte_length)
    }

    /// Writes `value` into the unsigned integer field `acc`.
    fn set_unsigned_acc(&mut self, acc: UnsignedAccessor, value: u32) -> (r: Result<
        (),
        Exception,
    >)
        requires
            old(self).writable() || set_unsigned_error(
                old(self).bytes(),
                acc.byte_pos as int,
                acc.byte_length as nat,
                value as nat,
            ) is Some,
        ensures
            final(self).writable() == old(self).writable(),
            old(self).inner() matches HybridVector::ReadWrite(r0) ==> final(self).inner() matches HybridVector::ReadWrite(
                r1,
            ) && final(r1)@ == final(r0)@,
            match set_unsigned_error(
                old(self).bytes(),
                acc.byte_pos as int,
                acc.byte_length as nat,
                value as nat,
            ) {
                Some(e) => r == Err::<(), Exception>(e) && final(self).bytes() == old(self).bytes(),
                None => r == Ok::<(), Exception>(()) && final(self).bytes() == with_bytes(
                    old(self).bytes(),
                    acc.byte_pos as int,
                    be_bytes(value as nat, acc.byte_length as nat),
                ),
            },
    {
        self.set_unsigned(acc.byte_pos, acc.byte_length, value)
    }
}


/// 2 to the power of `n`, for `n` up to 32.
pub fn two_pow_u64(n: usize) -> (r: u64)
    requires
        n <= 32,
    ensures
        r == two_pow(n as nat),
{
    let mut limit: u64 = 1;
    let mut k: usize = 0;
    while k < n
        invariant
            n <= 32,
            k <= n,
            limit == two_pow(k as nat),
        decreases n - k,
    {
        proof {
            lemma_two_pow_monotonic(k as nat, 32);
            lemma_two_pow_32();
        }
        limit = 2 * limit;
        k = k + 1;
    }
    limit
}

/// Reads a bit field that lies inside the data unit.
fn read_bits<D: DUbuffer + ?Sized>(du: &D, pos: u128, len: usize) -> (r: u32)
    requires
        len <= 32,
        pos + len <= 8 * du.bytes().len(),
    ensures
        r == bits_value(du.bytes(), pos as int, len as nat),
{
    let ghost s = du.bytes();
    let size = du.size();
    let mut value: u64 = 0;
    let mut k: usize = 0;
    while k < len
        invariant
            s == du.bytes(),
            size == s.len(),
            len <= 32,
            pos + len <= 8 * s.len(),
            k <= len,
            value == bits_value(s, pos as int, k as nat),
        decreases len - k,
    {
        proof {
            lemma_bits_value_bound(s, pos as int, k as nat);
            lemma_two_pow_monotonic(k as nat, 32);
            lemma_two_pow_32();
            lemma_bit_at_bound(s, pos + k);
        }
        let i: u128 = pos + (k as u128);
        let byte = du.at((i / 8) as usize);
        let bit: u8 = (byte >> ((7 - i % 8) as u8)) & 1u8;
        value = 2 * value + (bit as u64);
        k = k + 1;
    }
    proof {
        lemma_bits_value_bound(s, pos as int, len as nat);
        lemma_two_pow_monotonic(len as nat, 32);
        lemma_two_pow_32();
    }
    value as u32
}

/// Writes a value that fits into a bit field that lies inside the data unit.
fn write_bits<D: DUbuffer + ?Sized>(du: &mut D, pos: u128, len: usize, value: u32)
    requires
        old(du).writable(),
        len <= 32,
        pos + len <= 8 * old(du).bytes().len(),
    ensures
        final(du).writable(),
        final(du).bytes() == with_bits(old(du).bytes(), pos as int, len as nat, value as nat),
        old(du).inner() matches HybridVector::ReadWrite(r0) ==> final(du).inner() matches HybridVector::ReadWrite(
            r1,
        ) && final(r1)@ == final(r0)@,
{
    let ghost s0 = du.bytes();
    let size = du.size();
    let mut v: u32 = value;
    let mut k: usize = len;
    while k > 0
        invariant
            du.writable(),
            old(du).inner() matches HybridVector::ReadWrite(r0) ==> du.inner() matches HybridVector::ReadWrite(
                r1,
            ) && final(r1)@ == final(r0)@,
            size == s0.len(),
            du.bytes().len() == s0.len(),
            s0 == old(du).bytes(),
            pos + len <= 8 * s0.len(),
            k <= len,
            with_bits(du.bytes(), pos as int, k as nat, v as nat) == with_bits(
                s0,
                pos as int,
                len as nat,
                value as nat,
            ),
        decreases k,
    {
        let i: u128 = pos + (k as u128) - 1;
        let byte_pos: usize = (i / 8) as usize;
        let byte = du.at(byte_pos);
        let mask: u8 = 1u8 << ((7 - i % 8) as u8);
        let new_byte: u8 = if v % 2 == 0 {
            byte & !mask
        } else {
            byte | mask
        };
        let ghost s = du.bytes();
        du.set_at(byte_pos, new_byte);
        proof {
            assert(du.bytes() == set_bit(s, i as int, (v % 2) as u8));
        }
        v = v / 2;
        k = k - 1;
    }
}

} // verus!
