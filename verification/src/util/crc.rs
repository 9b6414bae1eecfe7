use vstd::prelude::*;

verus! {

/// The generator polynomial x^16 + x^12 + x^5 + 1, without its leading term.
pub const CRC16_POLYNOMIAL: u16 = 0x1021;

/// The value the CRC register starts with.
pub const CRC16_SEED: u16 = 0xFFFF;

/// One step of the CRC register: shift left by one bit and, when a 1 bit
/// was shifted out, add the polynomial.
pub open spec fn crc16_shift(crc: u16) -> u16 {
    if crc & 0x8000u16 != 0 {
        (crc << 1u16) ^ CRC16_POLYNOMIAL
    } else {
        crc << 1u16
    }
}

/// `n` steps of the CRC register.
pub open spec fn crc16_shifts(crc: u16, n: nat) -> u16
    decreases n,
{
    if n == 0 {
        crc
    } else {
        crc16_shift(crc16_shifts(crc, (n - 1) as nat))
    }
}

/// The CRC register after one more byte, most significant bit first.
pub open spec fn crc16_update(crc: u16, byte: u8) -> u16 {
    crc16_shifts(crc ^ ((byte as u16) << 8u16), 8)
}

/// The CCSDS CRC-16 (CRC-16-CCITT, seed 0xFFFF, no reflection, no final
/// xor) of a byte sequence.
pub open spec fn crc16(s: Seq<u8>) -> u16
    decreases s.len(),
{
    if s.len() == 0 {
        CRC16_SEED
    } else {
        crc16_update(crc16(s.drop_last()), s.last())
    }
}

proof fn lemma_crc16_shift_injective(x: u16, y: u16)
    requires
        x != y,
    ensures
        crc16_shift(x) != crc16_shift(y),
{
    assert(x != y ==> (if x & 0x8000u16 != 0 {
        (x << 1u16) ^ 0x1021u16
    } else {
        x << 1u16
    }) != (if y & 0x8000u16 != 0 {
        (y << 1u16) ^ 0x1021u16
    } else {
        y << 1u16
    })) by (bit_vector);
}

proof fn lemma_crc16_shifts_injective(x: u16, y: u16, n: nat)
    requires
        x != y,
    ensures
        crc16_shifts(x, n) != crc16_shifts(y, n),
    decreases n,
{
    if n > 0 {
        lemma_crc16_shifts_injective(x, y, (n - 1) as nat);
        lemma_crc16_shift_injective(
            crc16_shifts(x, (n - 1) as nat),
            crc16_shifts(y, (n - 1) as nat),
        );
    }
}

/// Different bytes lead a CRC register to different values.
proof fn lemma_crc16_update_byte_injective(c: u16, a: u8, b: u8)
    requires
        a != b,
    ensures
        crc16_update(c, a) != crc16_update(c, b),
{
    assert(a != b ==> c ^ ((a as u16) << 8u16) != c ^ ((b as u16) << 8u16)) by (bit_vector);
    lemma_crc16_shifts_injective(c ^ ((a as u16) << 8u16), c ^ ((b as u16) << 8u16), 8);
}

/// Different registers stay different after the same byte.
proof fn lemma_crc16_update_state_injective(c: u16, d: u16, a: u8)
    requires
        c != d,
    ensures
        crc16_update(c, a) != crc16_update(d, a),
{
    assert(c != d ==> c ^ ((a as u16) << 8u16) != d ^ ((a as u16) << 8u16)) by (bit_vector);
    lemma_crc16_shifts_injective(c ^ ((a as u16) << 8u16), d ^ ((a as u16) << 8u16), 8);
}

/// The CRC-16 tells apart any two byte sequences of the same length that
/// differ in one byte only (so it detects every error confined to one byte,
/// every single-bit error among them).
pub proof fn crc16_detects_one_byte_change(a: Seq<u8>, b: Seq<u8>, k: int)
    requires
        a.len() == b.len(),
        0 <= k < a.len(),
        a[k] != b[k],
        forall|i: int| 0 <= i < a.len() && i != k ==> a[i] == b[i],
    ensures
        crc16(a) != crc16(b),
    decreases a.len(),
{
    let n = a.len() as int;
    if k == n - 1 {
        assert(a.drop_last() =~= b.drop_last());
        lemma_crc16_update_byte_injective(crc16(a.drop_last()), a.last(), b.last());
    } else {
        crc16_detects_one_byte_change(a.drop_last(), b.drop_last(), k);
        lemma_crc16_update_state_injective(crc16(a.drop_last()), crc16(b.drop_last()), a.last());
    }
}

/// The CRC-16 of the first `size` bytes of `buffer`.
pub fn calculate16(buffer: &[u8], size: usize) -> (crc: u16)
    requires
        size <= buffer@.len(),
    ensures
        crc == crc16(buffer@.take(size as int)),
{
    let mut crc: u16 = CRC16_SEED;
    let mut i: usize = 0;
    while i < size
        invariant
            size <= buffer@.len(),
            i <= size,
            crc == crc16(buffer@.take(i as int)),
        decreases size - i,
    {
        let ghost start = crc ^ ((buffer@[i as int] as u16) << 8u16);
        let mut c: u16 = crc ^ ((buffer[i] as u16) << 8u16);
        let mut k: usize = 0;
        while k < 8
            invariant
                k <= 8,
                c == crc16_shifts(start, k as nat),
            decreases 8 - k,
        {
            c = if c & 0x8000u16 != 0 {
                (c << 1u16) ^ CRC16_POLYNOMIAL
            } else {
                c << 1u16
            };
            k = k + 1;
        }
        proof {
            let t = buffer@.take(i + 1);
            assert(t.drop_last() =~= buffer@.take(i as int));
            assert(t.last() == buffer@[i as int]);
        }
        crc = c;
        i = i + 1;
    }
    crc
}

} // verus!
